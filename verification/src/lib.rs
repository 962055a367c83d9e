//! Generation of ULIDs (universally unique, lexicographically sortable
//! identifiers), optionally seeded from a calendar date, optionally produced
//! as a monotonically increasing sequence, and rendered either in the native
//! 26-character Crockford base-32 form or as a 36-character hyphenated UUID.

pub mod cli;
pub mod date;
pub mod ident;
pub mod render;
