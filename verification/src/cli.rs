//! The driver's core: one validated configuration in, one rendered line per
//! generated identifier out.

use vstd::prelude::*;

use crate::date::DateSeed;
use crate::ident::generate_sequence;
use crate::ident::generation_step;
use crate::ident::Identifier;
use crate::render::render;
use crate::render::render_spec;

verus! {

/// One validated invocation: how many identifiers to produce, whether to
/// render them as UUIDs, which date to seed their timestamps from, and
/// whether each one is derived monotonically from its predecessor.
#[derive(Clone, Copy, Debug)]
pub struct Config {
    pub count: usize,
    pub use_uuid: bool,
    pub date: Option<DateSeed>,
    pub monotonic: bool,
}

/// Runs one invocation: produces exactly `config.count` lines, each the
/// rendering of one identifier of a single generation run, in order.
pub fn run(config: &Config) -> (lines: Vec<String>)
    requires
        config.date matches Some(d) ==> d.wf(),
    ensures
        lines@.len() == config.count,
        exists|ids: Seq<u128>|
            {
                &&& #[trigger] ids.len() == config.count
                &&& (config.count > 0 ==> generation_step(
                    config.monotonic,
                    config.date,
                    None,
                    ids[0],
                ))
                &&& (forall|i: int|
                    0 < i < ids.len() ==> generation_step(
                        config.monotonic,
                        config.date,
                        Some(ids[i - 1]),
                        #[trigger] ids[i],
                    ))
                &&& (forall|i: int|
                    0 <= i < ids.len() ==> lines@[i]@ == render_spec(
                        #[trigger] ids[i],
                        config.use_uuid,
                    ))
            },
{
    let ids = generate_sequence(config.count, config.monotonic, config.date);
    let mut lines: Vec<String> = Vec::new();
    let mut i: usize = 0;
    while i < ids.len()
        invariant
            ids@.len() == config.count,
            i <= config.count,
            lines@.len() == i,
            forall|j: int|
                0 <= j < i ==> lines@[j]@ == render_spec(#[trigger] ids@[j].value, config.use_uuid),
        decreases ids@.len() - i,
    {
        let line = render(ids[i], config.use_uuid);
        lines.push(line);
        i = i + 1;
    }
    proof {
        let vals = ids@.map_values(|id: Identifier| id.value);
        assert(vals.len() == config.count);
        assert(forall|j: int| 0 <= j < vals.len() ==> #[trigger] vals[j] == ids@[j].value);
    }
    lines
}

} // verus!
