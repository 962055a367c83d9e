//! Identifiers and their generation: fresh, date-seeded, and monotonic.
//!
//! An identifier is a 128-bit value: a 48-bit millisecond Unix timestamp in
//! the high bits, 80 bits of randomness below it. The randomness and the
//! clock are reached through the `rusty_ulid`, `rand` and `time` crates.

use vstd::arithmetic::div_mod::lemma_fundamental_div_mod;
use vstd::prelude::*;

use crate::date::days_from_civil;
use crate::date::seed_timestamp_ms;
use crate::date::DateSeed;

verus! {

/// The weight of one timestamp unit inside the 128-bit value: two to the
/// eightieth power, one past the random part.
pub const RANDOM_SPAN: u128 = 0x1_0000_0000_0000_0000_0000;

/// The largest value the 80-bit random part can hold.
pub const RANDOM_PART_MAX: u128 = 0xFFFF_FFFF_FFFF_FFFF_FFFF;

/// One past the largest millisecond timestamp an identifier can carry:
/// two to the forty-eighth power.
pub const TIMESTAMP_LIMIT: u64 = 0x1_0000_0000_0000;

/// A 128-bit sortable identifier.
#[derive(Clone, Copy, PartialEq, Eq, Structural, Debug)]
pub struct Identifier {
    pub value: u128,
}

/// The timestamp part of an identifier value: its high 48 bits, a number of
/// milliseconds since the Unix epoch.
pub open spec fn ts_part(v: u128) -> int {
    v as int / (RANDOM_SPAN as int)
}

/// The random part of an identifier value: its low 80 bits.
pub open spec fn rand_part(v: u128) -> int {
    v as int % (RANDOM_SPAN as int)
}

/// The values held by an optional identifier.
pub open spec fn value_of(previous: Option<Identifier>) -> Option<u128> {
    match previous {
        Some(p) => Some(p.value),
        None => None,
    }
}

/// The timestamp a generation call aims at, given the clock's reading
/// `now_ms`: the seed date combined with the clock's time of day when a date
/// is given, the clock's reading itself otherwise.
pub open spec fn target_ts(date: Option<DateSeed>, now_ms: int) -> int {
    match date {
        Some(d) => days_from_civil(d) * 86_400_000 + now_ms % 86_400_000,
        None => now_ms,
    }
}

/// The generation policy: how one produced identifier `r` relates to the
/// request that produced it, when the clock read `now_ms`.
///
/// With monotonic mode off, or on the first identifier of a run, `r` is a
/// fresh draw whose timestamp part is the target timestamp. In monotonic mode
/// with a predecessor `p` of that same target timestamp, `r` is `p` plus one
/// — with the random part wrapping to zero, timestamp kept, if it was at its
/// maximum; on a different target timestamp, `r` is again a fresh draw.
pub open spec fn next_id_rel(
    monotonic: bool,
    date: Option<DateSeed>,
    previous: Option<u128>,
    now_ms: int,
    r: u128,
) -> bool {
    let ts = target_ts(date, now_ms);
    match (monotonic, previous) {
        (true, Some(p)) => {
            if ts_part(p) == ts {
                if rand_part(p) == RANDOM_PART_MAX as int {
                    r == p - RANDOM_PART_MAX
                } else {
                    r == p + 1
                }
            } else {
                ts_part(r) == ts
            }
        },
        _ => ts_part(r) == ts,
    }
}

/// Whether `r` can be what the policy produced for this request under some
/// reading of the clock.
pub open spec fn generation_step(
    monotonic: bool,
    date: Option<DateSeed>,
    previous: Option<u128>,
    r: u128,
) -> bool {
    exists|now_ms: int|
        0 <= now_ms < TIMESTAMP_LIMIT as int && #[trigger] next_id_rel(
            monotonic,
            date,
            previous,
            now_ms,
            r,
        )
}

/// Relies on time::OffsetDateTime: `now_utc().unix_timestamp_nanos()` reads
/// the system clock as nanoseconds since the Unix epoch. Nothing is assumed
/// of the value the clock reports.
#[verifier::external_body]
fn clock_unix_nanos() -> i128 {
    time::OffsetDateTime::now_utc().unix_timestamp_nanos()
}

/// Relies on rusty_ulid::Ulid::from_timestamp_with_rng, drawing from
/// `rand::rng()`: the result carries `ts` in its high 48 bits and freshly
/// drawn randomness in its low 80 bits. It panics on a timestamp of more
/// than 48 bits, which the precondition rules out.
#[verifier::external_body]
fn ulid_from_timestamp(ts: u64) -> (r: u128)
    requires
        ts < TIMESTAMP_LIMIT,
    ensures
        ts_part(r) == ts as int,
{
    rusty_ulid::Ulid::from_timestamp_with_rng(ts, &mut rand::rng()).into()
}

/// Relies on rusty_ulid::Ulid::next_monotonic_from_timestamp_with_rng,
/// drawing from `rand::rng()`: when `ts` equals the previous identifier's own
/// timestamp, the previous value incremented by one — with the random part
/// wrapped to zero, timestamp kept, if it was at its maximum — and otherwise
/// a fresh identifier carrying `ts`. It panics on a timestamp of more than
/// 48 bits, which the precondition rules out.
#[verifier::external_body]
fn ulid_next_monotonic_from_timestamp(prev: u128, ts: u64) -> (r: u128)
    requires
        ts < TIMESTAMP_LIMIT,
    ensures
        ts_part(prev) == ts as int && rand_part(prev) == RANDOM_PART_MAX as int ==> r == prev
            - RANDOM_PART_MAX,
        ts_part(prev) == ts as int && rand_part(prev) < RANDOM_PART_MAX as int ==> r == prev
            + 1,
        ts_part(prev) != ts as int ==> ts_part(r) == ts as int,
{
    rusty_ulid::Ulid::next_monotonic_from_timestamp_with_rng(prev.into(), ts, &mut rand::rng())
        .into()
}

/// Reads the system clock as a millisecond Unix timestamp, clamped into the
/// 48 bits an identifier's timestamp part can hold.
fn current_unix_ms() -> (r: u64)
    ensures
        r < TIMESTAMP_LIMIT,
{
    let nanos = clock_unix_nanos();
    if nanos <= 0 {
        0
    } else {
        let ms = nanos / 1_000_000;
        if ms >= TIMESTAMP_LIMIT as i128 {
            TIMESTAMP_LIMIT - 1
        } else {
            ms as u64
        }
    }
}

/// Produces the identifier that the request and the clock reading `now_ms`
/// call for, drawing fresh randomness where the policy asks for it.
pub fn next_identifier(
    monotonic: bool,
    date: Option<DateSeed>,
    previous: Option<Identifier>,
    now_ms: u64,
) -> (r: Identifier)
    requires
        now_ms < TIMESTAMP_LIMIT,
        date matches Some(d) ==> d.wf(),
    ensures
        next_id_rel(monotonic, date, value_of(previous), now_ms as int, r.value),
{
    let ts: u64 = match date {
        Some(d) => seed_timestamp_ms(&d, now_ms % 86_400_000),
        None => now_ms,
    };
    match (monotonic, previous) {
        (true, Some(p)) => Identifier { value: ulid_next_monotonic_from_timestamp(p.value, ts) },
        _ => Identifier { value: ulid_from_timestamp(ts) },
    }
}

/// Produces one identifier as the CLI does: by the generation policy, against
/// the system clock's current reading.
pub fn generate(monotonic: bool, date: Option<DateSeed>, previous: Option<Identifier>) -> (r:
    Identifier)
    requires
        date matches Some(d) ==> d.wf(),
    ensures
        generation_step(monotonic, date, value_of(previous), r.value),
{
    let now_ms = current_unix_ms();
    let r = next_identifier(monotonic, date, previous, now_ms);
    proof {
        assert(next_id_rel(monotonic, date, value_of(previous), now_ms as int, r.value));
    }
    r
}

/// Produces `count` identifiers in one run, threading each into the next
/// call as its predecessor.
pub fn generate_sequence(count: usize, monotonic: bool, date: Option<DateSeed>) -> (ids: Vec<
    Identifier,
>)
    requires
        date matches Some(d) ==> d.wf(),
    ensures
        ids@.len() == count,
        count > 0 ==> generation_step(monotonic, date, None, ids@[0].value),
        forall|i: int|
            0 < i < count ==> generation_step(
                monotonic,
                date,
                Some(ids@[i - 1].value),
                #[trigger] ids@[i].value,
            ),
{
    let mut ids: Vec<Identifier> = Vec::new();
    let mut previous: Option<Identifier> = None;
    let mut i: usize = 0;
    while i < count
        invariant
            date matches Some(d) ==> d.wf(),
            i <= count,
            ids@.len() == i,
            previous == if i == 0 {
                None::<Identifier>
            } else {
                Some(ids@[i - 1])
            },
            i > 0 ==> generation_step(monotonic, date, None, ids@[0].value),
            forall|j: int|
                0 < j < i ==> generation_step(
                    monotonic,
                    date,
                    Some(ids@[j - 1].value),
                    #[trigger] ids@[j].value,
                ),
        decreases count - i,
    {
        let id = generate(monotonic, date, previous);
        ids.push(id);
        previous = Some(id);
        i = i + 1;
    }
    ids
}

/// Law: an identifier freshly drawn for a date seed falls on the seed's own
/// calendar day (UTC), whatever time of day the clock read.
pub proof fn lemma_dated_identifier_day(
    date: DateSeed,
    previous: Option<u128>,
    now_ms: int,
    r: u128,
)
    requires
        date.wf(),
        next_id_rel(false, Some(date), previous, now_ms, r),
    ensures
        crate::date::civil_of_day(ts_part(r) / 86_400_000) == date,
{
    crate::date::lemma_seed_timestamp_date(date, now_ms % 86_400_000);
}

/// Law: one monotonic step strictly increases the identifier, provided the
/// clock has not moved back past the predecessor's timestamp and the
/// predecessor's random part is not yet at its maximum.
pub proof fn lemma_monotonic_step_increases(
    date: Option<DateSeed>,
    prev: u128,
    now_ms: int,
    r: u128,
)
    requires
        next_id_rel(true, date, Some(prev), now_ms, r),
        target_ts(date, now_ms) >= ts_part(prev),
        rand_part(prev) < RANDOM_PART_MAX as int,
    ensures
        r > prev,
{
    let ts = target_ts(date, now_ms);
    lemma_fundamental_div_mod(prev as int, RANDOM_SPAN as int);
    lemma_fundamental_div_mod(r as int, RANDOM_SPAN as int);
    if ts_part(prev) == ts {
        assert(r == prev + 1);
    } else {
        assert(ts_part(r) > ts_part(prev));
    }
}

/// Law: a whole monotonic run is strictly increasing as 128-bit values when
/// every step ran under those same conditions: the clock never moved back
/// past a predecessor's timestamp, and no random part reached its maximum.
pub proof fn lemma_monotonic_run_strictly_increasing(
    ids: Seq<u128>,
    date: Option<DateSeed>,
    nows: Seq<int>,
)
    requires
        nows.len() == ids.len(),
        forall|i: int|
            0 < i < ids.len() ==> next_id_rel(true, date, Some(ids[i - 1]), nows[i], #[trigger] ids[i]),
        forall|i: int| 0 < i < ids.len() ==> target_ts(date, #[trigger] nows[i]) >= ts_part(ids[i - 1]),
        forall|i: int| 0 <= i < ids.len() ==> rand_part(#[trigger] ids[i]) < RANDOM_PART_MAX as int,
    ensures
        forall|i: int, j: int| 0 <= i < j < ids.len() ==> ids[i] < ids[j],
    decreases ids.len(),
{
    if ids.len() > 1 {
        let n = ids.len() as int;
        lemma_monotonic_run_strictly_increasing(ids.take(n - 1), date, nows.take(n - 1));
        lemma_monotonic_step_increases(date, ids[n - 2], nows[n - 1], ids[n - 1]);
        assert forall|i: int, j: int| 0 <= i < j < n implies ids[i] < ids[j] by {
            if j < n - 1 {
                assert(ids.take(n - 1)[i] == ids[i]);
                assert(ids.take(n - 1)[j] == ids[j]);
            } else {
                if i < n - 2 {
                    assert(ids.take(n - 1)[i] == ids[i]);
                    assert(ids.take(n - 1)[n - 2] == ids[n - 2]);
                }
            }
        }
    }
}

} // verus!
