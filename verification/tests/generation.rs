use std::str::FromStr;

use ulidgen::cli::run;
use ulidgen::cli::Config;
use ulidgen::date::DateSeed;
use ulidgen::ident::generate;
use ulidgen::ident::generate_sequence;
use ulidgen::ident::next_identifier;
use ulidgen::ident::Identifier;
use ulidgen::ident::RANDOM_PART_MAX;
use ulidgen::ident::RANDOM_SPAN;

#[test]
fn monotonic_step_increments_at_equal_timestamp() {
    let ts: u64 = 1_000_000;
    let prev = Identifier { value: (ts as u128) * RANDOM_SPAN + 5 };
    let next = next_identifier(true, None, Some(prev), ts);
    assert_eq!(next.value, prev.value + 1);
}

#[test]
fn monotonic_step_wraps_a_full_random_part() {
    let ts: u64 = 1_000_000;
    let prev = Identifier { value: (ts as u128) * RANDOM_SPAN + RANDOM_PART_MAX };
    let next = next_identifier(true, None, Some(prev), ts);
    assert_eq!(next.value, (ts as u128) * RANDOM_SPAN);
}

#[test]
fn monotonic_step_takes_a_newer_timestamp() {
    let ts: u64 = 1_000_000;
    let prev = Identifier { value: (ts as u128) * RANDOM_SPAN + 5 };
    let next = next_identifier(true, None, Some(prev), ts + 3);
    assert_eq!(next.value >> 80, (ts + 3) as u128);
}

#[test]
fn monotonic_step_with_a_date_increments_at_its_timestamp() {
    let d = DateSeed { year: 2020, month: 1, day: 1 };
    let now_ms: u64 = 1_767_225_600_123;
    let target = 18_262 * 86_400_000 + now_ms % 86_400_000;
    let prev = Identifier { value: (target as u128) * RANDOM_SPAN + 7 };
    let next = next_identifier(true, Some(d), Some(prev), now_ms);
    assert_eq!(next.value, prev.value + 1);
}

#[test]
fn fresh_identifier_carries_the_seed_day() {
    let d = DateSeed { year: 2020, month: 1, day: 1 };
    let id = generate(false, Some(d), None);
    let ts = (id.value >> 80) as u64;
    assert_eq!(ts / 86_400_000, 18_262);
}

#[test]
fn fresh_identifier_carries_a_current_timestamp() {
    let id = generate(false, None, None);
    let ts = (id.value >> 80) as u64;
    assert!(ts > 1_577_836_800_000);
    assert!(ts < 4_102_444_800_000);
}

#[test]
fn monotonic_run_is_strictly_increasing() {
    let ids = generate_sequence(64, true, None);
    assert_eq!(ids.len(), 64);
    for pair in ids.windows(2) {
        assert!(pair[0].value < pair[1].value);
    }
}

#[test]
fn run_produces_exactly_count_lines() {
    let none = Config { count: 0, use_uuid: false, date: None, monotonic: false };
    assert_eq!(run(&none).len(), 0);
    let five = Config { count: 5, use_uuid: false, date: None, monotonic: false };
    assert_eq!(run(&five).len(), 5);
    let five_uuid = Config { count: 5, use_uuid: true, date: None, monotonic: true };
    assert_eq!(run(&five_uuid).len(), 5);
}

#[test]
fn monotonic_lines_sort_lexicographically() {
    let config = Config { count: 8, use_uuid: false, date: None, monotonic: true };
    let lines = run(&config);
    for pair in lines.windows(2) {
        assert!(pair[0] < pair[1]);
    }
}

#[test]
fn dated_monotonic_run_stays_on_the_day_and_increases() {
    let config = Config {
        count: 3,
        use_uuid: false,
        date: Some(DateSeed { year: 2020, month: 1, day: 1 }),
        monotonic: true,
    };
    let lines = run(&config);
    assert_eq!(lines.len(), 3);
    let mut values: Vec<u128> = Vec::new();
    for line in &lines {
        assert_eq!(line.len(), 26);
        values.push(u128::from(rusty_ulid::Ulid::from_str(line).unwrap()));
    }
    for pair in values.windows(2) {
        assert!(pair[0] < pair[1]);
    }
    for v in &values {
        let ts = (v >> 80) as u64;
        assert_eq!(ts / 86_400_000, 18_262);
    }
    let prefixes: Vec<&str> = lines.iter().map(|l| &l[0..10]).collect();
    for pair in prefixes.windows(2) {
        assert!(pair[0] <= pair[1]);
    }
}
