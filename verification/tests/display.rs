use chrono::Duration as Oracle;
use prac::{parse_time_span, Duration, FlatTime, TimeUnit};

const SECOND: i128 = 1_000_000_000;
const MINUTE: i128 = 60 * SECOND;
const HOUR: i128 = 60 * MINUTE;
const DAY: i128 = 24 * HOUR;
const YEAR: i128 = 365 * DAY;
const MAX_NANOS: i128 = 9_223_372_036_854_775_807_000_000;

const MAGNITUDES: [i128; 10] = [
    31_536_000_000_000_000,
    2_592_000_000_000_000,
    604_800_000_000_000,
    86_400_000_000_000,
    3_600_000_000_000,
    60_000_000_000,
    1_000_000_000,
    1_000_000,
    1_000,
    1,
];

fn flat(nanos: i128) -> FlatTime {
    FlatTime::from(Duration::from_nanos(nanos).expect("within the range of a duration"))
}

fn values(time: &FlatTime) -> Vec<i64> {
    time.components().into_iter().map(|(value, _)| value).collect()
}

/// The breakdown that chrono's own arithmetic gives, step by step.
fn unrolled_by_oracle(mut value: Oracle) -> Vec<i64> {
    let mut days = value.num_days();
    let y = days / 365;
    days %= 365;
    let mo = days / 30;
    value = value - Oracle::days(y * 365 + mo * 30);
    let w = value.num_weeks();
    value = value - Oracle::weeks(w);
    let d = value.num_days();
    value = value - Oracle::days(d);
    let h = value.num_hours();
    value = value - Oracle::hours(h);
    let m = value.num_minutes();
    value = value - Oracle::minutes(m);
    let s = value.num_seconds();
    value = value - Oracle::seconds(s);
    let ms = value.num_milliseconds();
    value = value - Oracle::milliseconds(ms);
    let us = value.num_microseconds().expect("value too extreme");
    value = value - Oracle::microseconds(us);
    let ns = value.num_nanoseconds().expect("value too extreme");
    vec![y, mo, w, d, h, m, s, ms, us, ns]
}

fn held(d: Oracle) -> Duration {
    let nanos = i128::from(d.num_seconds()) * 1_000_000_000 + i128::from(d.subsec_nanos());
    Duration::from_nanos(nanos).expect("within the range of a duration")
}

#[test]
fn zero_is_displayed_as_no_seconds() {
    assert_eq!(flat(0).format(), "0s");
    assert_eq!(flat(0).format_abbreviated(), "0s");
    assert_eq!(FlatTime::from(Duration::zero()).format(), "0s");
}

#[test]
fn every_unit_has_its_suffix() {
    assert_eq!(
        flat(YEAR + 30 * DAY + 7 * DAY + DAY + HOUR + MINUTE + SECOND + 1_000_000 + 1_000 + 1)
            .format(),
        "1y 1M 1w 1d 1h 1m 1s 1ms 1us 1ns"
    );
    let suffixes: Vec<&str> = flat(0)
        .components()
        .into_iter()
        .map(|(_, unit)| unit.suffix())
        .collect();
    assert_eq!(suffixes, ["y", "M", "w", "d", "h", "m", "s", "ms", "us", "ns"]);
}

#[test]
fn components_that_are_zero_are_left_out() {
    assert_eq!(flat(2 * HOUR + 5 * SECOND).format(), "2h 5s");
    assert_eq!(flat(2 * HOUR + 5 * SECOND).format_abbreviated(), "2h");
    assert_eq!(flat(7).format(), "7ns");
    assert_eq!(flat(7).format_abbreviated(), "7ns");
}

#[test]
fn the_breakdown_is_greedy_from_the_year_down() {
    assert_eq!(values(&flat(364 * DAY)), [0, 12, 0, 4, 0, 0, 0, 0, 0, 0]);
    assert_eq!(values(&flat(29 * DAY)), [0, 0, 4, 1, 0, 0, 0, 0, 0, 0]);
    assert_eq!(values(&flat(366 * DAY)), [1, 0, 0, 1, 0, 0, 0, 0, 0, 0]);
    assert_eq!(values(&flat(1_001_001_001)), [0, 0, 0, 0, 0, 0, 1, 1, 1, 1]);
}

#[test]
fn the_components_come_with_their_units() {
    let pairs = flat(90 * MINUTE).components();
    assert_eq!(pairs.len(), 10);
    assert_eq!(pairs[0], (0, TimeUnit::Year));
    assert_eq!(pairs[4], (1, TimeUnit::Hour));
    assert_eq!(pairs[5], (30, TimeUnit::Minute));
    assert_eq!(pairs[9], (0, TimeUnit::Nanosecond));
    assert_eq!(flat(90 * MINUTE).component(TimeUnit::Minute), 30);
}

#[test]
fn a_negative_duration_has_negative_components() {
    assert_eq!(flat(-(HOUR + 30 * MINUTE)).format(), "-1h -30m");
    assert_eq!(flat(-(HOUR + 30 * MINUTE)).format_abbreviated(), "-1h");
    assert_eq!(values(&flat(-366 * DAY)), [-1, 0, 0, -1, 0, 0, 0, 0, 0, 0]);
    assert_eq!(flat(-1).format(), "-1ns");
}

#[test]
fn the_components_weigh_what_the_duration_does() {
    let samples = [
        0,
        1,
        -1,
        999,
        SECOND,
        YEAR - 1,
        YEAR,
        -YEAR + 1,
        123_456_789_012_345_678_901,
        -123_456_789_012_345_678_901,
        i128::from(i64::MAX),
        i128::from(i64::MIN),
        MAX_NANOS,
        -MAX_NANOS,
    ];
    for nanos in samples {
        let sum: i128 = values(&flat(nanos))
            .iter()
            .zip(MAGNITUDES)
            .map(|(value, magnitude)| i128::from(*value) * magnitude)
            .sum();
        assert_eq!(sum, nanos);
    }
}

#[test]
fn the_longest_duration_is_broken_down() {
    let longest = flat(MAX_NANOS);
    assert_eq!(values(&longest), [292_471_208, 8, 1, 0, 7, 12, 55, 807, 0, 0]);
    assert_eq!(longest.format(), "292471208y 8M 1w 7h 12m 55s 807ms");
    assert_eq!(longest.format_abbreviated(), "292471208y");
    let shortest = flat(-MAX_NANOS);
    assert_eq!(shortest.format(), "-292471208y -8M -1w -7h -12m -55s -807ms");
}

#[test]
fn the_longest_count_of_nanoseconds_in_64_bits_is_broken_down() {
    let time = flat(i128::from(i64::MAX));
    assert_eq!(time.format(), "292y 5M 3w 23h 47m 16s 854ms 775us 807ns");
    let time = flat(i128::from(i64::MIN));
    assert_eq!(time.format(), "-292y -5M -3w -23h -47m -16s -854ms -775us -808ns");
}

#[test]
fn the_breakdown_is_the_one_that_chrono_arrives_at() {
    let samples = [
        Oracle::zero(),
        Oracle::nanoseconds(1),
        Oracle::nanoseconds(-1),
        Oracle::nanoseconds(i64::MAX),
        Oracle::nanoseconds(i64::MIN),
        Oracle::microseconds(987_654_321_987),
        Oracle::milliseconds(i64::MAX),
        Oracle::milliseconds(-i64::MAX),
        Oracle::seconds(-86_399),
        Oracle::days(364),
        Oracle::days(365),
        Oracle::days(-366),
        Oracle::weeks(5) + Oracle::nanoseconds(999_999_999),
        Oracle::days(365) + Oracle::days(30 * 11) + Oracle::weeks(3) + Oracle::days(6),
    ];
    for sample in samples {
        assert_eq!(values(&FlatTime::from(held(sample))), unrolled_by_oracle(sample), "{sample:?}");
    }
}

#[test]
fn what_is_displayed_reads_back() {
    let samples = [
        0,
        1,
        -1,
        SECOND,
        90 * MINUTE,
        -90 * MINUTE,
        YEAR + 11 * 30 * DAY + 3 * 7 * DAY + 6 * DAY + 23 * HOUR + 59 * MINUTE + 59 * SECOND,
        123_456_789_012_345_678_901,
        -123_456_789_012_345_678_901,
        i128::from(i64::MAX),
        i128::from(i64::MIN),
        MAX_NANOS,
        -MAX_NANOS,
    ];
    for nanos in samples {
        let d = Duration::from_nanos(nanos).unwrap();
        let text = FlatTime::from(d).format();
        assert_eq!(parse_time_span(&text), Ok(d), "{text}");
    }
}

#[test]
fn what_was_read_is_displayed_and_reads_back() {
    for text in ["5min 30s", "1y 6M 3w 5d 4h 20m 30s", "36h", "-90m", "400d", "1s -1s"] {
        let d = parse_time_span(text).unwrap();
        assert_eq!(parse_time_span(&FlatTime::from(d).format()), Ok(d), "{text}");
    }
    assert_eq!(FlatTime::from(parse_time_span("36h").unwrap()).format(), "1d 12h");
    assert_eq!(FlatTime::from(parse_time_span("400d").unwrap()).format(), "1y 1M 5d");
}

#[test]
fn the_duration_is_had_back_from_its_breakdown() {
    for nanos in [0, 1, -1, 90 * MINUTE, -YEAR + 1, i128::from(i64::MIN), MAX_NANOS, -MAX_NANOS] {
        let d = Duration::from_nanos(nanos).unwrap();
        assert_eq!(FlatTime::from(d).duration(), d);
    }
}
