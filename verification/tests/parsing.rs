use prac::{
    parse_time_span, Duration, Expected, ParseError, Rejection, SpanElement,
    SystemDStyleTimeParser, TimeUnit,
};

const SECOND: i128 = 1_000_000_000;
const MINUTE: i128 = 60 * SECOND;
const HOUR: i128 = 60 * MINUTE;
const DAY: i128 = 24 * HOUR;
const WEEK: i128 = 7 * DAY;
const MONTH: i128 = 30 * DAY;
const YEAR: i128 = 365 * DAY;

fn nanos_of(text: &str) -> i128 {
    parse_time_span(text).expect("a span expression").total_nanos()
}

#[test]
fn one_second_is_a_thousand_million_nanoseconds() {
    assert_eq!(nanos_of("1s"), 1_000_000_000);
}

#[test]
fn every_unit_has_its_fixed_magnitude() {
    assert_eq!(nanos_of("1ns"), 1);
    assert_eq!(nanos_of("1us"), 1_000);
    assert_eq!(nanos_of("1ms"), 1_000_000);
    assert_eq!(nanos_of("1s"), SECOND);
    assert_eq!(nanos_of("1m"), 60_000_000_000);
    assert_eq!(nanos_of("1h"), 3_600_000_000_000);
    assert_eq!(nanos_of("1d"), 86_400_000_000_000);
    assert_eq!(nanos_of("1w"), 604_800_000_000_000);
    assert_eq!(nanos_of("1M"), 2_592_000_000_000_000);
    assert_eq!(nanos_of("1y"), 31_536_000_000_000_000);
}

#[test]
fn a_year_is_365_days_and_a_month_is_30_days() {
    assert_eq!(nanos_of("1y"), nanos_of("365d"));
    assert_eq!(nanos_of("1M"), nanos_of("30d"));
    assert_eq!(nanos_of("1w"), nanos_of("7d"));
}

#[test]
fn the_hard_expression_is_the_exact_sum() {
    assert_eq!(
        nanos_of("1y 11M 4w 6d 23h 59m 59s"),
        YEAR + 11 * MONTH + 4 * WEEK + 6 * DAY + 23 * HOUR + 59 * MINUTE + 59 * SECOND
    );
}

#[test]
fn every_spelling_of_a_unit_is_read() {
    let spellings: [(&[&str], i128); 10] = [
        (&["y", "Y", "year", "years"], YEAR),
        (&["M", "month", "months"], MONTH),
        (&["w", "week", "weeks"], WEEK),
        (&["d", "day", "days"], DAY),
        (&["h", "hr", "hour", "hours"], HOUR),
        (&["m", "min", "minute", "minutes"], MINUTE),
        (&["s", "sec", "second", "seconds"], SECOND),
        (&["ms", "msec", "millisecond", "milliseconds"], 1_000_000),
        (&["us", "usec", "microsecond", "microseconds"], 1_000),
        (&["ns", "nsec", "nanosecond", "nanoseconds"], 1),
    ];
    for (words, magnitude) in spellings {
        for word in words {
            assert_eq!(nanos_of(&format!("3{word}")), 3 * magnitude, "{word}");
            assert_eq!(nanos_of(&format!("3 {word}")), 3 * magnitude, "{word}");
        }
    }
}

#[test]
fn spellings_are_case_sensitive() {
    assert_eq!(nanos_of("4M"), 4 * MONTH);
    assert_eq!(nanos_of("4m"), 4 * MINUTE);
    assert!(parse_time_span("4S").is_err());
    assert!(parse_time_span("4Min").is_err());
    assert!(parse_time_span("4D").is_err());
}

#[test]
fn the_longest_spelling_that_fits_is_taken() {
    assert_eq!(nanos_of("2ms"), 2_000_000);
    assert_eq!(nanos_of("2min"), 2 * MINUTE);
    assert_eq!(nanos_of("2months"), 2 * MONTH);
    assert_eq!(nanos_of("2msec"), 2_000_000);
    // `m` is read, and `o` is left over
    assert_eq!(
        parse_time_span("2mo"),
        Err(ParseError::Partial {
            matched: "2m".to_string(),
            unmatched: "o".to_string(),
            cause: Rejection { position: 0, expected: Expected::Quantity },
        })
    );
}

#[test]
fn the_order_of_elements_does_not_matter() {
    assert_eq!(parse_time_span("5min 30s"), parse_time_span("30s 5min"));
    assert_eq!(nanos_of("5min 30s"), 5 * MINUTE + 30 * SECOND);
    assert_eq!(
        parse_time_span("1y 6M 3w 5d 4h 20m 30s"),
        parse_time_span("30s 20m 4h 5d 3w 6M 1y")
    );
}

#[test]
fn a_unit_may_occur_twice() {
    assert_eq!(nanos_of("1h 2h"), 3 * HOUR);
}

#[test]
fn a_negative_quantity_takes_away() {
    assert_eq!(nanos_of("-5s"), -5 * SECOND);
    assert_eq!(nanos_of("1h -30m"), 30 * MINUTE);
    assert_eq!(nanos_of("+1h +30m"), 90 * MINUTE);
    assert_eq!(nanos_of("1s -1s"), 0);
}

#[test]
fn white_space_between_tokens_is_insignificant() {
    assert_eq!(nanos_of("3days15hours"), 3 * DAY + 15 * HOUR);
    assert_eq!(nanos_of("1w4d"), WEEK + 4 * DAY);
    assert_eq!(nanos_of("1         day"), DAY);
    assert_eq!(nanos_of("1day 30 min"), DAY + 30 * MINUTE);
    assert_eq!(nanos_of("1Y 2M 3w 4d 5h 6m 7s"), YEAR + 2 * MONTH + 3 * WEEK + 4 * DAY + 5 * HOUR + 6 * MINUTE + 7 * SECOND);
    assert_eq!(nanos_of("  1s"), SECOND);
    assert_eq!(nanos_of("1s\t2s\n3s\r4s"), 10 * SECOND);
}

#[test]
fn white_space_behind_the_last_element_is_left_over() {
    assert_eq!(
        parse_time_span("1s "),
        Err(ParseError::Partial {
            matched: "1s".to_string(),
            unmatched: " ".to_string(),
            cause: Rejection { position: 1, expected: Expected::Quantity },
        })
    );
}

#[test]
fn a_sign_must_touch_its_digits() {
    assert_eq!(
        parse_time_span("- 5s"),
        Err(ParseError::Rejected(Rejection { position: 0, expected: Expected::Quantity }))
    );
}

#[test]
fn an_empty_text_is_rejected() {
    assert_eq!(
        parse_time_span(""),
        Err(ParseError::Rejected(Rejection { position: 0, expected: Expected::Quantity }))
    );
    assert_eq!(
        parse_time_span("   "),
        Err(ParseError::Rejected(Rejection { position: 3, expected: Expected::Quantity }))
    );
}

#[test]
fn a_word_is_rejected() {
    assert_eq!(
        parse_time_span("watermelon"),
        Err(ParseError::Rejected(Rejection { position: 0, expected: Expected::Quantity }))
    );
}

#[test]
fn an_unknown_unit_is_rejected_where_it_starts() {
    assert_eq!(
        parse_time_span("5 parsecs"),
        Err(ParseError::Rejected(Rejection { position: 2, expected: Expected::Unit }))
    );
    assert_eq!(
        parse_time_span("5"),
        Err(ParseError::Rejected(Rejection { position: 1, expected: Expected::Unit }))
    );
}

#[test]
fn a_partial_match_names_what_was_read_and_what_was_not() {
    assert_eq!(
        parse_time_span("2hx 30min"),
        Err(ParseError::Partial {
            matched: "2h".to_string(),
            unmatched: "x 30min".to_string(),
            cause: Rejection { position: 0, expected: Expected::Quantity },
        })
    );
    assert_eq!(
        parse_time_span("2hx  30min"),
        Err(ParseError::Partial {
            matched: "2h".to_string(),
            unmatched: "x  30min".to_string(),
            cause: Rejection { position: 0, expected: Expected::Quantity },
        })
    );
    assert_eq!(
        parse_time_span("10dd 5h 30m"),
        Err(ParseError::Partial {
            matched: "10d".to_string(),
            unmatched: "d 5h 30m".to_string(),
            cause: Rejection { position: 0, expected: Expected::Quantity },
        })
    );
}

#[test]
fn the_cause_of_a_partial_match_is_counted_within_the_rest() {
    assert_eq!(
        parse_time_span("1h 30 lightyears"),
        Err(ParseError::Partial {
            matched: "1h".to_string(),
            unmatched: " 30 lightyears".to_string(),
            cause: Rejection { position: 4, expected: Expected::Unit },
        })
    );
}

#[test]
fn positions_count_characters() {
    assert_eq!(
        parse_time_span("1s\u{e9}"),
        Err(ParseError::Partial {
            matched: "1s".to_string(),
            unmatched: "\u{e9}".to_string(),
            cause: Rejection { position: 0, expected: Expected::Quantity },
        })
    );
    assert_eq!(
        parse_time_span("\u{e9}\u{e9}1s"),
        Err(ParseError::Rejected(Rejection { position: 0, expected: Expected::Quantity }))
    );
    assert_eq!(
        parse_time_span("1s 2\u{b5}s"),
        Err(ParseError::Partial {
            matched: "1s".to_string(),
            unmatched: " 2\u{b5}s".to_string(),
            cause: Rejection { position: 2, expected: Expected::Unit },
        })
    );
}

#[test]
fn a_quantity_must_fit_in_64_bits() {
    assert_eq!(nanos_of("9223372036854775807ns"), i128::from(i64::MAX));
    assert_eq!(nanos_of("-9223372036854775808ns"), i128::from(i64::MIN));
    assert_eq!(nanos_of("+9223372036854775807ns"), i128::from(i64::MAX));
    assert_eq!(nanos_of("0000000000000000000000000000000000007ns"), 7);
    assert_eq!(
        parse_time_span("9223372036854775808ns"),
        Err(ParseError::Rejected(Rejection { position: 0, expected: Expected::Quantity }))
    );
    assert_eq!(
        parse_time_span("-9223372036854775809ns"),
        Err(ParseError::Rejected(Rejection { position: 0, expected: Expected::Quantity }))
    );
    assert_eq!(
        parse_time_span("1s 99999999999999999999999999999999999999999999ns"),
        Err(ParseError::Partial {
            matched: "1s".to_string(),
            unmatched: " 99999999999999999999999999999999999999999999ns".to_string(),
            cause: Rejection { position: 1, expected: Expected::Quantity },
        })
    );
}

#[test]
fn an_element_too_long_for_a_duration_is_an_overflow() {
    assert_eq!(nanos_of("292471208y"), 292_471_208 * YEAR);
    assert_eq!(parse_time_span("292471209y"), Err(ParseError::Overflow));
    assert_eq!(parse_time_span("9223372036854775807y"), Err(ParseError::Overflow));
    assert_eq!(parse_time_span("-9223372036854775808y"), Err(ParseError::Overflow));
}

#[test]
fn a_running_total_too_long_for_a_duration_is_an_overflow() {
    assert_eq!(nanos_of("9223372036854775807ms"), i128::from(i64::MAX) * 1_000_000);
    assert_eq!(parse_time_span("9223372036854775807ms 1ns"), Err(ParseError::Overflow));
    assert_eq!(nanos_of("-9223372036854775807ms"), -i128::from(i64::MAX) * 1_000_000);
    assert_eq!(parse_time_span("-9223372036854775807ms -1ns"), Err(ParseError::Overflow));
    // the total is taken from first to last
    assert_eq!(parse_time_span("292471208y 292471208y -292471208y"), Err(ParseError::Overflow));
    assert_eq!(nanos_of("292471208y -292471208y 292471208y"), 292_471_208 * YEAR);
}

#[test]
fn the_grammar_alone_reads_the_elements_at_the_start() {
    let found = SystemDStyleTimeParser::parse("1y 6M  -3w").unwrap();
    assert_eq!(
        found.elements,
        vec![
            SpanElement { quantity: 1, unit: TimeUnit::Year },
            SpanElement { quantity: 6, unit: TimeUnit::Month },
            SpanElement { quantity: -3, unit: TimeUnit::Week },
        ]
    );
    assert_eq!(found.end, 10);

    let found = SystemDStyleTimeParser::parse("2hx 30min").unwrap();
    assert_eq!(found.elements, vec![SpanElement { quantity: 2, unit: TimeUnit::Hour }]);
    assert_eq!(found.end, 2);

    assert_eq!(
        SystemDStyleTimeParser::parse("x 30min"),
        Err(Rejection { position: 0, expected: Expected::Quantity })
    );
}

#[test]
fn a_duration_that_was_read_is_well_within_reach() {
    let d: Duration = parse_time_span("90m").unwrap();
    assert_eq!(d, Duration::of(90, TimeUnit::Minute).unwrap());
    assert_eq!(d, Duration::from_nanos(90 * MINUTE).unwrap());
}
