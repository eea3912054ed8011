use chrono::Duration as Oracle;
use prac::{parse_time_span, Duration, FlatTime, SystemDStyleTimeParser};

/// The library's duration of the same length as one of chrono's.
fn held(d: Oracle) -> Duration {
    let nanos = i128::from(d.num_seconds()) * 1_000_000_000 + i128::from(d.subsec_nanos());
    Duration::from_nanos(nanos).expect("within the range of a duration")
}

// Testing valid time span expressions
#[test]
fn test_parse_valid_strings() {
    let valid_time_spans = [
        "5min 30s",
        "2h 30min",
        "10d 5h 30m",
        "1y 6M 3w 5d 4h 20m 30s",
    ];

    let answers = [
        Oracle::minutes(5) + Oracle::seconds(30),
        Oracle::hours(2) + Oracle::minutes(30),
        Oracle::days(10) + Oracle::hours(5) + Oracle::minutes(30),
        Oracle::days(365)
            + Oracle::days(30 * 6)
            + Oracle::weeks(3)
            + Oracle::days(5)
            + Oracle::hours(4)
            + Oracle::minutes(20)
            + Oracle::seconds(30),
    ];

    for (time_span, answer) in valid_time_spans.iter().zip(answers) {
        let result = SystemDStyleTimeParser::parse(time_span);
        assert!(result.is_ok());
        println!("{:?}", parse_time_span(time_span).unwrap());
        assert_eq!(parse_time_span(time_span).unwrap(), held(answer));
    }
}

#[test]
fn test_parse_invalid_strings() {
    let invalid_time_spans = vec!["2hx  30min", "10dd 5h 30m", "watermelon"];

    for time_span in invalid_time_spans {
        assert!(parse_time_span(time_span).is_err());
    }
}

#[test]
fn test_parse_empty() {
    assert!(parse_time_span("").is_err());
}

#[test]
fn test_edge_cases() {
    assert!(parse_time_span("1s").is_ok_and(|d| d == held(Oracle::seconds(1))));
    // this isn't actually an edge case for our implementation, but it's a good test
    let hard = parse_time_span("1y 11M 4w 6d 23h 59m 59s");
    let hard_answer = Oracle::days(365)
        + Oracle::days(30 * 11)
        + Oracle::weeks(4)
        + Oracle::days(6)
        + Oracle::hours(23)
        + Oracle::minutes(59)
        + Oracle::seconds(59);

    assert!(hard.is_ok_and(|d| d == held(hard_answer)));
}

#[test]
fn test_display() {
    let time = FlatTime::from(held(
        Oracle::days(365)
            + Oracle::days(30 * 11)
            + Oracle::weeks(3)
            + Oracle::days(6)
            + Oracle::hours(23)
            + Oracle::minutes(59)
            + Oracle::seconds(59),
    ));

    assert_eq!(time.format(), "1y 11M 3w 6d 23h 59m 59s");
    assert_eq!(time.format_abbreviated(), "1y");
}

#[test]
fn max_time() {
    let time = FlatTime::from(held(Oracle::milliseconds(i64::MAX)));
    assert_eq!(
        time.format(),
        "292471208y 8M 1w 7h 12m 55s 807ms",
        "Unchecked past num of years... simply a regression test"
    );
}
