use cmem_eval_bench::timestamp::{
    earlier, later_of, parse_source_timestamp, parse_timestamp, seconds_after, Timestamp,
};

fn rfc3339(t: Timestamp) -> String {
    chrono::DateTime::from_timestamp(t.seconds, t.nanos).unwrap().to_rfc3339()
}

#[test]
fn parses_rfc3339_timestamp_and_ignores_empty() {
    assert!(parse_timestamp(None).unwrap().is_none());
    assert!(parse_timestamp(Some("")).unwrap().is_none());
    assert_eq!(
        rfc3339(parse_timestamp(Some("2023-05-30T23:40:00Z")).unwrap().unwrap()),
        "2023-05-30T23:40:00+00:00"
    );
}

#[test]
fn rejects_unormalized_timestamp_with_actionable_context() {
    let err = parse_timestamp(Some("2023/05/30 (Tue) 23:40")).unwrap_err().message();
    assert!(err.contains("dataset loaders should normalize"));
}

#[test]
fn rfc3339_offsets_are_read_as_instants() {
    assert_eq!(
        parse_timestamp(Some("2023-05-31T08:40:00+09:00")).unwrap().unwrap(),
        Timestamp { seconds: 1_685_490_000, nanos: 0 }
    );
    assert_eq!(
        parse_timestamp(Some("2024-01-04T09:00:00.456789123Z")).unwrap().unwrap(),
        Timestamp { seconds: 1_704_358_800, nanos: 456_789_123 }
    );
}

#[test]
fn benchmark_timestamps_are_read_in_each_supported_form() {
    assert_eq!(
        parse_source_timestamp("2023-05-30T23:40:00Z").unwrap(),
        Timestamp { seconds: 1_685_490_000, nanos: 0 }
    );
    assert_eq!(
        parse_source_timestamp("2023/05/30 (Tue) 23:40").unwrap(),
        Timestamp { seconds: 1_685_490_000, nanos: 0 }
    );
    assert_eq!(
        parse_source_timestamp("11:40 pm on 30 May, 2023").unwrap(),
        Timestamp { seconds: 1_685_490_000, nanos: 0 }
    );
    assert_eq!(parse_source_timestamp("2023/05/30 23:40").unwrap_err().value, "2023/05/30 23:40");
    assert!(parse_source_timestamp("yesterday").is_err());
}

#[test]
fn instants_compare_and_advance() {
    let a = Timestamp { seconds: 10, nanos: 5 };
    let b = Timestamp { seconds: 10, nanos: 6 };
    assert!(earlier(a, b));
    assert!(!earlier(b, a));
    assert_eq!(later_of(a, b), b);
    assert_eq!(later_of(b, a), b);
    assert_eq!(seconds_after(a, 3), Some(Timestamp { seconds: 13, nanos: 5 }));
    assert_eq!(seconds_after(Timestamp { seconds: i64::MAX, nanos: 0 }, 1), None);
}

#[test]
fn whole_seconds_after_a_leap_second_leave_it_as_chrono_does() {
    let leap = parse_timestamp(Some("2016-12-31T23:59:60.5Z")).unwrap().unwrap();
    assert_eq!(leap.nanos, 1_500_000_000);
    assert_eq!(seconds_after(leap, 0), Some(leap));
    assert_eq!(
        seconds_after(leap, 1),
        Some(Timestamp { seconds: leap.seconds + 1, nanos: 500_000_000 })
    );
    let chrono_leap = chrono::DateTime::parse_from_rfc3339("2016-12-31T23:59:60.5Z").unwrap();
    for secs in [0i64, 1, 2, 86_400] {
        let expected = chrono_leap + chrono::TimeDelta::seconds(secs);
        assert_eq!(
            seconds_after(leap, secs),
            Some(Timestamp {
                seconds: expected.timestamp(),
                nanos: expected.timestamp_subsec_nanos(),
            })
        );
    }
}
