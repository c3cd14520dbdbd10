use chat_graph::clock::{
    checked_time, epoch_time, parse_line_time, parse_markup_time, pick_first_reading,
    time_or_epoch,
};
use chat_graph::model::Timestamp;

#[test]
fn a_block_time_is_read_with_its_offset() {
    assert_eq!(
        parse_markup_time(Some("2021-01-01T13:00:00.000-08:00")),
        Timestamp { secs: 1609534800, nanos: 0 }
    );
    assert_eq!(
        parse_markup_time(Some("2021-01-01T00:00:00.250+00:00")),
        Timestamp { secs: 1609459200, nanos: 250_000_000 }
    );
}

#[test]
fn a_block_time_that_cannot_be_read_is_the_epoch() {
    assert_eq!(parse_markup_time(None), Timestamp { secs: 0, nanos: 0 });
    assert_eq!(parse_markup_time(Some("yesterday")), Timestamp::epoch());
    assert_eq!(parse_markup_time(Some("")), Timestamp::epoch());
    assert_eq!(parse_markup_time(Some("2021-01-01T13:00:00.000")), Timestamp::epoch());
    assert_eq!(time_or_epoch(None), Timestamp::epoch());
    assert_eq!(time_or_epoch(Some(Timestamp { secs: 5, nanos: 6 })), Timestamp { secs: 5, nanos: 6 });
}

#[test]
fn a_line_time_is_read_without_a_zone() {
    assert_eq!(
        parse_line_time("Jan 1, 2021, 1:00:00 PM"),
        Some(Timestamp { secs: 1609506000, nanos: 0 })
    );
    assert_eq!(parse_line_time("world"), None);
    assert_eq!(parse_line_time(""), None);
}

#[test]
fn a_line_time_is_read_with_a_zone_name() {
    assert_eq!(
        parse_line_time("Jan 1, 2021, 1:00:00 PM PST"),
        Some(Timestamp { secs: 1609506000, nanos: 0 })
    );
}

#[test]
fn the_first_reading_wins() {
    let zoned = Some(Timestamp { secs: 1, nanos: 0 });
    let plain = Some(Timestamp { secs: 2, nanos: 0 });
    assert_eq!(pick_first_reading(&vec![zoned, plain]), zoned);
    assert_eq!(pick_first_reading(&vec![None, plain]), plain);
    assert_eq!(pick_first_reading(&vec![zoned, None]), zoned);
    assert_eq!(pick_first_reading(&vec![None, None]), None);
    assert_eq!(pick_first_reading(&Vec::new()), None);
}

#[test]
fn the_epoch_and_other_instants_of_the_calendar_are_taken() {
    assert_eq!(epoch_time(), Timestamp { secs: 0, nanos: 0 });
    assert_eq!(checked_time(0, 0), Some(Timestamp { secs: 0, nanos: 0 }));
    assert_eq!(
        checked_time(1609534800, 250_000_000),
        Some(Timestamp { secs: 1609534800, nanos: 250_000_000 })
    );
    assert_eq!(checked_time(-1, 999_999_999), Some(Timestamp { secs: -1, nanos: 999_999_999 }));
    assert_eq!(checked_time(59, 1_500_000_000), Some(Timestamp { secs: 59, nanos: 1_500_000_000 }));
}

#[test]
fn numbers_that_are_no_instant_are_refused() {
    assert_eq!(checked_time(0, 1_500_000_000), None);
    assert_eq!(checked_time(0, 2_000_000_000), None);
    assert_eq!(checked_time(i64::MAX, 0), None);
    assert_eq!(checked_time(i64::MIN, 0), None);
}
