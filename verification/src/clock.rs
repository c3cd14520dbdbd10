//! Reading and writing instants. The calendar arithmetic is chrono's; the
//! rules on which reading counts are this library's.

use crate::model::{epoch, ThreadView, Timestamp};
use vstd::prelude::*;

verus! {

/// The format of the time that a message block of a markup document carries.
pub const MARKUP_TIME_FORMAT: &'static str = "%Y-%m-%dT%H:%M:%S%.3f%:z";

/// The format of a transcript line's time that ends in the name of a time
/// zone.
pub const ZONED_LINE_FORMAT: &'static str = "%b %d, %Y, %I:%M:%S %p %Z";

/// The format of a transcript line's time without a time zone.
pub const PLAIN_LINE_FORMAT: &'static str = "%b %d, %Y, %I:%M:%S %p";

/// The instant that `chrono::DateTime::parse_from_str` reads from `text`
/// under `format`, or `None` where it reports an error.
pub uninterp spec fn offset_instant(text: Seq<char>, format: Seq<char>) -> Option<Timestamp>;

/// The instant that `chrono::NaiveDateTime::parse_from_str` reads from `text`
/// under `format`, taken as a time in UTC, or `None` where it reports an
/// error.
pub uninterp spec fn naive_instant(text: Seq<char>, format: Seq<char>) -> Option<Timestamp>;

/// The text that `chrono::DateTime::to_rfc3339` gives for the instant of
/// `secs` seconds and `nanos` nanoseconds, or `None` where
/// `chrono::DateTime::from_timestamp` takes the two for no instant.
pub uninterp spec fn rfc3339_text(secs: int, nanos: int) -> Option<Seq<char>>;

/// Whether the instant can be written as RFC 3339 text.
pub open spec fn writable_time(t: Timestamp) -> bool {
    rfc3339_text(t.secs as int, t.nanos as int).is_some()
}

/// Whether the time of every message of the thread can be written as
/// RFC 3339 text.
pub open spec fn times_writable(thread: ThreadView) -> bool {
    forall|i: int|
        0 <= i < thread.messages.len() ==> writable_time((#[trigger] thread.messages[i]).timestamp)
}

/// Calls `chrono::DateTime::parse_from_str`, which reads a date and time
/// with an offset from UTC. The contract claims that the outcome is a
/// function of the two texts: the instant read, as seconds and nanoseconds
/// since the epoch, or `None` for chrono's error; and that an instant read
/// is one that `chrono::DateTime::from_timestamp` takes back, as chrono
/// documents of `timestamp` and `timestamp_subsec_nanos`.
#[verifier::external_body]
fn read_offset_time(text: &str, format: &str) -> (r: Option<Timestamp>)
    ensures
        r == offset_instant(text@, format@),
        r matches Some(t) ==> writable_time(t),
{
    match chrono::DateTime::parse_from_str(text, format) {
        Ok(t) => Some(Timestamp { secs: t.timestamp(), nanos: t.timestamp_subsec_nanos() }),
        Err(_) => None,
    }
}

/// Calls `chrono::NaiveDateTime::parse_from_str`, which reads a date and
/// time without an offset. The contract claims that the outcome is a
/// function of the two texts: the instant read, taken as UTC, or `None` for
/// chrono's error; and that an instant read is one that
/// `chrono::DateTime::from_timestamp` takes back.
#[verifier::external_body]
fn read_naive_time(text: &str, format: &str) -> (r: Option<Timestamp>)
    ensures
        r == naive_instant(text@, format@),
        r matches Some(t) ==> writable_time(t),
{
    match chrono::NaiveDateTime::parse_from_str(text, format) {
        Ok(t) => Some(
            Timestamp { secs: t.and_utc().timestamp(), nanos: t.and_utc().timestamp_subsec_nanos() },
        ),
        Err(_) => None,
    }
}

/// Calls `chrono::DateTime::from_timestamp` and, on the instant it gives,
/// `chrono::DateTime::to_rfc3339`. The contract claims only that the outcome
/// is a function of the two numbers: the text, or `None` where chrono takes
/// them for no instant.
#[verifier::external_body]
pub(crate) fn write_rfc3339(t: Timestamp) -> (r: Option<String>)
    ensures
        r.deep_view() == rfc3339_text(t.secs as int, t.nanos as int),
{
    match chrono::DateTime::from_timestamp(t.secs, t.nanos) {
        Some(instant) => Some(instant.to_rfc3339()),
        None => None,
    }
}

/// Calls `chrono::DateTime::from_timestamp`, which gives the instant of
/// that many seconds and nanoseconds since the epoch, or nothing where the
/// calendar has none. The contract claims that it gives one exactly where
/// the two numbers can be written, that the instant is of those numbers,
/// and that there is one for the epoch itself.
#[verifier::external_body]
fn instant_at(secs: i64, nanos: u32) -> (r: Option<Timestamp>)
    ensures
        r.is_some() == rfc3339_text(secs as int, nanos as int).is_some(),
        r matches Some(t) ==> t.secs == secs && t.nanos == nanos,
        secs == 0 && nanos == 0 ==> r.is_some(),
{
    match chrono::DateTime::from_timestamp(secs, nanos) {
        Some(t) => Some(Timestamp { secs: t.timestamp(), nanos: t.timestamp_subsec_nanos() }),
        None => None,
    }
}

/// The instant of a reading, or the epoch where nothing was read.
pub open spec fn reading_or_epoch(reading: Option<Timestamp>) -> Timestamp {
    match reading {
        Some(t) => t,
        None => epoch(),
    }
}

/// The time of a message block whose time element carries `title`: what the
/// title reads as under [`MARKUP_TIME_FORMAT`], and the epoch where there is
/// no title or it cannot be read.
pub open spec fn markup_time(title: Option<Seq<char>>) -> Timestamp {
    match title {
        Some(text) => reading_or_epoch(offset_instant(text, MARKUP_TIME_FORMAT@)),
        None => epoch(),
    }
}

/// The first of `readings` that read something.
pub open spec fn first_reading(readings: Seq<Option<Timestamp>>) -> Option<Timestamp>
    decreases readings.len(),
{
    if readings.len() == 0 {
        None
    } else if readings[0].is_some() {
        readings[0]
    } else {
        first_reading(readings.drop_first())
    }
}

/// The time that stands at the front of a transcript line, `text`: what the
/// first of the line formats that reads it gives. The format with a zone
/// name comes first.
pub open spec fn line_time(text: Seq<char>) -> Option<Timestamp> {
    first_reading(
        seq![naive_instant(text, ZONED_LINE_FORMAT@), naive_instant(text, PLAIN_LINE_FORMAT@)],
    )
}

/// Where both line formats read a text, its time is what the format with
/// the zone name reads.
pub proof fn law_zoned_format_first(text: Seq<char>)
    requires
        naive_instant(text, ZONED_LINE_FORMAT@).is_some(),
        naive_instant(text, PLAIN_LINE_FORMAT@).is_some(),
    ensures
        line_time(text) == naive_instant(text, ZONED_LINE_FORMAT@),
{
}

/// Where the format with the zone name reads nothing, a text's time is what
/// the plain format reads.
pub proof fn lemma_plain_format_second(text: Seq<char>)
    requires
        naive_instant(text, ZONED_LINE_FORMAT@).is_none(),
    ensures
        line_time(text) == naive_instant(text, PLAIN_LINE_FORMAT@),
{
    let readings = seq![
        naive_instant(text, ZONED_LINE_FORMAT@),
        naive_instant(text, PLAIN_LINE_FORMAT@),
    ];
    assert(readings.drop_first() =~= seq![naive_instant(text, PLAIN_LINE_FORMAT@)]);
    assert(readings.drop_first().drop_first() =~= Seq::<Option<Timestamp>>::empty());
    reveal_with_fuel(first_reading, 3);
}

/// The epoch, which can be written.
pub fn epoch_time() -> (t: Timestamp)
    ensures
        t == epoch(),
        writable_time(t),
{
    match instant_at(0, 0) {
        Some(t) => t,
        None => vstd::pervasive::unreached(),
    }
}

/// The instant of the seconds and nanoseconds since the epoch, or `None`
/// where the calendar has no such instant and the two cannot be written.
pub fn checked_time(secs: i64, nanos: u32) -> (r: Option<Timestamp>)
    ensures
        r.is_some() == writable_time(Timestamp { secs, nanos }),
        r matches Some(t) ==> t == (Timestamp { secs, nanos }),
{
    instant_at(secs, nanos)
}

/// The instant of a reading, or the epoch where nothing was read.
pub fn time_or_epoch(reading: Option<Timestamp>) -> (t: Timestamp)
    ensures
        t == reading_or_epoch(reading),
        (reading matches Some(read) ==> writable_time(read)) ==> writable_time(t),
{
    match reading {
        Some(t) => t,
        None => epoch_time(),
    }
}

/// The time of a message block whose time element carries `title`.
pub fn parse_markup_time(title: Option<&str>) -> (t: Timestamp)
    ensures
        t == markup_time(
            match title {
                Some(text) => Some(text@),
                None => None,
            },
        ),
        writable_time(t),
{
    match title {
        Some(text) => time_or_epoch(read_offset_time(text, MARKUP_TIME_FORMAT)),
        None => epoch_time(),
    }
}

/// The first of `readings` that read something.
pub fn pick_first_reading(readings: &Vec<Option<Timestamp>>) -> (r: Option<Timestamp>)
    ensures
        r == first_reading(readings@),
{
    let mut i: usize = 0;
    assert(readings@.skip(0) =~= readings@);
    while i < readings.len()
        invariant
            i <= readings.len(),
            first_reading(readings@) == first_reading(readings@.skip(i as int)),
        decreases readings.len() - i,
    {
        if readings[i].is_some() {
            return readings[i];
        }
        assert(readings@.skip(i as int).drop_first() =~= readings@.skip(i + 1));
        i += 1;
    }
    None
}

/// The time that stands at the front of a transcript line, `text`.
pub fn parse_line_time(text: &str) -> (r: Option<Timestamp>)
    ensures
        r == line_time(text@),
        r matches Some(t) ==> writable_time(t),
{
    let zoned = read_naive_time(text, ZONED_LINE_FORMAT);
    if zoned.is_some() {
        return zoned;
    }
    proof {
        lemma_plain_format_second(text@);
    }
    read_naive_time(text, PLAIN_LINE_FORMAT)
}

} // verus!
