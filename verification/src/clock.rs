//! The local time of day that a message shows: the seconds of its timestamp, moved by the
//! machine's offset from UTC, written `HH:MM:SS`.
use chrono::TimeZone;
use vstd::prelude::*;
use vstd::string::StringExecFns;

verus! {

/// The last millisecond that the calendar can represent (end of its last year).
pub const MAX_TIMESTAMP_MS: u64 = 8_210_266_876_799_999;

/// The last second that the calendar can represent.
pub const MAX_TIMESTAMP_SECS: i64 = 8_210_266_876_799;

pub open spec fn is_digit(c: char) -> bool {
    '0' <= c && c <= '9'
}

/// `t` has the shape `HH:MM:SS`: two digits, a colon, two digits, a colon, two digits.
pub open spec fn is_clock_time(t: Seq<char>) -> bool {
    &&& t.len() == 8
    &&& is_digit(t[0]) && is_digit(t[1])
    &&& t[2] == ':'
    &&& is_digit(t[3]) && is_digit(t[4])
    &&& t[5] == ':'
    &&& is_digit(t[6]) && is_digit(t[7])
}

/// The digit that writes `d` (0 to 9).
pub open spec fn digit_char(d: int) -> char {
    ('0' as int + d) as char
}

/// `n` (0 to 99) in two digits.
pub open spec fn two_digits(n: int) -> Seq<char> {
    seq![digit_char(n / 10), digit_char(n % 10)]
}

/// The second `t` of a day (0 to 86399) written `HH:MM:SS`.
pub open spec fn clock_text(t: int) -> Seq<char> {
    two_digits(t / 3600) + seq![':'] + two_digits((t % 3600) / 60) + seq![':'] + two_digits(t % 60)
}

/// The second of the local day at `secs` seconds since the epoch, `offset` seconds east of
/// UTC.
pub open spec fn time_of_day(secs: int, offset: int) -> int {
    (secs + offset) % 86400
}

/// An offset from UTC that chrono can represent: less than a day either way.
pub open spec fn offset_ok(offset: int) -> bool {
    -86400 < offset < 86400
}

/// The local time of a message's timestamp, given in milliseconds, at some offset from UTC:
/// which offset the machine's time zone gives is not known to the library.
pub open spec fn local_time_of(ts_ms: u64, t: Seq<char>) -> bool {
    exists|offset: int| offset_ok(offset) && t == #[trigger] clock_text(time_of_day((ts_ms / 1000) as int, offset))
}

/// A time of day written by `clock_text` has the shape `HH:MM:SS`.
pub proof fn lemma_clock_text_shape(t: int)
    requires
        0 <= t < 86400,
    ensures
        is_clock_time(clock_text(t)),
{
    assert(0 <= t / 3600 < 24);
    assert(0 <= (t % 3600) / 60 < 60);
}

/// The offset from UTC, in seconds east, of the machine's time zone at `secs` seconds since
/// the epoch: chrono's `TimeZone::offset_from_utc_datetime` on `Local`, read by
/// `FixedOffset::local_minus_utc`. chrono's `FixedOffset` holds only offsets of less than a
/// day either way; which offset comes back depends on the machine's time zone, and nothing
/// more is claimed of it. `NaiveDateTime::from_timestamp` panics beyond chrono's calendar,
/// which the bound on `secs` keeps out.
#[verifier::external_body]
pub(crate) fn local_offset(secs: i64) -> (offset: i32)
    requires
        0 <= secs <= MAX_TIMESTAMP_SECS,
    ensures
        offset_ok(offset as int),
{
    #[allow(deprecated)]
    let utc = chrono::NaiveDateTime::from_timestamp(secs, 0);
    chrono::Local.offset_from_utc_datetime(&utc).local_minus_utc()
}

/// The text of one digit.
fn digit_text(d: u32) -> (s: &'static str)
    requires
        d < 10,
    ensures
        s@ == seq![digit_char(d as int)],
{
    proof {
        reveal_strlit("0");
        reveal_strlit("1");
        reveal_strlit("2");
        reveal_strlit("3");
        reveal_strlit("4");
        reveal_strlit("5");
        reveal_strlit("6");
        reveal_strlit("7");
        reveal_strlit("8");
        reveal_strlit("9");
    }
    let s = match d {
        0 => "0",
        1 => "1",
        2 => "2",
        3 => "3",
        4 => "4",
        5 => "5",
        6 => "6",
        7 => "7",
        8 => "8",
        _ => "9",
    };
    assert(s@ =~= seq![digit_char(d as int)]);
    s
}

/// Appends `n` (0 to 99) in two digits.
fn push_two_digits(out: &mut String, n: u32)
    requires
        n < 100,
    ensures
        final(out)@ == old(out)@ + two_digits(n as int),
{
    out.append(digit_text(n / 10));
    out.append(digit_text(n % 10));
    assert(final(out)@ =~= old(out)@ + two_digits(n as int));
}

/// Writes the second `t` of a day as `HH:MM:SS`.
pub fn format_clock(t: u32) -> (s: String)
    requires
        t < 86400,
    ensures
        s@ == clock_text(t as int),
{
    let mut s = String::new();
    push_two_digits(&mut s, t / 3600);
    proof { reveal_strlit(":"); }
    s.append(":");
    push_two_digits(&mut s, (t % 3600) / 60);
    s.append(":");
    push_two_digits(&mut s, t % 60);
    assert(s@ =~= clock_text(t as int));
    s
}

/// The second of the local day at `secs` seconds since the epoch, `offset` seconds east
/// of UTC.
pub fn local_second_of_day(secs: i64, offset: i32) -> (t: u32)
    requires
        0 <= secs <= MAX_TIMESTAMP_SECS,
        offset_ok(offset as int),
    ensures
        t == time_of_day(secs as int, offset as int),
        t < 86400,
{
    let x: i64 = secs + offset as i64;
    let t: i64 = if x < 0 {
        proof {
            vstd::arithmetic::div_mod::lemma_fundamental_div_mod_converse(x as int, 86400, -1, x + 86400);
        }
        x + 86400
    } else {
        x % 86400
    };
    t as u32
}

/// The local time of day, written `HH:MM:SS`, of a timestamp given in milliseconds, at the
/// offset `offset` seconds east of UTC.
pub fn clock_time_at(ts_ms: u64, offset: i32) -> (t: String)
    requires
        ts_ms <= MAX_TIMESTAMP_MS,
        offset_ok(offset as int),
    ensures
        t@ == clock_text(time_of_day((ts_ms / 1000) as int, offset as int)),
{
    let secs = ts_ms / 1000;
    assert(secs <= 8_210_266_876_799);
    format_clock(local_second_of_day(secs as i64, offset))
}

} // verus!
