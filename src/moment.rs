use vstd::prelude::*;
use crate::text::{opt_view, push_char};
use time::format_description::well_known::Rfc3339;
use time::{OffsetDateTime, UtcOffset};

verus! {

/// A point in time as an RFC 3339 text gives it: the instant, in nanoseconds
/// since the Unix epoch, and the UTC offset it was written in, in seconds.
#[derive(Debug, Clone, Copy, PartialEq, Eq, Structural)]
pub struct Stamp {
    pub unix_nanos: i128,
    pub offset_seconds: i32,
}

/// What `time` reads from an RFC 3339 text: the instant and the offset, or
/// nothing when the text is not RFC 3339.
pub uninterp spec fn rfc3339_reading(s: Seq<char>) -> Option<(int, int)>;

/// The RFC 3339 text that `time` writes for an instant in an offset, or
/// nothing when it cannot write one.
pub uninterp spec fn rfc3339_text(unix_nanos: int, offset_seconds: int) -> Option<Seq<char>>;

pub open spec fn stamp_reading(r: Option<Stamp>) -> Option<(int, int)> {
    match r {
        Some(st) => Some((st.unix_nanos as int, st.offset_seconds as int)),
        None => None,
    }
}

/// The instant an RFC 3339 text names, when it is one.
pub open spec fn instant_of(s: Seq<char>) -> Option<int> {
    match rfc3339_reading(s) {
        Some(p) => Some(p.0),
        None => None,
    }
}

/// The text written back for what an RFC 3339 text was read as.
pub open spec fn normalized(s: Seq<char>) -> Option<Seq<char>> {
    match rfc3339_reading(s) {
        Some(p) => rfc3339_text(p.0, p.1),
        None => None,
    }
}

/// Relies on `OffsetDateTime::parse` with the `Rfc3339` description, read
/// back through `unix_timestamp_nanos` and `offset().whole_seconds()`.
#[verifier::external_body]
pub(crate) fn parse_rfc3339(s: &str) -> (r: Option<Stamp>)
    ensures
        stamp_reading(r) == rfc3339_reading(s@),
{
    match OffsetDateTime::parse(s, &Rfc3339) {
        Ok(d) => Some(Stamp { unix_nanos: d.unix_timestamp_nanos(), offset_seconds: d.offset().whole_seconds() }),
        Err(_) => None,
    }
}

/// Relies on `OffsetDateTime::format` with the `Rfc3339` description, after
/// `from_unix_timestamp_nanos`, `UtcOffset::from_whole_seconds` and
/// `checked_to_offset` rebuild the value.
#[verifier::external_body]
pub(crate) fn format_rfc3339(st: Stamp) -> (r: Option<String>)
    ensures
        opt_view(r) == rfc3339_text(st.unix_nanos as int, st.offset_seconds as int),
{
    let instant = OffsetDateTime::from_unix_timestamp_nanos(st.unix_nanos).ok()?;
    let offset = UtcOffset::from_whole_seconds(st.offset_seconds).ok()?;
    instant.checked_to_offset(offset)?.format(&Rfc3339).ok()
}

pub open spec fn digit_char(d: nat) -> char {
    if d == 0 { '0' }
    else if d == 1 { '1' }
    else if d == 2 { '2' }
    else if d == 3 { '3' }
    else if d == 4 { '4' }
    else if d == 5 { '5' }
    else if d == 6 { '6' }
    else if d == 7 { '7' }
    else if d == 8 { '8' }
    else { '9' }
}

/// The decimal digits of a natural number.
pub open spec fn digits_of(n: nat) -> Seq<char>
    decreases n,
{
    if n < 10 {
        seq![digit_char(n)]
    } else {
        digits_of(n / 10).push(digit_char(n % 10))
    }
}

/// The decimal text of an integer, with a leading `-` when it is negative.
pub open spec fn decimal_of(n: int) -> Seq<char> {
    if n < 0 {
        seq!['-'] + digits_of((-n) as nat)
    } else {
        digits_of(n as nat)
    }
}

fn digit(d: u128) -> (c: char)
    requires
        d < 10,
    ensures
        c == digit_char(d as nat),
{
    if d == 0 { '0' }
    else if d == 1 { '1' }
    else if d == 2 { '2' }
    else if d == 3 { '3' }
    else if d == 4 { '4' }
    else if d == 5 { '5' }
    else if d == 6 { '6' }
    else if d == 7 { '7' }
    else if d == 8 { '8' }
    else { '9' }
}

/// Appends the decimal digits of `n`.
pub fn push_digits(out: &mut String, n: u128)
    ensures
        final(out)@ == old(out)@ + digits_of(n as nat),
    decreases n,
{
    if n < 10 {
        push_char(out, digit(n));
        assert(old(out)@.push(digit_char(n as nat)) =~= old(out)@ + seq![digit_char(n as nat)]);
    } else {
        push_digits(out, n / 10);
        push_char(out, digit(n % 10));
        assert(old(out)@ + digits_of(n as nat) =~= old(out)@ + digits_of((n / 10) as nat) + seq![digit_char((n % 10) as nat)]);
    }
}

/// Appends the decimal text of `n`.
pub fn push_decimal(out: &mut String, n: i128)
    ensures
        final(out)@ == old(out)@ + decimal_of(n as int),
{
    if n < 0 {
        push_char(out, '-');
        let magnitude: u128 = ((-(n + 1)) as u128) + 1;
        push_digits(out, magnitude);
        assert(out@ =~= old(out)@ + decimal_of(n as int));
    } else {
        push_digits(out, n as u128);
    }
}

} // verus!
