//! The time of day of a timestamp.

use crate::text::{chars_of, slice_of, string_of};
use vstd::prelude::*;

verus! {

/// Position of the first `c` at or after `from`, or the length of `s` if
/// there is none.
pub open spec fn first_index(s: Seq<char>, c: char, from: int) -> int
    decreases s.len() - from,
{
    if 0 <= from < s.len() && s[from] != c {
        first_index(s, c, from + 1)
    } else {
        from
    }
}

/// The text between the first `c` and the next one, or the end; nothing
/// where there is no `c`.
pub open spec fn piece_after(s: Seq<char>, c: char) -> Option<Seq<char>> {
    let at = first_index(s, c, 0);
    if at < s.len() {
        Some(s.subrange(at + 1, first_index(s, c, at + 1)))
    } else {
        None
    }
}

/// The text up to the first full stop.
pub open spec fn before_dot(s: Seq<char>) -> Seq<char> {
    s.subrange(0, first_index(s, '.', 0))
}

/// The time of day cut out of a timestamp that could not be parsed: what
/// stands behind the first `T`, or else behind the first space, up to a full
/// stop; the whole timestamp where it has neither.
pub open spec fn fallback_time(timestamp: Seq<char>) -> Seq<char> {
    match piece_after(timestamp, 'T') {
        Some(p) => before_dot(p),
        None => match piece_after(timestamp, ' ') {
            Some(p) => before_dot(p),
            None => timestamp,
        },
    }
}

/// The time of day to show: the parsed one, or what is cut out of the
/// timestamp where it was not parsed.
pub open spec fn shown_time(timestamp: Seq<char>, local: Option<Seq<char>>) -> Seq<char> {
    match local {
        Some(t) => t,
        None => fallback_time(timestamp),
    }
}

/// Position of the first `c` at or after `from`.
fn find_char(s: &Vec<char>, c: char, from: usize) -> (at: usize)
    requires
        from <= s@.len(),
    ensures
        at == first_index(s@, c, from as int),
        from <= at <= s@.len(),
{
    let mut at = from;
    while at < s.len() && s[at] != c
        invariant
            from <= at <= s.len(),
            first_index(s@, c, from as int) == first_index(s@, c, at as int),
        decreases s.len() - at,
    {
        at += 1;
    }
    at
}

/// The text between the first `c` and the next one.
fn cut_after(s: &Vec<char>, c: char) -> (r: Option<Vec<char>>)
    ensures
        match r {
            Some(p) => piece_after(s@, c) == Some(p@),
            None => piece_after(s@, c) is None,
        },
{
    let at = find_char(s, c, 0);
    if at < s.len() {
        let end = find_char(s, c, at + 1);
        Some(slice_of(s, at + 1, end))
    } else {
        None
    }
}

/// The text up to the first full stop.
fn cut_before_dot(s: &Vec<char>) -> (r: Vec<char>)
    ensures
        r@ == before_dot(s@),
{
    let end = find_char(s, '.', 0);
    slice_of(s, 0, end)
}

/// Cuts the time of day out of a timestamp without parsing it.
pub fn fallback_time_of(timestamp: &str) -> (r: String)
    ensures
        r@ == fallback_time(timestamp@),
{
    let chars = chars_of(timestamp);
    match cut_after(&chars, 'T') {
        Some(p) => string_of(&cut_before_dot(&p)),
        None => match cut_after(&chars, ' ') {
            Some(p) => string_of(&cut_before_dot(&p)),
            None => timestamp.to_owned(),
        },
    }
}

/// The time of day to show for a timestamp, given the local time that
/// parsing gave, if it gave one.
pub fn time_label(timestamp: &str, local: Option<String>) -> (r: String)
    ensures
        r@ == shown_time(timestamp@, crate::record::text_of(local)),
{
    match local {
        Some(t) => t,
        None => fallback_time_of(timestamp),
    }
}

/// Whether `c` is a decimal digit.
pub open spec fn is_digit(c: char) -> bool {
    '0' <= c <= '9'
}

/// Whether a text is a time of day as a clock shows it: two digits each for
/// hour, minute and second, with a colon between them.
pub open spec fn is_clock_time(t: Seq<char>) -> bool {
    &&& t.len() == 8
    &&& is_digit(t[0]) && is_digit(t[1])
    &&& t[2] == ':'
    &&& is_digit(t[3]) && is_digit(t[4])
    &&& t[5] == ':'
    &&& is_digit(t[6]) && is_digit(t[7])
}

/// Whether `chrono::DateTime::parse_from_rfc3339` takes `timestamp` for a
/// point in time.
pub uninterp spec fn parses_as_rfc3339(timestamp: Seq<char>) -> bool;

/// Whether `chrono::DateTime<Utc>` can be parsed from `timestamp`, as its
/// `FromStr` does it.
pub uninterp spec fn parses_as_utc(timestamp: Seq<char>) -> bool;

/// Whether a timestamp can be parsed, one way or the other.
pub open spec fn is_parsed(timestamp: Seq<char>) -> bool {
    parses_as_rfc3339(timestamp) || parses_as_utc(timestamp)
}

/// Parses an RFC 3339 timestamp with `chrono::DateTime::parse_from_rfc3339`
/// and gives its time of day in the local time zone, written by the pattern
/// `%H:%M:%S`. Whether the timestamp is parsed depends on its text alone,
/// and that is given a name. Which time comes out depends on the time zone of
/// the machine: of it only the shape is claimed, two digits padded with zero
/// for each part, as the pattern has it. Trusted, not proved.
#[verifier::external_body]
pub(crate) fn local_time_rfc3339(timestamp: &str) -> (r: Option<String>)
    ensures
        r is Some <==> parses_as_rfc3339(timestamp@),
        r matches Some(t) ==> is_clock_time(t@),
{
    match chrono::DateTime::parse_from_rfc3339(timestamp) {
        Ok(dt) => Some(dt.with_timezone(&chrono::Local).format("%H:%M:%S").to_string()),
        Err(_) => None,
    }
}

/// Parses a timestamp as `chrono::DateTime<Utc>` does from a string and
/// gives its time of day in the local time zone, written by the pattern
/// `%H:%M:%S`. Whether the timestamp is parsed depends on its text alone,
/// and that is given a name. Which time comes out depends on the time zone of
/// the machine: of it only the shape is claimed, two digits padded with zero
/// for each part, as the pattern has it. Trusted, not proved.
#[verifier::external_body]
pub(crate) fn local_time_relaxed(timestamp: &str) -> (r: Option<String>)
    ensures
        r is Some <==> parses_as_utc(timestamp@),
        r matches Some(t) ==> is_clock_time(t@),
{
    match timestamp.parse::<chrono::DateTime<chrono::Utc>>() {
        Ok(dt) => Some(dt.with_timezone(&chrono::Local).format("%H:%M:%S").to_string()),
        Err(_) => None,
    }
}

/// The time of day to show for a timestamp: where it can be parsed, its time
/// of day in the local time zone, as a clock shows it; where it cannot, what
/// `fallback_time` cuts out of it.
pub fn extract_time_from_timestamp(timestamp: &str) -> (r: String)
    ensures
        is_parsed(timestamp@) ==> is_clock_time(r@),
        !is_parsed(timestamp@) ==> r@ == fallback_time(timestamp@),
{
    let strict = local_time_rfc3339(timestamp);
    let local = if strict.is_some() {
        strict
    } else {
        local_time_relaxed(timestamp)
    };
    time_label(timestamp, local)
}

} // verus!
