//! Reading the time of a message from its decimal timestamp.

use vstd::prelude::*;
use vstd::string::StrSliceExecFns;

verus! {

/// The earliest second that has a calendar date in the supported range of years,
/// midnight of 1 January of the year -262143.
pub const MIN_UTC_SECONDS: i64 = -8_334_601_228_800;

/// The latest second that has a calendar date in the supported range of years, the last
/// second of 31 December of the year 262142.
pub const MAX_UTC_SECONDS: i64 = 8_210_266_876_799;

/// Whether `seconds` since the Unix epoch fall on a calendar date that can be named.
pub open spec fn in_utc_range(seconds: int) -> bool {
    MIN_UTC_SECONDS <= seconds <= MAX_UTC_SECONDS
}

/// Whether `c` is one of the ten ASCII digits.
pub open spec fn is_digit(c: char) -> bool {
    '0' <= c <= '9'
}

/// Whether `text` consists of ASCII digits only.
pub open spec fn all_digits(text: Seq<char>) -> bool {
    forall|i: int| 0 <= i < text.len() ==> is_digit(#[trigger] text[i])
}

/// The number that a run of ASCII digits denotes in base ten.
pub open spec fn digits_value(digits: Seq<char>) -> int
    decreases digits.len(),
{
    if digits.len() == 0 {
        0
    } else {
        10 * digits_value(digits.drop_last()) + (digits.last() as int - '0' as int)
    }
}

/// The integer that `text` denotes: an optional sign followed by at least one digit.
/// `None` where `text` has another shape.
pub open spec fn decimal_value(text: Seq<char>) -> Option<int> {
    if text.len() > 0 && (text[0] == '+' || text[0] == '-') {
        let digits = text.drop_first();
        if digits.len() > 0 && all_digits(digits) {
            Some(
                if text[0] == '-' {
                    -digits_value(digits)
                } else {
                    digits_value(digits)
                },
            )
        } else {
            None
        }
    } else if text.len() > 0 && all_digits(text) {
        Some(digits_value(text))
    } else {
        None
    }
}

/// The position of the first dot in `text`, or its length where it has none.
pub open spec fn dot_position(text: Seq<char>) -> int
    decreases text.len(),
{
    if text.len() == 0 || text[0] == '.' {
        0
    } else {
        1 + dot_position(text.drop_first())
    }
}

/// The seconds since the Unix epoch that the timestamp `ts` gives: the integer written
/// before its first dot, where that is a well-formed integer within the supported range
/// of dates. A fraction after the dot is ignored.
pub open spec fn timestamp_seconds(ts: Seq<char>) -> Option<int> {
    match decimal_value(ts.take(dot_position(ts))) {
        Some(seconds) => if in_utc_range(seconds) {
            Some(seconds)
        } else {
            None
        },
        None => None,
    }
}

/// The position `end` is the first dot of `text`, or its end, once nothing before it is a dot.
proof fn lemma_dot_position(text: Seq<char>, end: int)
    requires
        0 <= end <= text.len(),
        forall|i: int| 0 <= i < end ==> text[i] != '.',
        end == text.len() || text[end] == '.',
    ensures
        dot_position(text) == end,
    decreases text.len(),
{
    if end > 0 {
        lemma_dot_position(text.drop_first(), end - 1);
    }
}

/// Further digits never make a number smaller.
proof fn lemma_digits_value_grows(digits: Seq<char>, shorter: int)
    requires
        all_digits(digits),
        0 <= shorter <= digits.len(),
    ensures
        0 <= digits_value(digits.take(shorter)) <= digits_value(digits),
    decreases digits.len() - shorter,
{
    if shorter == digits.len() {
        assert(digits.take(shorter) =~= digits);
        lemma_digits_value_nonnegative(digits);
    } else {
        lemma_digits_value_grows(digits, shorter + 1);
        let longer = digits.take(shorter + 1);
        assert(longer.drop_last() =~= digits.take(shorter));
        assert(is_digit(digits[shorter]));
        lemma_digits_value_nonnegative(digits.take(shorter));
    }
}

proof fn lemma_digits_value_nonnegative(digits: Seq<char>)
    requires
        all_digits(digits),
    ensures
        0 <= digits_value(digits),
    decreases digits.len(),
{
    if digits.len() > 0 {
        assert(is_digit(digits[digits.len() - 1]));
        lemma_digits_value_nonnegative(digits.drop_last());
    }
}

/// Reads the seconds since the Unix epoch from the timestamp `ts`.
///
/// Returns the integer written before the first dot of `ts`, and `None` where that part
/// is not an optional sign followed by digits or lies outside the supported range.
pub fn parse_timestamp(ts: &str) -> (seconds: Option<i64>)
    ensures
        seconds matches Some(s) ==> timestamp_seconds(ts@) == Some(s as int),
        seconds is None ==> timestamp_seconds(ts@) is None,
{
    let len = ts.unicode_len();
    let mut end: usize = 0;
    while end < len && ts.get_char(end) != '.'
        invariant
            end <= len,
            len == ts@.len(),
            forall|i: int| 0 <= i < end ==> ts@[i] != '.',
        decreases len - end,
    {
        end += 1;
    }
    proof {
        lemma_dot_position(ts@, end as int);
    }
    let ghost text = ts@.take(end as int);
    if end == 0 {
        return None;
    }
    let first = ts.get_char(0);
    let signed = first == '+' || first == '-';
    let start: usize = if signed {
        1
    } else {
        0
    };
    if start == end {
        return None;
    }
    let ghost digits = ts@.subrange(start as int, end as int);
    assert(signed ==> digits =~= text.drop_first());
    assert(!signed ==> digits =~= text);
    let mut index = start;
    let mut magnitude: i64 = 0;
    while index < end
        invariant
            start <= index <= end <= len,
            len == ts@.len(),
            digits == ts@.subrange(start as int, end as int),
            dot_position(ts@) == end,
            text == ts@.take(end as int),
            first == ts@[0],
            signed == (first == '+' || first == '-'),
            signed ==> digits == text.drop_first(),
            !signed ==> digits == text,
            all_digits(digits.take(index - start)),
            magnitude == digits_value(digits.take(index - start)),
            0 <= magnitude <= -MIN_UTC_SECONDS,
        decreases end - index,
    {
        let c = ts.get_char(index);
        if !('0' <= c && c <= '9') {
            assert(digits[index - start] == c);
            return None;
        }
        let ghost longer = digits.take(index - start + 1);
        assert(longer.drop_last() =~= digits.take(index - start));
        assert(longer.last() == c);
        magnitude = magnitude * 10 + (c as i64 - '0' as i64);
        index += 1;
        if magnitude > -MIN_UTC_SECONDS {
            proof {
                if all_digits(digits) {
                    lemma_digits_value_grows(digits, index - start);
                }
            }
            return None;
        }
    }
    assert(digits.take(index - start) =~= digits);
    let seconds = if first == '-' {
        -magnitude
    } else {
        magnitude
    };
    if MIN_UTC_SECONDS <= seconds && seconds <= MAX_UTC_SECONDS {
        Some(seconds)
    } else {
        None
    }
}

} // verus!
