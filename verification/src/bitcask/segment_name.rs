//! The names of segment files: a decimal segment number, a dot, `data`.

use vstd::prelude::*;
use vstd::string::StrSliceExecFns;

verus! {

/// The characters `.data`, which mark a file as a segment.
pub open spec fn data_mark() -> Seq<char> {
    seq!['.', 'd', 'a', 't', 'a']
}

/// Whether `.data` occurs in `name` at position `at`.
pub open spec fn data_mark_at(name: Seq<char>, at: int) -> bool {
    0 <= at && at + 5 <= name.len() && name.subrange(at, at + 5) == data_mark()
}

/// Whether `.data` occurs somewhere in `name`.
pub open spec fn is_segment_name(name: Seq<char>) -> bool {
    exists|at: int| data_mark_at(name, at)
}

/// The position of the first `.` in `name`, or the length of `name` when it
/// holds none.
pub open spec fn first_dot(name: Seq<char>) -> int
    decreases name.len(),
{
    if name.len() == 0 || name.first() == '.' {
        0
    } else {
        1 + first_dot(name.drop_first())
    }
}

/// The part of `name` before its first `.`.
pub open spec fn stem(name: Seq<char>) -> Seq<char> {
    name.take(first_dot(name))
}

/// Whether `c` is one of the digits `0` to `9`.
pub open spec fn is_digit(c: char) -> bool {
    '0' <= c && c <= '9'
}

/// The number that the decimal digits `digits` write.
pub open spec fn decimal_value(digits: Seq<char>) -> nat
    decreases digits.len(),
{
    if digits.len() == 0 {
        0
    } else {
        decimal_value(digits.drop_last()) * 10 + (digits.last() as u32 - '0' as u32) as nat
    }
}

/// The number that `text` writes in decimal: an optional `+`, then one
/// digit or more, the value within 32 bits. Anything else is no number.
pub open spec fn decimal_u32(text: Seq<char>) -> Option<u32> {
    let digits = unsigned_part(text);
    if digits.len() > 0 && all_digits(digits) && decimal_value(digits) <= u32::MAX {
        Some(decimal_value(digits) as u32)
    } else {
        None
    }
}

/// `text` without its leading `+`, if it has one.
pub open spec fn unsigned_part(text: Seq<char>) -> Seq<char> {
    if text.len() > 0 && text.first() == '+' {
        text.drop_first()
    } else {
        text
    }
}

/// Whether every character of `digits` is a digit.
pub open spec fn all_digits(digits: Seq<char>) -> bool {
    forall|i: int| 0 <= i < digits.len() ==> is_digit(#[trigger] digits[i])
}

/// The segment numbers that the file names `names` encode, in the order of
/// the names.
///
/// A name without `.data` in it is no segment and is passed over. A name
/// with `.data` must start with the segment number, written in decimal and
/// ended by the first `.`; one that does not makes the whole directory
/// unreadable.
pub open spec fn segment_ids(names: Seq<Seq<char>>) -> Option<Seq<u32>>
    decreases names.len(),
{
    if names.len() == 0 {
        Some(Seq::empty())
    } else {
        match segment_ids(names.drop_last()) {
            None => None,
            Some(ids) => if is_segment_name(names.last()) {
                match decimal_u32(stem(names.last())) {
                    Some(id) => Some(ids.push(id)),
                    None => None,
                }
            } else {
                Some(ids)
            },
        }
    }
}

/// Whether `.data` occurs in `name`.
pub fn contains_data_mark(name: &str) -> (found: bool)
    ensures
        found == is_segment_name(name@),
{
    let len = name.unicode_len();
    if len < 5 {
        assert forall|at: int| !data_mark_at(name@, at) by {}
        return false;
    }
    let mut at: usize = 0;
    while at <= len - 5
        invariant
            len == name@.len(),
            len >= 5,
            forall|earlier: int| 0 <= earlier < at ==> !data_mark_at(name@, earlier),
        decreases len - at,
    {
        if name.get_char(at) == '.' && name.get_char(at + 1) == 'd' && name.get_char(at + 2) == 'a'
            && name.get_char(at + 3) == 't' && name.get_char(at + 4) == 'a' {
            assert(name@.subrange(at as int, at + 5) =~= data_mark());
            assert(data_mark_at(name@, at as int));
            return true;
        }
        proof {
            let part = name@.subrange(at as int, at + 5);
            assert(part[0] == name@[at as int]);
            assert(part[1] == name@[at + 1]);
            assert(part[2] == name@[at + 2]);
            assert(part[3] == name@[at + 3]);
            assert(part[4] == name@[at + 4]);
            assert(data_mark()[0] == '.' && data_mark()[1] == 'd' && data_mark()[2] == 'a'
                && data_mark()[3] == 't' && data_mark()[4] == 'a');
        }
        at = at + 1;
    }
    assert forall|at: int| !data_mark_at(name@, at) by {}
    false
}

proof fn lemma_first_dot(name: Seq<char>, at: int)
    requires
        0 <= at <= name.len(),
        forall|i: int| 0 <= i < at ==> name[i] != '.',
        at < name.len() ==> name[at] == '.',
    ensures
        first_dot(name) == at,
    decreases name.len(),
{
    if at > 0 {
        let rest = name.drop_first();
        assert forall|i: int| 0 <= i < at - 1 implies rest[i] != '.' by {
            assert(rest[i] == name[i + 1]);
        }
        lemma_first_dot(rest, at - 1);
    }
}

/// The number of characters before the first `.` in `name`.
pub fn stem_len(name: &str) -> (len: usize)
    ensures
        len == first_dot(name@),
        len <= name@.len(),
{
    let total = name.unicode_len();
    let mut at: usize = 0;
    while at < total && name.get_char(at) != '.'
        invariant
            total == name@.len(),
            at <= total,
            forall|i: int| 0 <= i < at ==> name@[i] != '.',
        decreases total - at,
    {
        at = at + 1;
    }
    proof {
        lemma_first_dot(name@, at as int);
    }
    at
}

/// Reads the first `len` characters of `name` as a decimal number.
pub fn parse_stem(name: &str, len: usize) -> (r: Option<u32>)
    requires
        len <= name@.len(),
    ensures
        r == decimal_u32(name@.take(len as int)),
{
    let ghost text = name@.take(len as int);
    let start: usize = if len > 0 && name.get_char(0) == '+' {
        1
    } else {
        0
    };
    let ghost digits = unsigned_part(text);
    if start == len {
        assert(digits.len() == 0);
        return None;
    }
    let mut value: u32 = 0;
    let mut at: usize = start;
    assert(digits =~= name@.subrange(start as int, len as int));
    assert(decimal_value(digits.take(0)) == 0);
    while at < len
        invariant
            start <= at <= len,
            start < len,
            len <= name@.len(),
            text == name@.take(len as int),
            digits == unsigned_part(text),
            digits == name@.subrange(start as int, len as int),
            forall|i: int| 0 <= i < at - start ==> is_digit(#[trigger] digits[i]),
            value == decimal_value(digits.take(at - start)),
        decreases len - at,
    {
        let c = name.get_char(at);
        assert(digits[at - start] == c);
        if c < '0' || c > '9' {
            assert(0 <= at - start < digits.len() && !is_digit(digits[at - start]));
            assert(!all_digits(digits));
            return None;
        }
        let digit: u32 = c as u32 - '0' as u32;
        proof {
            let seen = digits.take(at - start + 1);
            assert(seen.drop_last() =~= digits.take(at - start));
            assert(seen.last() == c);
            assert(decimal_value(seen) == value * 10 + digit);
            lemma_decimal_value_grows(digits, at - start + 1);
        }
        if value > (u32::MAX - digit) / 10 {
            assert(decimal_value(digits.take(at - start + 1)) > u32::MAX);
            assert(!all_digits(digits) || decimal_value(digits) > u32::MAX);
            return None;
        }
        value = value * 10 + digit;
        at = at + 1;
    }
    assert(digits.take(len - start) =~= digits);
    assert(all_digits(digits));
    Some(value)
}

/// The value of a run of digits is at least the value of each of its
/// beginnings.
proof fn lemma_decimal_value_grows(digits: Seq<char>, n: int)
    requires
        0 <= n <= digits.len(),
        forall|i: int| 0 <= i < n ==> is_digit(#[trigger] digits[i]),
    ensures
        all_digits(digits) ==> decimal_value(digits.take(n)) <= decimal_value(digits),
    decreases digits.len() - n,
{
    if n < digits.len() {
        if all_digits(digits) {
            assert(is_digit(digits[n]));
            lemma_decimal_value_grows(digits, n + 1);
            let longer = digits.take(n + 1);
            assert(longer.drop_last() =~= digits.take(n));
        }
    } else {
        assert(digits.take(n) =~= digits);
    }
}

} // verus!
