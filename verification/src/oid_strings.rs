//! Dotted-decimal text form of object identifiers.
//!
//! An OID is a sequence of `u32` components; its text form joins the decimal
//! digits of each component with `'.'`. Walk results carry OIDs in text form
//! at one point of the collector, so extracting a table-row index means taking
//! the segment after the last dot and reading it back as a `u32`. This module
//! defines both directions and proves that reading back what was formatted
//! recovers the last component.

use vstd::prelude::*;

verus! {

/// The ten decimal digit characters.
pub open spec fn is_digit_char(c: char) -> bool {
    c == '0' || c == '1' || c == '2' || c == '3' || c == '4' || c == '5' || c == '6' || c == '7'
        || c == '8' || c == '9'
}

/// Numeric value of a decimal digit character (unspecified elsewhere).
pub open spec fn digit_value(c: char) -> nat {
    if c == '0' {
        0
    } else if c == '1' {
        1
    } else if c == '2' {
        2
    } else if c == '3' {
        3
    } else if c == '4' {
        4
    } else if c == '5' {
        5
    } else if c == '6' {
        6
    } else if c == '7' {
        7
    } else if c == '8' {
        8
    } else {
        9
    }
}

/// Digit character for a value below ten (unspecified elsewhere).
pub open spec fn digit_char(d: nat) -> char {
    if d == 0 {
        '0'
    } else if d == 1 {
        '1'
    } else if d == 2 {
        '2'
    } else if d == 3 {
        '3'
    } else if d == 4 {
        '4'
    } else if d == 5 {
        '5'
    } else if d == 6 {
        '6'
    } else if d == 7 {
        '7'
    } else if d == 8 {
        '8'
    } else {
        '9'
    }
}

/// Decimal digit string of `n`, most significant digit first, no leading
/// zeros except for `n == 0` itself.
pub open spec fn dec_digits(n: nat) -> Seq<char>
    decreases n,
{
    if n < 10 {
        seq![digit_char(n)]
    } else {
        dec_digits(n / 10).push(digit_char(n % 10))
    }
}

/// Value of a digit string read most significant digit first.
pub open spec fn digits_value(s: Seq<char>) -> nat
    decreases s.len(),
{
    if s.len() == 0 {
        0
    } else {
        digits_value(s.drop_last()) * 10 + digit_value(s.last())
    }
}

pub open spec fn all_digits(s: Seq<char>) -> bool {
    forall|i: int| 0 <= i < s.len() ==> is_digit_char(#[trigger] s[i])
}

/// What reading a `u32` out of a character sequence yields: defined exactly
/// when the sequence is one or more digits whose value fits in a `u32`.
pub open spec fn parse_u32_spec(s: Seq<char>) -> Option<u32> {
    if s.len() > 0 && all_digits(s) && digits_value(s) <= u32::MAX {
        Some(digits_value(s) as u32)
    } else {
        None
    }
}

/// The suffix of `s` after its last `'.'`; all of `s` if it has none.
pub open spec fn last_segment(s: Seq<char>) -> Seq<char>
    decreases s.len(),
{
    if s.len() == 0 {
        s
    } else if s.last() == '.' {
        Seq::empty()
    } else {
        last_segment(s.drop_last()).push(s.last())
    }
}

/// Dotted-decimal text of an OID component sequence.
pub open spec fn format_oid_spec(parts: Seq<u32>) -> Seq<char>
    decreases parts.len(),
{
    if parts.len() == 0 {
        Seq::empty()
    } else if parts.len() == 1 {
        dec_digits(parts[0] as nat)
    } else {
        format_oid_spec(parts.drop_last()) + seq!['.'] + dec_digits(parts.last() as nat)
    }
}

pub proof fn lemma_dec_digits_all_digits(n: nat)
    ensures
        dec_digits(n).len() >= 1,
        all_digits(dec_digits(n)),
    decreases n,
{
    if n < 10 {
        assert(is_digit_char(digit_char(n)));
    } else {
        lemma_dec_digits_all_digits(n / 10);
        assert forall|i: int| 0 <= i < dec_digits(n).len() implies is_digit_char(
            #[trigger] dec_digits(n)[i],
        ) by {
            if i == dec_digits(n).len() - 1 {
                assert(is_digit_char(digit_char(n % 10)));
            }
        }
    }
}

pub proof fn lemma_dec_digits_value(n: nat)
    ensures
        digits_value(dec_digits(n)) == n,
    decreases n,
{
    if n < 10 {
        let s = seq![digit_char(n)];
        assert(s.drop_last() =~= Seq::<char>::empty());
        assert(digits_value(s.drop_last()) == 0);
        assert(s.last() == digit_char(n));
        assert(digit_value(digit_char(n)) == n);
        assert(digits_value(s) == digit_value(digit_char(n)));
    } else {
        lemma_dec_digits_value(n / 10);
        let s = dec_digits(n / 10).push(digit_char(n % 10));
        assert(dec_digits(n) == s);
        assert(s.drop_last() =~= dec_digits(n / 10));
        assert(s.last() == digit_char(n % 10));
        assert(digit_value(digit_char(n % 10)) == n % 10);
        assert(digits_value(s) == digits_value(dec_digits(n / 10)) * 10 + digit_value(
            digit_char(n % 10),
        ));
        vstd::arithmetic::div_mod::lemma_fundamental_div_mod(n as int, 10);
        assert(digits_value(s) == (n / 10) * 10 + n % 10);
    }
}

/// A digit string is its own last segment: no digit is a dot.
pub proof fn lemma_last_segment_of_digits(s: Seq<char>)
    requires
        all_digits(s),
    ensures
        last_segment(s) == s,
    decreases s.len(),
{
    if s.len() > 0 {
        assert(is_digit_char(s.last()));
        lemma_last_segment_of_digits(s.drop_last());
        assert(last_segment(s.drop_last()).push(s.last()) =~= s);
    }
}

/// Everything before a dot is invisible to `last_segment` when nothing after
/// the dot is a dot.
pub proof fn lemma_last_segment_after_dot(a: Seq<char>, b: Seq<char>)
    requires
        all_digits(b),
    ensures
        last_segment(a + seq!['.'] + b) == b,
    decreases b.len(),
{
    if b.len() == 0 {
        assert(a + seq!['.'] + b =~= a.push('.'));
        assert(a.push('.').last() == '.');
        assert(last_segment(a.push('.')) =~= b);
    } else {
        let s = a + seq!['.'] + b;
        assert(s.last() == b.last());
        assert(is_digit_char(b.last()));
        assert(s.drop_last() =~= a + seq!['.'] + b.drop_last());
        lemma_last_segment_after_dot(a, b.drop_last());
        assert(last_segment(s) =~= b.drop_last().push(b.last()));
        assert(b.drop_last().push(b.last()) =~= b);
    }
}

/// Reading the trailing index back out of a formatted OID yields its last
/// component.
pub proof fn lemma_parse_formatted_oid(parts: Seq<u32>)
    requires
        parts.len() > 0,
    ensures
        parse_u32_spec(last_segment(format_oid_spec(parts))) == Some(parts.last()),
{
    let tail = dec_digits(parts.last() as nat);
    lemma_dec_digits_all_digits(parts.last() as nat);
    lemma_dec_digits_value(parts.last() as nat);
    if parts.len() == 1 {
        assert(format_oid_spec(parts) == tail);
        lemma_last_segment_of_digits(tail);
    } else {
        assert(format_oid_spec(parts) == format_oid_spec(parts.drop_last()) + seq!['.'] + tail);
        lemma_last_segment_after_dot(format_oid_spec(parts.drop_last()), tail);
    }
    assert(digits_value(tail) <= u32::MAX);
    assert(parse_u32_spec(tail) == Some(parts.last()));
}

/// A digit string's value only grows as digits are appended.
pub proof fn lemma_digits_value_monotonic(s: Seq<char>, k: int)
    requires
        0 <= k <= s.len(),
    ensures
        digits_value(s.take(k)) <= digits_value(s),
    decreases s.len(),
{
    if k < s.len() {
        lemma_digits_value_monotonic(s.drop_last(), k);
        assert(s.drop_last().take(k) =~= s.take(k));
    } else {
        assert(s.take(k) =~= s);
    }
}

/// Row-index extraction is a left-inverse of OID construction: appending an
/// index to any column OID and reading the trailing segment of the dotted
/// text back always yields exactly that index.
pub proof fn lemma_index_extraction_inverts_append(column: Seq<u32>, i: u32)
    ensures
        parse_u32_spec(last_segment(format_oid_spec(column.push(i)))) == Some(i),
{
    lemma_parse_formatted_oid(column.push(i));
}

/// Digit to character, matching `digit_char`.
fn digit_to_str(d: u32) -> (s: &'static str)
    requires
        d < 10,
    ensures
        s@ == seq![digit_char(d as nat)],
{
    let s: &'static str = if d == 0 {
        "0"
    } else if d == 1 {
        "1"
    } else if d == 2 {
        "2"
    } else if d == 3 {
        "3"
    } else if d == 4 {
        "4"
    } else if d == 5 {
        "5"
    } else if d == 6 {
        "6"
    } else if d == 7 {
        "7"
    } else if d == 8 {
        "8"
    } else {
        "9"
    };
    proof {
        reveal_strlit("0");
        reveal_strlit("1");
        reveal_strlit("2");
        reveal_strlit("3");
        reveal_strlit("4");
        reveal_strlit("5");
        reveal_strlit("6");
        reveal_strlit("7");
        reveal_strlit("8");
        reveal_strlit("9");
        assert(s@ =~= seq![digit_char(d as nat)]);
    }
    s
}

/// Decimal text of `n`.
pub fn u32_to_dec(n: u32) -> (s: String)
    ensures
        s@ == dec_digits(n as nat),
    decreases n,
{
    if n < 10 {
        let s = String::from_str(digit_to_str(n));
        proof {
            assert(s@ =~= dec_digits(n as nat));
        }
        s
    } else {
        let prefix = u32_to_dec(n / 10);
        let s = prefix.concat(digit_to_str(n % 10));
        proof {
            assert(s@ =~= dec_digits(n as nat));
        }
        s
    }
}

/// Dotted-decimal text of an OID.
pub fn format_oid(parts: &[u32]) -> (s: String)
    ensures
        s@ == format_oid_spec(parts@),
{
    let mut s = String::new();
    let mut i: usize = 0;
    while i < parts.len()
        invariant
            i <= parts@.len(),
            s@ == format_oid_spec(parts@.take(i as int)),
        decreases parts@.len() - i,
    {
        if i > 0 {
            s.append(".");
        }
        let d = u32_to_dec(parts[i]);
        s.append(d.as_str());
        proof {
            reveal_strlit(".");
            let upto = parts@.take(i as int + 1);
            assert(upto.drop_last() =~= parts@.take(i as int));
            assert(upto.last() == parts@[i as int]);
            if i == 0 {
                assert(s@ =~= format_oid_spec(upto));
            } else {
                assert("."@ =~= seq!['.']);
                assert(s@ =~= format_oid_spec(parts@.take(i as int)) + seq!['.'] + dec_digits(
                    parts@[i as int] as nat,
                ));
                assert(s@ =~= format_oid_spec(upto));
            }
        }
        i = i + 1;
    }
    proof {
        assert(parts@.take(parts@.len() as int) =~= parts@);
    }
    s
}

} // verus!
