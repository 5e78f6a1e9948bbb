//! Character-level text helpers shared by the chunker, the session codec
//! and the id generators: conversions between `String` and `Vec<char>`,
//! and decimal rendering of unsigned numbers.

use vstd::prelude::*;
use vstd::string::StrSliceExecFns;

verus! {

/// Relies on std's `String::push`: appends the given character to the end
/// of the string.
#[verifier::external_body]
pub fn push_char(s: &mut String, c: char)
    ensures
        final(s)@ == old(s)@.push(c),
{
    s.push(c);
}

/// Copy a string slice out into a vector of its characters.
pub fn to_chars(s: &str) -> (v: Vec<char>)
    ensures
        v@ == s@,
{
    let n = s.unicode_len();
    let mut v: Vec<char> = Vec::new();
    let mut i: usize = 0;
    while i < n
        invariant
            i <= n,
            n == s@.len(),
            v@ == s@.subrange(0, i as int),
        decreases n - i,
    {
        let c = s.get_char(i);
        v.push(c);
        i = i + 1;
        assert(v@ =~= s@.subrange(0, i as int));
    }
    assert(v@ =~= s@);
    v
}

/// Collect a vector of characters back into a `String`.
pub fn from_chars(v: &Vec<char>) -> (s: String)
    ensures
        s@ == v@,
{
    let mut s = String::new();
    let mut i: usize = 0;
    while i < v.len()
        invariant
            i <= v.len(),
            s@ == v@.subrange(0, i as int),
        decreases v.len() - i,
    {
        push_char(&mut s, v[i]);
        i = i + 1;
        assert(s@ =~= v@.subrange(0, i as int));
    }
    assert(s@ =~= v@);
    s
}

/// The character for one decimal digit.
pub open spec fn spec_digit_char(d: nat) -> char {
    if d == 0 {
        '0'
    } else if d == 1 {
        '1'
    } else if d == 2 {
        '2'
    } else if d == 3 {
        '3'
    } else if d == 4 {
        '4'
    } else if d == 5 {
        '5'
    } else if d == 6 {
        '6'
    } else if d == 7 {
        '7'
    } else if d == 8 {
        '8'
    } else {
        '9'
    }
}

/// Whether a character is a decimal digit.
pub open spec fn spec_is_digit(c: char) -> bool {
    exists|d: nat| d < 10 && c == spec_digit_char(d)
}

/// The value of one decimal digit character; 10 for any other character.
pub open spec fn spec_digit_val(c: char) -> nat {
    if c == '0' {
        0
    } else if c == '1' {
        1
    } else if c == '2' {
        2
    } else if c == '3' {
        3
    } else if c == '4' {
        4
    } else if c == '5' {
        5
    } else if c == '6' {
        6
    } else if c == '7' {
        7
    } else if c == '8' {
        8
    } else if c == '9' {
        9
    } else {
        10
    }
}

/// Reading the character of a digit gives the digit back.
pub proof fn lemma_digit_char_val(d: nat)
    requires
        d < 10,
    ensures
        spec_digit_val(spec_digit_char(d)) == d,
        spec_is_digit(spec_digit_char(d)),
{
}

/// The usual decimal rendering of a number: no sign, no leading zero
/// except for the number zero itself.
pub open spec fn spec_u64_string(n: nat) -> Seq<char>
    decreases n,
{
    if n < 10 {
        seq![spec_digit_char(n)]
    } else {
        spec_u64_string(n / 10).push(spec_digit_char(n % 10))
    }
}

/// Every character of a decimal rendering is a digit, and there is at
/// least one.
pub proof fn lemma_u64_string_digits(n: nat)
    ensures
        spec_u64_string(n).len() >= 1,
        forall|i: int|
            0 <= i < spec_u64_string(n).len() ==> spec_is_digit(#[trigger] spec_u64_string(n)[i]),
    decreases n,
{
    if n < 10 {
        lemma_digit_char_val(n);
    } else {
        lemma_u64_string_digits(n / 10);
        lemma_digit_char_val(n % 10);
    }
}

fn digit_char(d: u64) -> (c: char)
    requires
        d < 10,
    ensures
        c == spec_digit_char(d as nat),
{
    match d {
        0 => '0',
        1 => '1',
        2 => '2',
        3 => '3',
        4 => '4',
        5 => '5',
        6 => '6',
        7 => '7',
        8 => '8',
        _ => '9',
    }
}

/// Append the decimal rendering of `n` to a character buffer.
pub fn push_u64_chars(v: &mut Vec<char>, n: u64)
    ensures
        final(v)@ == old(v)@ + spec_u64_string(n as nat),
    decreases n,
{
    if n < 10 {
        v.push(digit_char(n));
        assert(v@ =~= old(v)@ + spec_u64_string(n as nat));
    } else {
        push_u64_chars(v, n / 10);
        v.push(digit_char(n % 10));
        assert(v@ =~= old(v)@ + spec_u64_string(n as nat));
    }
}

/// The decimal rendering of `n` as a `String`.
pub fn u64_string(n: u64) -> (s: String)
    ensures
        s@ == spec_u64_string(n as nat),
{
    let mut v: Vec<char> = Vec::new();
    push_u64_chars(&mut v, n);
    from_chars(&v)
}

} // verus!
