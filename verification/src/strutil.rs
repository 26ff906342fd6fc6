//! String helpers shared by the codec and the renderers: conversion
//! between `String` and `Vec<char>`, equality and containment tests,
//! and decimal rendering and parsing of unsigned numbers.

use vstd::prelude::*;

verus! {

/// Relies on `str::chars`: the iterator yields exactly the characters
/// of the string, in order.
#[verifier::external_body]
pub fn string_to_chars(s: &str) -> (r: Vec<char>)
    ensures
        r@ == s@,
{
    s.chars().collect()
}

/// Relies on `String`'s `FromIterator<char>`: collecting characters
/// builds the string of exactly those characters, in order.
#[verifier::external_body]
pub fn chars_to_string(v: &Vec<char>) -> (r: String)
    ensures
        r@ == v@,
{
    v.iter().collect()
}

/// True exactly when the strings hold the same characters.
pub fn str_eq(a: &str, b: &str) -> (r: bool)
    ensures
        r == (a@ == b@),
{
    let x = a.to_owned();
    let y = b.to_owned();
    x == y
}

/// `n` holds `needle` as a contiguous run starting at `i`.
pub open spec fn occurs_at(h: Seq<char>, needle: Seq<char>, i: int) -> bool {
    0 <= i && i + needle.len() <= h.len() && h.subrange(i, i + needle.len()) == needle
}

/// `h` holds `needle` as a contiguous run somewhere.
pub open spec fn contains_seq(h: Seq<char>, needle: Seq<char>) -> bool {
    exists|i: int| occurs_at(h, needle, i)
}

/// True exactly when `needle` occurs contiguously in `h`.
pub fn contains_chars(h: &Vec<char>, needle: &Vec<char>) -> (r: bool)
    ensures
        r == contains_seq(h@, needle@),
{
    if needle.len() > h.len() {
        assert forall|i: int| !occurs_at(h@, needle@, i) by {}
        return false;
    }
    let mut i: usize = 0;
    while i <= h.len() - needle.len()
        invariant
            needle.len() <= h.len(),
            0 <= i <= h.len() - needle.len() + 1,
            forall|k: int| 0 <= k < i ==> !occurs_at(h@, needle@, k),
        decreases h.len() - needle.len() - i + 1,
    {
        let mut j: usize = 0;
        let mut all: bool = true;
        while j < needle.len()
            invariant
                needle.len() <= h.len(),
                0 <= i <= h.len() - needle.len(),
                0 <= j <= needle.len(),
                all <==> (forall|k: int| 0 <= k < j ==> h@[i + k] == needle@[k]),
            decreases needle.len() - j,
        {
            if h[i + j] != needle[j] {
                all = false;
            }
            j += 1;
        }
        if all {
            assert(h@.subrange(i as int, i + needle@.len()) =~= needle@);
            assert(occurs_at(h@, needle@, i as int));
            return true;
        }
        assert(!occurs_at(h@, needle@, i as int)) by {
            if occurs_at(h@, needle@, i as int) {
                let sub = h@.subrange(i as int, i + needle@.len());
                assert(forall|k: int| 0 <= k < needle@.len() ==> h@[i + k] == sub[k]);
            }
        }
        i += 1;
    }
    assert forall|k: int| !occurs_at(h@, needle@, k) by {
        if occurs_at(h@, needle@, k) {
            assert(0 <= k < i);
        }
    }
    false
}

/// The character for a decimal digit.
pub open spec fn dec_digit_char(d: nat) -> char {
    if d == 0 { '0' }
    else if d == 1 { '1' }
    else if d == 2 { '2' }
    else if d == 3 { '3' }
    else if d == 4 { '4' }
    else if d == 5 { '5' }
    else if d == 6 { '6' }
    else if d == 7 { '7' }
    else if d == 8 { '8' }
    else { '9' }
}

/// The usual decimal rendering of `n`, most significant digit first,
/// with no leading zeros (`0` renders as "0").
pub open spec fn dec_digits(n: nat) -> Seq<char>
    decreases n,
{
    if n < 10 {
        seq![dec_digit_char(n)]
    } else {
        dec_digits(n / 10).push(dec_digit_char(n % 10))
    }
}

/// `c` is a decimal digit character.
pub open spec fn is_digit(c: char) -> bool {
    48 <= (c as u32) <= 57
}

/// The value of a digit character.
pub open spec fn digit_val(c: char) -> nat {
    ((c as u32) - 48) as nat
}

/// The value of a run of digit characters, most significant first.
pub open spec fn digits_val(s: Seq<char>) -> nat
    decreases s.len(),
{
    if s.len() == 0 {
        0
    } else {
        digits_val(s.drop_last()) * 10 + digit_val(s.last())
    }
}

pub proof fn lemma_dec_digit_char_val(d: nat)
    requires
        d < 10,
    ensures
        is_digit(dec_digit_char(d)),
        digit_val(dec_digit_char(d)) == d,
{
}

/// Every character of `dec_digits(n)` is a digit, and reading the run
/// back as a number yields `n`.
pub proof fn lemma_dec_digits_val(n: nat)
    ensures
        dec_digits(n).len() >= 1,
        forall|i: int| 0 <= i < dec_digits(n).len() ==> is_digit(#[trigger] dec_digits(n)[i]),
        digits_val(dec_digits(n)) == n,
    decreases n,
{
    if n < 10 {
        lemma_dec_digit_char_val(n);
        let s = dec_digits(n);
        assert(s =~= seq![dec_digit_char(n)]);
        assert(s.drop_last() =~= Seq::<char>::empty());
        assert(s.last() == dec_digit_char(n));
        assert(digits_val(s) == digits_val(s.drop_last()) * 10 + digit_val(s.last()));
        assert(digits_val(Seq::<char>::empty()) == 0);
    } else {
        lemma_dec_digits_val(n / 10);
        lemma_dec_digit_char_val(n % 10);
        let s = dec_digits(n);
        assert(s.drop_last() =~= dec_digits(n / 10));
        assert(digits_val(s) == (n / 10) * 10 + n % 10);
        assert((n / 10) * 10 + n % 10 == n) by {
            vstd::arithmetic::div_mod::lemma_fundamental_div_mod(n as int, 10);
        }
        assert forall|i: int| 0 <= i < s.len() implies is_digit(#[trigger] s[i]) by {
            if i < s.len() - 1 {
                assert(s[i] == dec_digits(n / 10)[i]);
            } else {
                assert(s[i] == dec_digit_char(n % 10));
            }
        }
    }
}

/// Appending digits never shrinks the value of the run.
pub proof fn lemma_digits_val_monotone(s: Seq<char>, t: Seq<char>)
    requires
        s.len() <= t.len(),
        t.subrange(0, s.len() as int) == s,
    ensures
        digits_val(s) <= digits_val(t),
    decreases t.len(),
{
    if t.len() > s.len() {
        assert(t.drop_last().subrange(0, s.len() as int) =~= s);
        lemma_digits_val_monotone(s, t.drop_last());
        assert(digits_val(t.drop_last()) * 10 + digit_val(t.last()) >= digits_val(t.drop_last()));
    } else {
        assert(t =~= s);
    }
}

/// A digit character for `d`.
fn digit_char(d: u64) -> (c: char)
    requires
        d < 10,
    ensures
        c == dec_digit_char(d as nat),
{
    if d == 0 { '0' }
    else if d == 1 { '1' }
    else if d == 2 { '2' }
    else if d == 3 { '3' }
    else if d == 4 { '4' }
    else if d == 5 { '5' }
    else if d == 6 { '6' }
    else if d == 7 { '7' }
    else if d == 8 { '8' }
    else { '9' }
}

/// The decimal rendering of `n` as characters.
pub fn u64_to_dec_chars(n: u64) -> (r: Vec<char>)
    ensures
        r@ == dec_digits(n as nat),
    decreases n,
{
    if n < 10 {
        let mut v: Vec<char> = Vec::new();
        v.push(digit_char(n));
        assert(v@ =~= seq![dec_digit_char(n as nat)]);
        v
    } else {
        let mut v = u64_to_dec_chars(n / 10);
        v.push(digit_char(n % 10));
        v
    }
}

/// The decimal rendering of `n` as a string.
pub fn u64_to_dec(n: u64) -> (r: String)
    ensures
        r@ == dec_digits(n as nat),
{
    let v = u64_to_dec_chars(n);
    chars_to_string(&v)
}

} // verus!
