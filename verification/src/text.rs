//! Character-sequence helpers shared by the parsers and formatters: conversion
//! between `&str`/`String` and `Vec<char>`, prefix tests, substring search and
//! unsigned-integer parsing, each with a specification over `Seq<char>`.

use vstd::prelude::*;
use vstd::string::*;

verus! {

/// The characters of `s`, in order.
pub fn chars_of(s: &str) -> (v: Vec<char>)
    ensures
        v@ == s@,
{
    let n = s.unicode_len();
    let mut v: Vec<char> = Vec::new();
    let mut i: usize = 0;
    while i < n
        invariant
            n == s@.len(),
            i <= n,
            v@ == s@.take(i as int),
        decreases n - i,
    {
        let c = s.get_char(i);
        v.push(c);
        assert(s@.take(i + 1) == s@.take(i as int).push(c));
        i += 1;
    }
    assert(s@.take(n as int) == s@);
    v
}

/// Appends one character to a `String` (`String::push`).
#[verifier::external_body]
fn push_char(s: &mut String, c: char)
    ensures
        final(s)@ == old(s)@.push(c),
{
    s.push(c);
}

/// A `String` holding exactly the characters of `v`.
pub fn string_of(v: &Vec<char>) -> (s: String)
    ensures
        s@ == v@,
{
    let mut s = String::new();
    let mut i: usize = 0;
    while i < v.len()
        invariant
            i <= v.len(),
            s@ == v@.take(i as int),
        decreases v.len() - i,
    {
        push_char(&mut s, v[i]);
        assert(v@.take(i + 1) == v@.take(i as int).push(v@[i as int]));
        i += 1;
    }
    assert(v@.take(v.len() as int) == v@);
    s
}

/// Appends the characters of `w` to `v`.
pub fn extend_chars(v: &mut Vec<char>, w: &Vec<char>)
    ensures
        final(v)@ == old(v)@ + w@,
{
    let mut i: usize = 0;
    while i < w.len()
        invariant
            i <= w.len(),
            v@ == old(v)@ + w@.take(i as int),
        decreases w.len() - i,
    {
        v.push(w[i]);
        assert(w@.take(i + 1) == w@.take(i as int).push(w@[i as int]));
        i += 1;
    }
    assert(w@.take(w.len() as int) == w@);
}

/// Appends the characters of the string slice `w` to `v`.
pub fn extend_str(v: &mut Vec<char>, w: &str)
    ensures
        final(v)@ == old(v)@ + w@,
{
    let cs = chars_of(w);
    extend_chars(v, &cs);
}

/// The characters `v[from..to]`.
pub fn slice_chars(v: &Vec<char>, from: usize, to: usize) -> (r: Vec<char>)
    requires
        from <= to <= v.len(),
    ensures
        r@ == v@.subrange(from as int, to as int),
{
    let mut r: Vec<char> = Vec::new();
    let mut i = from;
    while i < to
        invariant
            from <= i <= to <= v.len(),
            r@ == v@.subrange(from as int, i as int),
        decreases to - i,
    {
        r.push(v[i]);
        assert(v@.subrange(from as int, i + 1) == v@.subrange(from as int, i as int).push(
            v@[i as int],
        ));
        i += 1;
    }
    r
}

/// `p` is a prefix of `s`.
pub open spec fn starts_with(s: Seq<char>, p: Seq<char>) -> bool {
    p.len() <= s.len() && s.take(p.len() as int) == p
}

/// `p` occurs in `s` starting at position `i`.
pub open spec fn matches_at(s: Seq<char>, p: Seq<char>, i: int) -> bool {
    0 <= i && i + p.len() <= s.len() && s.subrange(i, i + p.len()) == p
}

/// The first position at or after `i` where `p` occurs in `s`.
pub open spec fn find_from(s: Seq<char>, p: Seq<char>, i: int) -> Option<int>
    decreases s.len() + 1 - i,
{
    if i < 0 || i + p.len() > s.len() {
        None
    } else if matches_at(s, p, i) {
        Some(i)
    } else {
        find_from(s, p, i + 1)
    }
}

/// A position found by [`find_from`] is a match at or after the start.
pub proof fn lemma_find_from_matches(s: Seq<char>, p: Seq<char>, i: int)
    ensures
        find_from(s, p, i) matches Some(j) ==> i <= j && matches_at(s, p, j),
    decreases s.len() + 1 - i,
{
    if i < 0 || i + p.len() > s.len() {
    } else if matches_at(s, p, i) {
    } else {
        lemma_find_from_matches(s, p, i + 1);
    }
}

/// Where no match starts before `j`, the search from `i` is the search from `j`.
pub proof fn lemma_find_from_skip(s: Seq<char>, p: Seq<char>, i: int, j: int)
    requires
        0 <= i <= j,
        forall|k: int| i <= k < j ==> !matches_at(s, p, k),
    ensures
        find_from(s, p, i) == find_from(s, p, j),
    decreases j - i,
{
    if i < j {
        if i + p.len() > s.len() {
            assert(j + p.len() > s.len());
        } else {
            lemma_find_from_skip(s, p, i + 1, j);
        }
    }
}

/// `s` with the prefix `p` removed, when `s` starts with `p` (`str::strip_prefix`).
pub open spec fn strip_prefix(s: Seq<char>, p: Seq<char>) -> Option<Seq<char>> {
    if starts_with(s, p) {
        Some(s.skip(p.len() as int))
    } else {
        None
    }
}

/// The text before and after the first occurrence of `p` (`str::split_once`).
pub open spec fn split_once(s: Seq<char>, p: Seq<char>) -> Option<(Seq<char>, Seq<char>)> {
    match find_from(s, p, 0) {
        Some(i) => Some((s.take(i), s.skip(i + p.len()))),
        None => None,
    }
}

/// `p` occurs somewhere in `s` (`str::contains`).
pub open spec fn contains_seq(s: Seq<char>, p: Seq<char>) -> bool {
    find_from(s, p, 0) is Some
}

/// Whether `p` occurs in `s` at position `i`.
pub fn matches_at_exec(s: &Vec<char>, p: &Vec<char>, i: usize) -> (b: bool)
    ensures
        b == matches_at(s@, p@, i as int),
{
    if i > s.len() || p.len() > s.len() - i {
        return false;
    }
    let mut k: usize = 0;
    while k < p.len()
        invariant
            i + p.len() <= s.len(),
            k <= p.len(),
            forall|j: int| 0 <= j < k ==> s@[i + j] == p@[j],
        decreases p.len() - k,
    {
        if s[i + k] != p[k] {
            assert(s@.subrange(i as int, i + p.len())[k as int] != p@[k as int]);
            return false;
        }
        k += 1;
    }
    assert(s@.subrange(i as int, i + p.len()) =~= p@);
    true
}

/// Whether `s` starts with `p`.
pub fn starts_with_exec(s: &Vec<char>, p: &Vec<char>) -> (b: bool)
    ensures
        b == starts_with(s@, p@),
{
    let b = matches_at_exec(s, p, 0);
    assert(s@.subrange(0, p@.len() as int) == s@.take(p@.len() as int));
    b
}

/// The first position where `p` occurs in `s`.
pub fn find_exec(s: &Vec<char>, p: &Vec<char>) -> (r: Option<usize>)
    ensures
        r matches Some(i) ==> find_from(s@, p@, 0) == Some(i as int),
        r is None ==> find_from(s@, p@, 0) is None,
{
    if p.len() > s.len() {
        return None;
    }
    if p.len() == 0 {
        assert(s@.subrange(0, 0) =~= p@);
        return Some(0);
    }
    let last = s.len() - p.len();
    let mut i: usize = 0;
    while i <= last
        invariant
            last == s.len() - p.len(),
            p.len() > 0,
            i <= last + 1,
            find_from(s@, p@, 0) == find_from(s@, p@, i as int),
        decreases last + 1 - i,
    {
        if matches_at_exec(s, p, i) {
            return Some(i);
        }
        i += 1;
    }
    None
}

/// Splits `s` around the first occurrence of `p`.
pub fn split_once_exec(s: &Vec<char>, p: &Vec<char>) -> (r: Option<(Vec<char>, Vec<char>)>)
    ensures
        r matches Some(pair) ==> split_once(s@, p@) == Some((pair.0@, pair.1@)),
        r is None ==> split_once(s@, p@) is None,
{
    proof {
        lemma_find_from_matches(s@, p@, 0);
    }
    match find_exec(s, p) {
        Some(i) => {
            assert(matches_at(s@, p@, i as int));
            assert(i + p@.len() <= s@.len());
            let head = slice_chars(s, 0, i);
            let n = s.len();
            let pl = p.len();
            let tail = slice_chars(s, i + pl, n);
            assert(head@ == s@.take(i as int));
            assert(tail@ == s@.skip(i + p@.len()));
            Some((head, tail))
        },
        None => None,
    }
}

/// Strips the prefix `p` from `s`.
pub fn strip_prefix_exec(s: &Vec<char>, p: &Vec<char>) -> (r: Option<Vec<char>>)
    ensures
        r matches Some(t) ==> strip_prefix(s@, p@) == Some(t@),
        r is None ==> strip_prefix(s@, p@) is None,
{
    if starts_with_exec(s, p) {
        let t = slice_chars(s, p.len(), s.len());
        Some(t)
    } else {
        None
    }
}

/// `p` is a suffix of `s`.
pub open spec fn ends_with(s: Seq<char>, p: Seq<char>) -> bool {
    p.len() <= s.len() && s.skip(s.len() - p.len()) == p
}

/// `s` with every leading repetition of `p` removed (`str::trim_start_matches`).
pub open spec fn trim_start_all(s: Seq<char>, p: Seq<char>) -> Seq<char>
    decreases s.len(),
{
    if p.len() > 0 && starts_with(s, p) {
        trim_start_all(s.skip(p.len() as int), p)
    } else {
        s
    }
}

/// `s` with every trailing repetition of `p` removed (`str::trim_end_matches`).
pub open spec fn trim_end_all(s: Seq<char>, p: Seq<char>) -> Seq<char>
    decreases s.len(),
{
    if p.len() > 0 && ends_with(s, p) {
        trim_end_all(s.take(s.len() - p.len()), p)
    } else {
        s
    }
}

/// Whether `s` ends with `p`.
pub fn ends_with_exec(s: &Vec<char>, p: &Vec<char>) -> (b: bool)
    ensures
        b == ends_with(s@, p@),
{
    if p.len() > s.len() {
        return false;
    }
    let b = matches_at_exec(s, p, s.len() - p.len());
    assert(s@.subrange(s@.len() - p@.len(), s@.len() as int) == s@.skip(s@.len() - p@.len()));
    b
}

/// Removes every leading repetition of `p` from `s`.
pub fn trim_start_all_exec(s: &Vec<char>, p: &Vec<char>) -> (r: Vec<char>)
    ensures
        r@ == trim_start_all(s@, p@),
{
    if p.len() == 0 {
        return slice_chars(s, 0, s.len());
    }
    let mut i: usize = 0;
    assert(s@.skip(0) =~= s@);
    while matches_at_exec(s, p, i)
        invariant
            p.len() > 0,
            i <= s.len(),
            trim_start_all(s@.skip(i as int), p@) == trim_start_all(s@, p@),
        decreases s.len() - i,
    {
        proof {
            let t = s@.skip(i as int);
            assert(t.take(p@.len() as int) =~= s@.subrange(i as int, i + p@.len()));
            assert(t.skip(p@.len() as int) =~= s@.skip(i + p@.len()));
        }
        i = i + p.len();
    }
    proof {
        let t = s@.skip(i as int);
        if starts_with(t, p@) {
            assert(t.take(p@.len() as int) =~= s@.subrange(i as int, i + p@.len()));
        }
    }
    slice_chars(s, i, s.len())
}

/// Removes every trailing repetition of `p` from `s`.
pub fn trim_end_all_exec(s: &Vec<char>, p: &Vec<char>) -> (r: Vec<char>)
    ensures
        r@ == trim_end_all(s@, p@),
{
    if p.len() == 0 {
        return slice_chars(s, 0, s.len());
    }
    let mut j: usize = s.len();
    assert(s@.take(s@.len() as int) =~= s@);
    while j >= p.len() && matches_at_exec(s, p, j - p.len())
        invariant
            p.len() > 0,
            j <= s.len(),
            trim_end_all(s@.take(j as int), p@) == trim_end_all(s@, p@),
        decreases j,
    {
        proof {
            let t = s@.take(j as int);
            assert(t.skip(t.len() - p@.len()) =~= s@.subrange(j - p@.len(), j as int));
            assert(t.take(t.len() - p@.len()) =~= s@.take(j - p@.len()));
        }
        j = j - p.len();
    }
    proof {
        let t = s@.take(j as int);
        if ends_with(t, p@) {
            assert(t.skip(t.len() - p@.len()) =~= s@.subrange(j - p@.len(), j as int));
        }
    }
    slice_chars(s, 0, j)
}

// ── Unsigned integer parsing (`u32`/`u64` `from_str` and `from_str_radix`) ────

/// The value of digit `c` in base `radix` (`char::to_digit`, for bases up to 16).
pub open spec fn digit_value(c: char, radix: nat) -> Option<nat> {
    let v: nat = if '0' <= c <= '9' {
        (c as nat - '0' as nat) as nat
    } else if 'a' <= c <= 'z' {
        (c as nat - 'a' as nat + 10) as nat
    } else if 'A' <= c <= 'Z' {
        (c as nat - 'A' as nat + 10) as nat
    } else {
        36
    };
    if v < radix {
        Some(v)
    } else {
        None
    }
}

/// Every character of `d` is a digit in base `radix`.
pub open spec fn all_digits(d: Seq<char>, radix: nat) -> bool {
    forall|i: int| 0 <= i < d.len() ==> (#[trigger] digit_value(d[i], radix)) is Some
}

/// The number that the digits `d` denote in base `radix`, most significant first.
pub open spec fn digits_value(d: Seq<char>, radix: nat) -> nat
    decreases d.len(),
{
    if d.len() == 0 {
        0
    } else {
        match digit_value(d.last(), radix) {
            Some(v) => digits_value(d.drop_last(), radix) * radix + v,
            None => digits_value(d.drop_last(), radix) * radix,
        }
    }
}

/// The digit part of an unsigned number: a leading `+` is accepted and dropped.
pub open spec fn unsigned_digits(s: Seq<char>) -> Seq<char> {
    if s.len() > 0 && s[0] == '+' {
        s.drop_first()
    } else {
        s
    }
}

/// How Rust parses an unsigned integer of at most `max` in base `radix`: an
/// optional `+`, then one or more digits, with no other character and no overflow.
pub open spec fn parse_unsigned(s: Seq<char>, radix: nat, max: nat) -> Option<nat> {
    let d = unsigned_digits(s);
    if d.len() == 0 || !all_digits(d, radix) || digits_value(d, radix) > max {
        None
    } else {
        Some(digits_value(d, radix))
    }
}

/// The digit value of `c` in base 10 or 16.
fn digit_value_exec(c: char, radix: u32) -> (r: Option<u32>)
    requires
        radix == 10 || radix == 16,
    ensures
        r matches Some(v) ==> digit_value(c, radix as nat) == Some(v as nat),
        r is None ==> digit_value(c, radix as nat) is None,
{
    let v: u32 = if '0' <= c && c <= '9' {
        (c as u32) - ('0' as u32)
    } else if 'a' <= c && c <= 'z' {
        (c as u32) - ('a' as u32) + 10
    } else if 'A' <= c && c <= 'Z' {
        (c as u32) - ('A' as u32) + 10
    } else {
        36
    };
    if v < radix {
        Some(v)
    } else {
        None
    }
}

proof fn lemma_digits_value_prefix_grows(d: Seq<char>, radix: nat, i: int)
    requires
        radix >= 1,
        0 <= i <= d.len(),
    ensures
        digits_value(d.take(i), radix) <= digits_value(d, radix),
    decreases d.len() - i,
{
    if i < d.len() {
        lemma_digits_value_prefix_grows(d, radix, i + 1);
        let t = d.take(i + 1);
        assert(t.drop_last() == d.take(i));
        let a = digits_value(d.take(i), radix);
        assert(a * radix >= a) by (nonlinear_arith)
            requires
                radix >= 1,
        ;
    } else {
        assert(d.take(i) == d);
    }
}

/// Parses `s` as an unsigned number of at most `max` in base 10 or 16.
pub fn parse_unsigned_exec(s: &Vec<char>, radix: u32, max: u64) -> (r: Option<u64>)
    requires
        radix == 10 || radix == 16,
    ensures
        r matches Some(v) ==> parse_unsigned(s@, radix as nat, max as nat) == Some(v as nat),
        r is None ==> parse_unsigned(s@, radix as nat, max as nat) is None,
{
    let start: usize = if s.len() > 0 && s[0] == '+' {
        1
    } else {
        0
    };
    let ghost d = unsigned_digits(s@);
    assert(d == s@.skip(start as int));
    if start >= s.len() {
        return None;
    }
    let mut acc: u64 = 0;
    let mut i: usize = start;
    while i < s.len()
        invariant
            start <= i <= s.len(),
            d == s@.skip(start as int),
            d == unsigned_digits(s@),
            radix == 10 || radix == 16,
            all_digits(d.take(i - start), radix as nat),
            acc as nat == digits_value(d.take(i - start), radix as nat),
            acc <= max,
        decreases s.len() - i,
    {
        let dv = digit_value_exec(s[i], radix);
        match dv {
            None => {
                assert(d[i - start] == s@[i as int]);
                assert(digit_value(d[i - start], radix as nat) is None);
                assert(!all_digits(d, radix as nat));
                return None;
            },
            Some(v) => {
                let next: u128 = (acc as u128) * (radix as u128) + (v as u128);
                let ghost k = i - start;
                assert(d.take(k + 1).drop_last() == d.take(k));
                assert(d.take(k + 1).last() == s@[i as int]);
                assert(next == digits_value(d.take(k + 1), radix as nat));
                if next > max as u128 {
                    proof {
                        lemma_digits_value_prefix_grows(d, radix as nat, k + 1);
                    }
                    assert(digits_value(d, radix as nat) > max);
                    return None;
                }
                assert forall|j: int| 0 <= j < k + 1 implies (#[trigger] digit_value(
                    d.take(k + 1)[j],
                    radix as nat,
                )) is Some by {
                    if j < k {
                        assert(d.take(k + 1)[j] == d.take(k)[j]);
                    }
                }
                acc = next as u64;
                i += 1;
            },
        }
    }
    assert(d.take(i - start) == d);
    Some(acc)
}

} // verus!
