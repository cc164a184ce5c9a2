//! Whitespace-separated words, trimming, substring removal, ASCII case folding
//! and joining — the string operations the panel labels are built from.

use vstd::prelude::*;
use crate::text::{matches_at, slice_chars, starts_with};

verus! {

/// Unicode `White_Space` (what `char::is_whitespace` accepts).
pub open spec fn is_ws(c: char) -> bool {
    ('\u{9}' <= c <= '\u{d}') || c == ' ' || c == '\u{85}' || c == '\u{a0}' || c == '\u{1680}'
        || ('\u{2000}' <= c <= '\u{200a}') || c == '\u{2028}' || c == '\u{2029}' || c
        == '\u{202f}' || c == '\u{205f}' || c == '\u{3000}'
}

/// Whether `c` is Unicode whitespace.
pub fn is_ws_exec(c: char) -> (b: bool)
    ensures
        b == is_ws(c),
{
    ('\u{9}' <= c && c <= '\u{d}') || c == ' ' || c == '\u{85}' || c == '\u{a0}' || c
        == '\u{1680}' || ('\u{2000}' <= c && c <= '\u{200a}') || c == '\u{2028}' || c
        == '\u{2029}' || c == '\u{202f}' || c == '\u{205f}' || c == '\u{3000}'
}

/// Length of the longest prefix of `s` holding no whitespace.
pub open spec fn word_len(s: Seq<char>) -> nat
    decreases s.len(),
{
    if s.len() == 0 || is_ws(s[0]) {
        0
    } else {
        1 + word_len(s.drop_first())
    }
}

/// The maximal runs of non-whitespace characters of `s`, in order
/// (`str::split_whitespace`).
pub open spec fn words(s: Seq<char>) -> Seq<Seq<char>>
    decreases s.len(),
{
    if s.len() == 0 {
        Seq::empty()
    } else if is_ws(s[0]) {
        words(s.drop_first())
    } else {
        let n = word_len(s);
        if n == 0 || n > s.len() {
            Seq::empty()
        } else {
            seq![s.take(n as int)] + words(s.skip(n as int))
        }
    }
}

proof fn lemma_word_len_bounds(s: Seq<char>)
    ensures
        word_len(s) <= s.len(),
        s.len() > 0 && !is_ws(s[0]) ==> word_len(s) >= 1,
        forall|j: int| 0 <= j < word_len(s) ==> !is_ws(#[trigger] s[j]),
        word_len(s) < s.len() ==> is_ws(s[word_len(s) as int]),
    decreases s.len(),
{
    if s.len() > 0 && !is_ws(s[0]) {
        lemma_word_len_bounds(s.drop_first());
        assert forall|j: int| 0 <= j < word_len(s) implies !is_ws(#[trigger] s[j]) by {
            if j > 0 {
                assert(s[j] == s.drop_first()[j - 1]);
            }
        }
        if word_len(s) < s.len() {
            assert(s[word_len(s) as int] == s.drop_first()[word_len(s) - 1]);
        }
    }
}

proof fn lemma_word_len_exact(s: Seq<char>, n: int)
    requires
        0 <= n <= s.len(),
        forall|j: int| 0 <= j < n ==> !is_ws(#[trigger] s[j]),
        n == s.len() || is_ws(s[n]),
    ensures
        word_len(s) == n,
    decreases n,
{
    if n > 0 {
        let t = s.drop_first();
        assert forall|j: int| 0 <= j < n - 1 implies !is_ws(#[trigger] t[j]) by {
            assert(t[j] == s[j + 1]);
        }
        if n < s.len() {
            assert(t[n - 1] == s[n]);
        }
        lemma_word_len_exact(t, n - 1);
    }
}

/// The words of `s`, split at Unicode whitespace.
pub fn split_words(s: &Vec<char>) -> (ws: Vec<Vec<char>>)
    ensures
        ws@.len() == words(s@).len(),
        forall|i: int| 0 <= i < ws@.len() ==> (#[trigger] ws@[i])@ == words(s@)[i],
{
    let mut ws: Vec<Vec<char>> = Vec::new();
    let mut i: usize = 0;
    let ghost done: Seq<Seq<char>> = Seq::empty();
    assert(s@.skip(0) == s@);
    assert(done + words(s@) == words(s@));
    while i < s.len()
        invariant
            i <= s.len(),
            ws@.len() == done.len(),
            forall|k: int| 0 <= k < ws@.len() ==> (#[trigger] ws@[k])@ == done[k],
            done + words(s@.skip(i as int)) == words(s@),
        decreases s.len() - i,
    {
        let ghost rest = s@.skip(i as int);
        if is_ws_exec(s[i]) {
            assert(rest[0] == s@[i as int]);
            assert(rest.drop_first() == s@.skip(i + 1));
            i += 1;
        } else {
            let mut j = i;
            while j < s.len() && !is_ws_exec(s[j])
                invariant
                    i <= j <= s.len(),
                    forall|k: int| i <= k < j ==> !is_ws(#[trigger] s@[k]),
                decreases s.len() - j,
            {
                j += 1;
            }
            let w = slice_chars(s, i, j);
            proof {
                assert forall|k: int| 0 <= k < j - i implies !is_ws(#[trigger] rest[k]) by {
                    assert(rest[k] == s@[i + k]);
                }
                if j < s.len() {
                    assert(rest[j - i] == s@[j as int]);
                }
                lemma_word_len_exact(rest, j - i);
                assert(rest[0] == s@[i as int]);
                assert(rest.take(j - i) == w@);
                assert(rest.skip(j - i) == s@.skip(j as int));
                assert(words(rest) == seq![w@] + words(s@.skip(j as int)));
                assert(done.push(w@) + words(s@.skip(j as int)) == done + words(rest));
                done = done.push(w@);
            }
            ws.push(w);
            i = j;
        }
    }
    assert(s@.skip(i as int).len() == 0);
    assert(done + Seq::<Seq<char>>::empty() == done);
    ws
}

/// `s` without leading and trailing whitespace (`str::trim`).
pub open spec fn trim(s: Seq<char>) -> Seq<char>
    decreases s.len(),
{
    if s.len() == 0 {
        s
    } else if is_ws(s[0]) {
        trim(s.drop_first())
    } else if is_ws(s.last()) {
        trim(s.drop_last())
    } else {
        s
    }
}

/// Removes leading and trailing whitespace.
pub fn trim_chars(s: &Vec<char>) -> (t: Vec<char>)
    ensures
        t@ == trim(s@),
{
    let mut a: usize = 0;
    let mut b: usize = s.len();
    assert(s@.subrange(0, s@.len() as int) == s@);
    while a < b && is_ws_exec(s[a])
        invariant
            a <= b == s.len(),
            trim(s@) == trim(s@.subrange(a as int, b as int)),
        decreases b - a,
    {
        let ghost t = s@.subrange(a as int, b as int);
        assert(t[0] == s@[a as int]);
        assert(t.drop_first() == s@.subrange(a + 1, b as int));
        a += 1;
    }
    while a < b && is_ws_exec(s[b - 1])
        invariant
            a <= b <= s.len(),
            trim(s@) == trim(s@.subrange(a as int, b as int)),
            a < b ==> !is_ws(s@[a as int]),
        decreases b - a,
    {
        let ghost t = s@.subrange(a as int, b as int);
        assert(t[0] == s@[a as int]);
        assert(t.last() == s@[b - 1]);
        assert(t.drop_last() == s@.subrange(a as int, b - 1));
        b -= 1;
    }
    let r = slice_chars(s, a, b);
    proof {
        if a < b {
            assert(r@[0] == s@[a as int]);
            assert(r@.last() == s@[b - 1]);
        }
    }
    r
}

/// `s` without trailing whitespace (`str::trim_end`).
pub open spec fn trim_end(s: Seq<char>) -> Seq<char>
    decreases s.len(),
{
    if s.len() > 0 && is_ws(s.last()) {
        trim_end(s.drop_last())
    } else {
        s
    }
}

/// What `trim_end` leaves is a prefix of `s`, and all of `s` when `s` does
/// not end in whitespace.
pub proof fn lemma_trim_end_prefix(s: Seq<char>)
    ensures
        trim_end(s).len() <= s.len(),
        trim_end(s) == s.take(trim_end(s).len() as int),
        !(s.len() > 0 && is_ws(s.last())) ==> trim_end(s) == s,
    decreases s.len(),
{
    if s.len() > 0 && is_ws(s.last()) {
        lemma_trim_end_prefix(s.drop_last());
        assert(s.drop_last().take(trim_end(s).len() as int) =~= s.take(trim_end(s).len() as int));
    } else {
        assert(s.take(s.len() as int) =~= s);
    }
}

/// Removes trailing whitespace.
pub fn trim_end_chars(s: &Vec<char>) -> (t: Vec<char>)
    ensures
        t@ == trim_end(s@),
{
    let mut b: usize = s.len();
    assert(s@.subrange(0, b as int) == s@);
    while b > 0 && is_ws_exec(s[b - 1])
        invariant
            b <= s.len(),
            trim_end(s@) == trim_end(s@.subrange(0, b as int)),
        decreases b,
    {
        let ghost t = s@.subrange(0, b as int);
        assert(t.last() == s@[b - 1]);
        assert(t.drop_last() == s@.subrange(0, b - 1));
        b -= 1;
    }
    slice_chars(s, 0, b)
}

/// `s` with every occurrence of the non-empty `p` removed, scanning left to
/// right without overlap (`str::replace(p, "")`).
pub open spec fn remove_all(s: Seq<char>, p: Seq<char>) -> Seq<char>
    decreases s.len(),
{
    if s.len() == 0 {
        s
    } else if p.len() > 0 && starts_with(s, p) {
        remove_all(s.skip(p.len() as int), p)
    } else {
        seq![s[0]] + remove_all(s.drop_first(), p)
    }
}

/// Removes every occurrence of `p` from `s`.
pub fn remove_all_exec(s: &Vec<char>, p: &Vec<char>) -> (r: Vec<char>)
    requires
        p@.len() > 0,
    ensures
        r@ == remove_all(s@, p@),
{
    let mut r: Vec<char> = Vec::new();
    let mut i: usize = 0;
    assert(s@.skip(0) == s@);
    assert(r@ + remove_all(s@, p@) == remove_all(s@, p@));
    while i < s.len()
        invariant
            i <= s.len(),
            p@.len() > 0,
            r@ + remove_all(s@.skip(i as int), p@) == remove_all(s@, p@),
        decreases s.len() - i,
    {
        let ghost rest = s@.skip(i as int);
        let m = crate::text::matches_at_exec(s, p, i);
        proof {
            if matches_at(s@, p@, i as int) {
                assert(rest.take(p@.len() as int) == s@.subrange(i as int, i + p@.len()));
            } else if p@.len() <= rest.len() {
                assert(rest.take(p@.len() as int) == s@.subrange(i as int, i + p@.len()));
            }
        }
        if m {
            assert(rest.skip(p@.len() as int) == s@.skip(i + p@.len()));
            i = i + p.len();
        } else {
            assert(rest[0] == s@[i as int]);
            assert(rest.drop_first() == s@.skip(i + 1));
            assert(r@.push(s@[i as int]) + remove_all(s@.skip(i + 1), p@) == r@ + (seq![
                s@[i as int],
            ] + remove_all(s@.skip(i + 1), p@)));
            r.push(s[i]);
            i += 1;
        }
    }
    assert(s@.skip(i as int).len() == 0);
    assert(r@ + Seq::<char>::empty() == r@);
    r
}

/// ASCII upper-case letters mapped to lower case, everything else unchanged
/// (`char::to_ascii_lowercase`).
pub open spec fn ascii_lower_char(c: char) -> char {
    if 'A' <= c <= 'Z' {
        ((c as u32) + 32) as char
    } else {
        c
    }
}

/// `str::to_ascii_lowercase`.
pub open spec fn ascii_lower(s: Seq<char>) -> Seq<char> {
    s.map_values(|c: char| ascii_lower_char(c))
}

/// Lower-cases the ASCII letters of `s`.
pub fn ascii_lower_exec(s: &Vec<char>) -> (r: Vec<char>)
    ensures
        r@ == ascii_lower(s@),
{
    let mut r: Vec<char> = Vec::new();
    let mut i: usize = 0;
    while i < s.len()
        invariant
            i <= s.len(),
            r@ == ascii_lower(s@.take(i as int)),
        decreases s.len() - i,
    {
        let c = s[i];
        let l = if 'A' <= c && c <= 'Z' {
            char_from_u32_lower(c)
        } else {
            c
        };
        r.push(l);
        assert(s@.take(i + 1) == s@.take(i as int).push(c));
        assert(ascii_lower(s@.take(i + 1)) == ascii_lower(s@.take(i as int)).push(l));
        i += 1;
    }
    assert(s@.take(s.len() as int) == s@);
    r
}

fn char_from_u32_lower(c: char) -> (l: char)
    requires
        'A' <= c <= 'Z',
    ensures
        l == ascii_lower_char(c),
{
    if c == 'A' { 'a' } else if c == 'B' { 'b' } else if c == 'C' { 'c' } else if c == 'D' { 'd' }
    else if c == 'E' { 'e' } else if c == 'F' { 'f' } else if c == 'G' { 'g' } else if c == 'H' { 'h' }
    else if c == 'I' { 'i' } else if c == 'J' { 'j' } else if c == 'K' { 'k' } else if c == 'L' { 'l' }
    else if c == 'M' { 'm' } else if c == 'N' { 'n' } else if c == 'O' { 'o' } else if c == 'P' { 'p' }
    else if c == 'Q' { 'q' } else if c == 'R' { 'r' } else if c == 'S' { 's' } else if c == 'T' { 't' }
    else if c == 'U' { 'u' } else if c == 'V' { 'v' } else if c == 'W' { 'w' } else if c == 'X' { 'x' }
    else if c == 'Y' { 'y' } else { 'z' }
}

/// The words of `ws` separated by `sep` (`[..].join(sep)`).
pub open spec fn join(ws: Seq<Seq<char>>, sep: Seq<char>) -> Seq<char>
    decreases ws.len(),
{
    if ws.len() == 0 {
        Seq::empty()
    } else if ws.len() == 1 {
        ws[0]
    } else {
        join(ws.drop_last(), sep) + sep + ws.last()
    }
}

/// Joins the words of `ws` with `sep`.
pub fn join_exec(ws: &Vec<Vec<char>>, sep: &Vec<char>) -> (r: Vec<char>)
    ensures
        r@ == join(ws@.map_values(|w: Vec<char>| w@), sep@),
{
    let ghost views = ws@.map_values(|w: Vec<char>| w@);
    let mut r: Vec<char> = Vec::new();
    let mut i: usize = 0;
    while i < ws.len()
        invariant
            i <= ws.len(),
            views == ws@.map_values(|w: Vec<char>| w@),
            r@ == join(views.take(i as int), sep@),
        decreases ws.len() - i,
    {
        assert(views.take(i + 1).drop_last() == views.take(i as int));
        assert(views.take(i + 1).last() == ws@[i as int]@);
        if i > 0 {
            crate::text::extend_chars(&mut r, sep);
        } else {
            assert(views.take(1)[0] == ws@[0]@);
        }
        crate::text::extend_chars(&mut r, &ws[i]);
        i += 1;
    }
    assert(views.take(ws.len() as int) == views);
    r
}

} // verus!
