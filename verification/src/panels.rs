//! Text shown in the dashboard panels: adapter names, the GPU-apps middle
//! column, motherboard sensor labels, the header subtitle, and the memory
//! and free-space figures.

use vstd::prelude::*;
use crate::text::{chars_of, extend_chars, extend_str, slice_chars, string_of, strip_prefix, strip_prefix_exec};
use crate::words::{
    ascii_lower, ascii_lower_exec, join, join_exec, remove_all, remove_all_exec, split_words, trim,
    trim_chars, words,
};
use crate::gpu_engine::eq_str;
use crate::numfmt::{dec, dec_exec, f64_of_u64, f64_of_u64_exec, fixed1, fixed1_of_quotient, round_half_even, tenths_half_even};
use vstd::arithmetic::power2::{lemma2_to64, lemma2_to64_rest, lemma_pow2_adds, lemma_pow2_strictly_increases, lemma_pow2_unfold, pow2};

verus! {

/// A word with the `(TM)`, `(tm)`, `(R)` and `(r)` markers removed, in that order.
pub open spec fn clean_token(t: Seq<char>) -> Seq<char> {
    remove_all(remove_all(remove_all(remove_all(t, "(TM)"@), "(tm)"@), "(R)"@), "(r)"@)
}

/// A vendor word that the adapter column drops (compared ASCII-case-insensitively).
pub open spec fn is_vendor_word(t: Seq<char>) -> bool {
    let l = ascii_lower(t);
    l == "nvidia"@ || l == "amd"@ || l == "intel"@ || l == "corporation"@
}

/// The cleaned words that survive: non-empty and not a vendor word.
pub open spec fn kept_tokens(ws: Seq<Seq<char>>) -> Seq<Seq<char>>
    decreases ws.len(),
{
    if ws.len() == 0 {
        Seq::empty()
    } else {
        let rest = kept_tokens(ws.drop_last());
        let c = clean_token(ws.last());
        if c.len() > 0 && !is_vendor_word(c) {
            rest.push(c)
        } else {
            rest
        }
    }
}

/// The adapter name with vendor words and trademark markers dropped, words
/// re-joined by single spaces; the trimmed name itself when nothing survives.
pub open spec fn short_adapter_spec(name: Seq<char>) -> Seq<char> {
    let k = kept_tokens(words(name));
    if k.len() == 0 {
        trim(name)
    } else {
        join(k, " "@)
    }
}

fn clean_token_exec(t: &Vec<char>) -> (c: Vec<char>)
    ensures
        c@ == clean_token(t@),
{
    proof {
        reveal_strlit("(TM)");
        reveal_strlit("(tm)");
        reveal_strlit("(R)");
        reveal_strlit("(r)");
    }
    let a = remove_all_exec(t, &chars_of("(TM)"));
    let b = remove_all_exec(&a, &chars_of("(tm)"));
    let c = remove_all_exec(&b, &chars_of("(R)"));
    remove_all_exec(&c, &chars_of("(r)"))
}

fn is_vendor_word_exec(t: &Vec<char>) -> (b: bool)
    ensures
        b == is_vendor_word(t@),
{
    let l = ascii_lower_exec(t);
    eq_str(&l, "nvidia") || eq_str(&l, "amd") || eq_str(&l, "intel") || eq_str(&l, "corporation")
}

/// Drop the vendor prefix from an adapter name so the model stands out in the
/// narrow middle column ("NVIDIA GeForce RTX 4070" → "GeForce RTX 4070",
/// "AMD Radeon(TM) Graphics" → "Radeon Graphics").
pub fn short_adapter(name: &str) -> (r: String)
    ensures
        r@ == short_adapter_spec(name@),
{
    let name_c = chars_of(name);
    let ws = split_words(&name_c);
    let ghost wv = words(name_c@);
    let mut kept: Vec<Vec<char>> = Vec::new();
    let mut i: usize = 0;
    while i < ws.len()
        invariant
            i <= ws.len(),
            ws@.len() == wv.len(),
            forall|k: int| 0 <= k < ws@.len() ==> (#[trigger] ws@[k])@ == wv[k],
            kept@.map_values(|w: Vec<char>| w@) == kept_tokens(wv.take(i as int)),
        decreases ws.len() - i,
    {
        let c = clean_token_exec(&ws[i]);
        assert(wv.take(i + 1).drop_last() == wv.take(i as int));
        assert(wv.take(i + 1).last() == ws@[i as int]@);
        if c.len() > 0 && !is_vendor_word_exec(&c) {
            let ghost before = kept@;
            kept.push(c);
            assert(kept@.map_values(|w: Vec<char>| w@) == before.map_values(|w: Vec<char>| w@).push(
                c@,
            ));
        }
        i += 1;
    }
    assert(wv.take(ws.len() as int) == wv);
    if kept.len() == 0 {
        string_of(&trim_chars(&name_c))
    } else {
        string_of(&join_exec(&kept, &chars_of(" ")))
    }
}

/// The engine part of the middle column: the first two engines joined by `+`.
pub open spec fn engine_part(engines: Seq<Seq<char>>) -> Seq<char> {
    if engines.len() <= 2 {
        join(engines, "+"@)
    } else {
        join(engines.take(2), "+"@)
    }
}

/// The GPU-apps middle column: the engine part, preceded by the short adapter
/// name and ` · ` when the adapter is shown and both parts are non-empty.
pub open spec fn mid_cell_spec(adapter: Seq<char>, engines: Seq<Seq<char>>, show_adapter: bool) -> Seq<char> {
    let e = engine_part(engines);
    if !show_adapter {
        e
    } else {
        let a = short_adapter_spec(adapter);
        if a.len() > 0 && e.len() > 0 {
            a + " · "@ + e
        } else if a.len() > 0 {
            a
        } else {
            e
        }
    }
}

/// Format the panel's middle column: engine type(s) always, plus the physical
/// adapter name when more than one GPU is active.
pub fn mid_cell(adapter: &str, engines: &[String], show_adapter: bool) -> (r: String)
    ensures
        r@ == mid_cell_spec(adapter@, engines@.map_values(|e: String| e@), show_adapter),
{
    let ghost ev = engines@.map_values(|e: String| e@);
    let n = if engines.len() <= 2 {
        engines.len()
    } else {
        2
    };
    let mut first: Vec<Vec<char>> = Vec::new();
    let mut i: usize = 0;
    while i < n
        invariant
            i <= n <= engines@.len(),
            ev == engines@.map_values(|e: String| e@),
            first@.map_values(|w: Vec<char>| w@) == ev.take(i as int),
            first@.len() == i,
        decreases n - i,
    {
        let ghost before = first@;
        let c = chars_of(engines[i].as_str());
        assert(c@ == ev[i as int]);
        first.push(c);
        let ghost fv = first@.map_values(|w: Vec<char>| w@);
        assert forall|j: int| 0 <= j < i + 1 implies #[trigger] fv[j] == ev.take(i + 1)[j] by {
            if j < i {
                assert(first@[j] == before[j]);
                assert(before.map_values(|w: Vec<char>| w@)[j] == ev.take(i as int)[j]);
            }
        }
        assert(first@.map_values(|w: Vec<char>| w@) =~= ev.take(i + 1));
        i += 1;
    }
    assert(ev.take(ev.len() as int) == ev);
    let engine_str = join_exec(&first, &chars_of("+"));
    if !show_adapter {
        return string_of(&engine_str);
    }
    let adapter_s = short_adapter(adapter);
    let a = chars_of(adapter_s.as_str());
    if a.len() > 0 && engine_str.len() > 0 {
        let mut out = a;
        extend_str(&mut out, " · ");
        extend_chars(&mut out, &engine_str);
        string_of(&out)
    } else if a.len() > 0 {
        adapter_s
    } else {
        string_of(&engine_str)
    }
}

/// The motherboard-panel label: `Temperature #N` → `TN`, `Fan #N` → `FN`,
/// anything else cut to its first eight characters.
pub open spec fn short_label_spec(label: Seq<char>) -> Seq<char> {
    match strip_prefix(label, "Temperature #"@) {
        Some(rest) => seq!['T'] + rest,
        None => match strip_prefix(label, "Fan #"@) {
            Some(rest) => seq!['F'] + rest,
            None => if label.len() <= 8 {
                label
            } else {
                label.take(8)
            },
        },
    }
}

/// Compact label for a motherboard sensor row.
pub fn short_label(label: &str) -> (r: String)
    ensures
        r@ == short_label_spec(label@),
{
    let l = chars_of(label);
    if let Some(rest) = strip_prefix_exec(&l, &chars_of("Temperature #")) {
        let mut out: Vec<char> = Vec::new();
        out.push('T');
        extend_chars(&mut out, &rest);
        assert(out@ == seq!['T'] + rest@);
        return string_of(&out);
    }
    if let Some(rest) = strip_prefix_exec(&l, &chars_of("Fan #")) {
        let mut out: Vec<char> = Vec::new();
        out.push('F');
        extend_chars(&mut out, &rest);
        assert(out@ == seq!['F'] + rest@);
        return string_of(&out);
    }
    if l.len() <= 8 {
        string_of(&l)
    } else {
        string_of(&slice_chars(&l, 0, 8))
    }
}

/// The header subtitle for a detected system brand key.
pub open spec fn brand_subtitle_spec(brand: Seq<char>) -> Seq<char> {
    if brand == "rog"@ || brand == "asus-rog"@ {
        "// ASUS ROG"@
    } else if brand == "asus"@ {
        "// ASUS"@
    } else if brand == "alienware"@ {
        "// ALIENWARE"@
    } else if brand == "razer"@ {
        "// RAZER"@
    } else if brand == "legion"@ {
        "// LENOVO LEGION"@
    } else if brand == "omen"@ {
        "// HP OMEN"@
    } else if brand == "predator"@ {
        "// ACER PREDATOR"@
    } else if brand == "aorus"@ {
        "// GIGABYTE AORUS"@
    } else if brand == "msi"@ {
        "// MSI"@
    } else if brand == "gigabyte"@ {
        "// GIGABYTE"@
    } else if brand == "asrock"@ {
        "// ASROCK"@
    } else if brand == "corsair"@ {
        "// CORSAIR"@
    } else if brand == "nzxt"@ {
        "// NZXT"@
    } else if brand == "intel"@ {
        "// INTEL"@
    } else if brand == "dell"@ {
        "// DELL"@
    } else if brand == "lenovo"@ {
        "// LENOVO"@
    } else if brand == "hp"@ {
        "// HP"@
    } else if brand == "acer"@ {
        "// ACER"@
    } else {
        "// GAMING RIG"@
    }
}

/// Subtitle line of the header panel.
pub fn brand_subtitle(brand: &str) -> (r: &'static str)
    ensures
        r@ == brand_subtitle_spec(brand@),
{
    let b = chars_of(brand);
    if eq_str(&b, "rog") || eq_str(&b, "asus-rog") {
        "// ASUS ROG"
    } else if eq_str(&b, "asus") {
        "// ASUS"
    } else if eq_str(&b, "alienware") {
        "// ALIENWARE"
    } else if eq_str(&b, "razer") {
        "// RAZER"
    } else if eq_str(&b, "legion") {
        "// LENOVO LEGION"
    } else if eq_str(&b, "omen") {
        "// HP OMEN"
    } else if eq_str(&b, "predator") {
        "// ACER PREDATOR"
    } else if eq_str(&b, "aorus") {
        "// GIGABYTE AORUS"
    } else if eq_str(&b, "msi") {
        "// MSI"
    } else if eq_str(&b, "gigabyte") {
        "// GIGABYTE"
    } else if eq_str(&b, "asrock") {
        "// ASROCK"
    } else if eq_str(&b, "corsair") {
        "// CORSAIR"
    } else if eq_str(&b, "nzxt") {
        "// NZXT"
    } else if eq_str(&b, "intel") {
        "// INTEL"
    } else if eq_str(&b, "dell") {
        "// DELL"
    } else if eq_str(&b, "lenovo") {
        "// LENOVO"
    } else if eq_str(&b, "hp") {
        "// HP"
    } else if eq_str(&b, "acer") {
        "// ACER"
    } else {
        "// GAMING RIG"
    }
}

/// A process's resident memory: `<mb>M` below 1024 MB, otherwise the size in
/// GB (`mb as f64 / 1024`) with one decimal, ties to even, and `G`.
pub open spec fn fmt_ram_spec(mb: nat) -> Seq<char> {
    if mb >= 1024 {
        fixed1(tenths_half_even(f64_of_u64(mb), 1024)).push('G')
    } else {
        dec(mb).push('M')
    }
}

/// Formats a memory size given in MB for the processes panel.
pub fn fmt_ram(mb: u64) -> (r: String)
    ensures
        r@ == fmt_ram_spec(mb as nat),
{
    if mb >= 1024 {
        let f = f64_of_u64_exec(mb);
        let mut v = fixed1_of_quotient(f, 1024);
        v.push('G');
        string_of(&v)
    } else {
        let mut v = dec_exec(mb as u128);
        v.push('M');
        string_of(&v)
    }
}

// ── Free disk space ─────────────────────────────────────────────────────────

/// The binary order of magnitude of `num / den`, searched from `k`: the
/// first `j >= k` (at most 64) with `num < den * 2^(j+1)`.
pub open spec fn binade_from(num: nat, den: nat, k: nat) -> nat
    decreases 64 - k,
{
    if k >= 64 || num < den * pow2(k + 1) {
        k
    } else {
        binade_from(num, den, k + 1)
    }
}

/// The exponent of the double nearest to `num / den`: its value is
/// [`double_significand`] divided by `2` to this power.
pub open spec fn double_scale(num: nat, den: nat) -> nat {
    (52 - binade_from(num, den, 0)) as nat
}

/// The 53-bit significand of the double nearest to `num / den` (ties to
/// even), for `den <= num` with a quotient below `2^52`.
pub open spec fn double_significand(num: nat, den: nat) -> nat {
    round_half_even(num * pow2(double_scale(num, den)), den) / den
}

/// Free space on a drive: `bytes as f64 / 2^30` GB, shown as terabytes with
/// one decimal from 1000 GB on (the division by 1000 rounded to the nearest
/// double), as whole gigabytes from 10 GB on, else as gigabytes with one
/// decimal; every rounding to the printed digits goes to the even neighbour
/// on ties.
pub open spec fn fmt_free_spec(bytes: nat) -> Seq<char> {
    let f = f64_of_u64(bytes);
    let g: nat = 0x4000_0000;
    if f >= 1000 * g {
        let den: nat = 1000 * g;
        fixed1(tenths_half_even(double_significand(f, den), pow2(double_scale(f, den)))).push('T')
    } else if f >= 10 * g {
        dec(round_half_even(f, g) / g).push('G')
    } else {
        fixed1(tenths_half_even(f, g)).push('G')
    }
}

/// `num / den` rounded to a whole number, ties to even.
fn round_quotient(num: u128, den: u128) -> (r: u128)
    requires
        den > 0,
        den <= 0x1_0000_0000_0000_0000,
        num <= 0x2_0000_0000_0000_0000_0000_0000_0000,
    ensures
        r as nat == round_half_even(num as nat, den as nat) / (den as nat),
        r <= num / den + 1,
{
    let q = num / den;
    let rem = num % den;
    assert(q <= num) by (nonlinear_arith)
        requires
            den >= 1,
            q == num / den,
    ;
    if 2 * rem > den || (2 * rem == den && q % 2 == 1) {
        assert(((q + 1) * den) / (den as int) == q + 1) by (nonlinear_arith)
            requires
                den > 0,
        ;
        q + 1
    } else {
        assert((q * den) / (den as int) == q) by (nonlinear_arith)
            requires
                den > 0,
        ;
        q
    }
}

/// Formats the free space of a drive for the disk panel.
#[verifier::rlimit(40)]
pub fn fmt_free(bytes: u64) -> (r: String)
    ensures
        r@ == fmt_free_spec(bytes as nat),
{
    let f = f64_of_u64_exec(bytes);
    let g: u128 = 0x4000_0000;
    if f >= 1000 * g {
        let den: u128 = 1000 * g;
        proof {
            lemma2_to64();
            lemma2_to64_rest();
        }
        // The binary order of magnitude `k` of f / den.
        let mut k: u128 = 0;
        let mut p: u128 = 1;
        assert(p == pow2(0));
        while k < 64 && den * (2 * p) <= f
            invariant
                den == 1000 * 0x4000_0000,
                f <= 0x2_0000_0000_0000_0000,
                k <= 64,
                p == pow2(k as nat),
                den * p <= f,
                p <= 0x400_0000,
                binade_from(f as nat, den as nat, 0) == binade_from(f as nat, den as nat, k as nat),
            decreases 64 - k,
        {
            proof {
                lemma_pow2_unfold((k + 1) as nat);
                assert(2 * p <= 0x400_0000) by (nonlinear_arith)
                    requires
                        den * (2 * p) <= f,
                        f <= 0x2_0000_0000_0000_0000,
                        den == 1000 * 0x4000_0000,
                ;
            }
            p = 2 * p;
            k = k + 1;
        }
        proof {
            if k >= 27 {
                lemma_pow2_strictly_increases(26, k as nat);
            }
            lemma_pow2_unfold((k + 1) as nat);
            assert(binade_from(f as nat, den as nat, k as nat) == k);
        }
        let s: u128 = 52 - k;
        let mut ps: u128 = 1;
        let mut i: u128 = 0;
        assert(ps == pow2(0));
        while i < s
            invariant
                i <= s,
                s <= 52,
                ps == pow2(i as nat),
            decreases s - i,
        {
            proof {
                lemma_pow2_unfold((i + 1) as nat);
                if i + 1 < 52 {
                    lemma_pow2_strictly_increases((i + 1) as nat, 52);
                }
                lemma2_to64_rest();
            }
            ps = 2 * ps;
            i = i + 1;
        }
        proof {
            lemma_pow2_adds((k + 1) as nat, s as nat);
            lemma2_to64_rest();
            if s < 52 {
                lemma_pow2_strictly_increases(s as nat, 52);
            }
            assert(f * ps <= 0x2_0000_0000_0000_0000 * 0x10_0000_0000_0000) by (nonlinear_arith)
                requires
                    f <= 0x2_0000_0000_0000_0000,
                    ps <= 0x10_0000_0000_0000,
            ;
            assert(f * ps < den * 0x20_0000_0000_0000) by (nonlinear_arith)
                requires
                    f < den * (2 * p),
                    (2 * p) * ps == 0x20_0000_0000_0000,
                    den > 0,
            ;
        }
        let a = f * ps;
        let m = round_quotient(a, den);
        proof {
            assert(a / den < 0x20_0000_0000_0000) by (nonlinear_arith)
                requires
                    a < den * 0x20_0000_0000_0000,
                    den > 0,
            ;
        }
        let mut v = fixed1_of_quotient(m, ps);
        v.push('T');
        string_of(&v)
    } else if f >= 10 * g {
        let u = round_quotient(f, g);
        let mut v = dec_exec(u);
        v.push('G');
        string_of(&v)
    } else {
        let mut v = fixed1_of_quotient(f, g);
        v.push('G');
        string_of(&v)
    }
}

} // verus!
