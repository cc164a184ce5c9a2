//! The GPU section of the diagnostics dump: the raw `\GPU Engine(*)` PDH
//! instances, sorted by name, and the DXGI adapter list — and reading the
//! instance names back out of such a dump.
//!
//! Querying PDH and DXGI are Windows calls made by the application, which hands
//! the results here; utilisation values arrive already rendered (`{:.2}`).

use vstd::prelude::*;
use crate::gpu_engine::{owned, AdapterDesc};
use crate::numfmt::{dec, dec_exec, hex, hex_exec};
use crate::session_names::{pad0, pad0_exec};
use crate::csv::free_of;
use crate::debug::{lemma_written_lines_read_back, lines_exec, plain_line, str_lines, written_lines};
use crate::text::{
    find_from, lemma_find_from_skip, matches_at,
    chars_of, extend_chars, extend_str, split_once, split_once_exec, starts_with, starts_with_exec,
    string_of,
};
use crate::words::{is_ws, lemma_trim_end_prefix, trim_end, trim_end_chars};

verus! {

// ── String order ────────────────────────────────────────────────────────────

/// `a` sorts strictly before `b` in `str` order: lexicographic by character
/// (code point), a proper prefix first.
pub open spec fn lex_lt(a: Seq<char>, b: Seq<char>) -> bool
    decreases a.len(),
{
    if a.len() == 0 {
        b.len() > 0
    } else if b.len() == 0 {
        false
    } else if a[0] != b[0] {
        (a[0] as int) < (b[0] as int)
    } else {
        lex_lt(a.drop_first(), b.drop_first())
    }
}

/// No string sorts before itself.
pub proof fn lemma_lex_lt_irreflexive(a: Seq<char>)
    ensures
        !lex_lt(a, a),
    decreases a.len(),
{
    if a.len() > 0 {
        lemma_lex_lt_irreflexive(a.drop_first());
    }
}

/// The string order is transitive.
pub proof fn lemma_lex_lt_transitive(a: Seq<char>, b: Seq<char>, c: Seq<char>)
    requires
        lex_lt(a, b),
        lex_lt(b, c),
    ensures
        lex_lt(a, c),
    decreases a.len(),
{
    if a.len() > 0 && a[0] == b[0] && b[0] == c[0] {
        lemma_lex_lt_transitive(a.drop_first(), b.drop_first(), c.drop_first());
    }
}

/// Whether `a` sorts strictly before `b`.
pub fn lex_lt_exec(a: &Vec<char>, b: &Vec<char>) -> (r: bool)
    ensures
        r == lex_lt(a@, b@),
{
    let mut i: usize = 0;
    assert(a@.skip(0) =~= a@ && b@.skip(0) =~= b@);
    while i < a.len() && i < b.len() && a[i] == b[i]
        invariant
            i <= a.len(),
            i <= b.len(),
            lex_lt(a@, b@) == lex_lt(a@.skip(i as int), b@.skip(i as int)),
        decreases a.len() - i,
    {
        assert(a@.skip(i as int).drop_first() =~= a@.skip(i + 1));
        assert(b@.skip(i as int).drop_first() =~= b@.skip(i + 1));
        i += 1;
    }
    if i == a.len() {
        i < b.len()
    } else if i == b.len() {
        false
    } else {
        a[i] < b[i]
    }
}

fn name_before(x: &Vec<char>, item: &(String, String)) -> (b: bool)
    ensures
        b == lex_lt(x@, item.0@),
{
    let name = chars_of(item.0.as_str());
    lex_lt_exec(x, &name)
}

// ── Sorting the PDH instances by name ───────────────────────────────────────

/// A PDH instance: its name and its rendered value.
pub open spec fn item_views(v: Seq<(String, String)>) -> Seq<(Seq<char>, Seq<char>)> {
    v.map_values(|p: (String, String)| (p.0@, p.1@))
}

/// Names never decrease along `v`.
pub open spec fn sorted_by_name(v: Seq<(Seq<char>, Seq<char>)>) -> bool {
    forall|i: int, j: int| 0 <= i < j < v.len() ==> !lex_lt(v[j].0, v[i].0)
}

/// The entries of `v` named `k`, in order.
pub open spec fn named(v: Seq<(Seq<char>, Seq<char>)>, k: Seq<char>) -> Seq<(Seq<char>, Seq<char>)>
    decreases v.len(),
{
    if v.len() == 0 {
        Seq::empty()
    } else {
        let rest = named(v.drop_last(), k);
        if v.last().0 == k {
            rest.push(v.last())
        } else {
            rest
        }
    }
}

proof fn lemma_named_concat(a: Seq<(Seq<char>, Seq<char>)>, b: Seq<(Seq<char>, Seq<char>)>, k: Seq<char>)
    ensures
        named(a + b, k) == named(a, k) + named(b, k),
    decreases b.len(),
{
    if b.len() == 0 {
        assert(a + b =~= a);
        assert(named(a, k) + named(b, k) =~= named(a, k));
    } else {
        lemma_named_concat(a, b.drop_last(), k);
        assert((a + b).drop_last() =~= a + b.drop_last());
        assert((a + b).last() == b.last());
        if b.last().0 == k {
            assert(named(a, k) + named(b.drop_last(), k).push(b.last()) =~= (named(a, k) + named(
                b.drop_last(),
                k,
            )).push(b.last()));
        }
    }
}

proof fn lemma_named_none(b: Seq<(Seq<char>, Seq<char>)>, k: Seq<char>)
    requires
        forall|j: int| 0 <= j < b.len() ==> (#[trigger] b[j]).0 != k,
    ensures
        named(b, k) == Seq::<(Seq<char>, Seq<char>)>::empty(),
    decreases b.len(),
{
    if b.len() > 0 {
        lemma_named_none(b.drop_last(), k);
        assert(b.last() == b[b.len() - 1]);
    }
}

proof fn lemma_named_single(x: (Seq<char>, Seq<char>), k: Seq<char>)
    ensures
        named(seq![x], k) == (if x.0 == k { seq![x] } else { Seq::<(Seq<char>, Seq<char>)>::empty() }),
{
    reveal_with_fuel(named, 2);
    assert(seq![x].drop_last() =~= Seq::<(Seq<char>, Seq<char>)>::empty());
    assert(seq![x].last() == x);
    if x.0 == k {
        assert(Seq::<(Seq<char>, Seq<char>)>::empty().push(x) =~= seq![x]);
    }
}

proof fn lemma_insert_by_name(
    before: Seq<(Seq<char>, Seq<char>)>,
    done: Seq<(Seq<char>, Seq<char>)>,
    p: int,
    x: (Seq<char>, Seq<char>),
)
    requires
        0 <= p <= before.len(),
        sorted_by_name(before),
        forall|k: Seq<char>| #[trigger] named(before, k) == named(done, k),
        forall|j: int| 0 <= j < p ==> !lex_lt(x.0, (#[trigger] before[j]).0),
        p < before.len() ==> lex_lt(x.0, before[p].0),
    ensures
        sorted_by_name(before.insert(p, x)),
        forall|k: Seq<char>| #[trigger] named(before.insert(p, x), k) == named(done.push(x), k),
{
    let a = before.take(p);
    let b = before.skip(p);
    let o = before.insert(p, x);
    assert(before =~= a + b);
    assert(o =~= a + seq![x] + b);
    // Everything from `p` on sorts strictly after `x`.
    assert forall|j: int| p <= j < before.len() implies lex_lt(x.0, (#[trigger] before[j]).0) by {
        if j > p {
            if !lex_lt(x.0, before[j].0) {
                if lex_lt(before[j].0, x.0) {
                    lemma_lex_lt_transitive(before[j].0, x.0, before[p].0);
                } else {
                    // Neither sorts before the other: they are equal strings.
                    lemma_lex_lt_equal_or_ordered(x.0, before[j].0);
                }
            }
        }
    }
    let d2 = done.push(x);
    assert(d2.drop_last() =~= done);
    assert(d2.last() == x);
    assert forall|k: Seq<char>| #[trigger] named(o, k) == named(d2, k) by {
        lemma_named_concat(a + seq![x], b, k);
        lemma_named_concat(a, seq![x], k);
        lemma_named_concat(a, b, k);
        lemma_named_single(x, k);
        assert(named(before, k) == named(done, k));
        if x.0 == k {
            assert forall|j: int| 0 <= j < b.len() implies (#[trigger] b[j]).0 != k by {
                assert(b[j] == before[p + j]);
                lemma_lex_lt_irreflexive(k);
            }
            lemma_named_none(b, k);
            assert(named(a, k) + seq![x] =~= named(a, k).push(x));
            assert(named(a, k) + Seq::<(Seq<char>, Seq<char>)>::empty() =~= named(a, k));
        } else {
            assert(named(a, k) + Seq::<(Seq<char>, Seq<char>)>::empty() =~= named(a, k));
        }
    }
    assert forall|i: int, j: int| 0 <= i < j < o.len() implies !lex_lt(o[j].0, o[i].0) by {
        if j < p {
            assert(o[i] == before[i] && o[j] == before[j]);
        } else if j == p {
            assert(o[i] == before[i]);
        } else if i < p {
            assert(o[i] == before[i] && o[j] == before[j - 1]);
            if lex_lt(before[j - 1].0, before[i].0) {
                assert(lex_lt(x.0, before[j - 1].0));
                lemma_lex_lt_transitive(x.0, before[j - 1].0, before[i].0);
            }
        } else if i == p {
            assert(o[j] == before[j - 1]);
            if lex_lt(before[j - 1].0, x.0) {
                assert(lex_lt(x.0, before[j - 1].0));
                lemma_lex_lt_transitive(x.0, before[j - 1].0, x.0);
                lemma_lex_lt_irreflexive(x.0);
            }
        } else {
            assert(o[i] == before[i - 1] && o[j] == before[j - 1]);
        }
    }
}

/// Two strings either are equal or one sorts before the other.
pub proof fn lemma_lex_lt_equal_or_ordered(a: Seq<char>, b: Seq<char>)
    ensures
        a == b || lex_lt(a, b) || lex_lt(b, a),
    decreases a.len(),
{
    if a.len() > 0 && b.len() > 0 && a[0] == b[0] {
        lemma_lex_lt_equal_or_ordered(a.drop_first(), b.drop_first());
        if a.drop_first() == b.drop_first() {
            assert(a =~= seq![a[0]] + a.drop_first());
            assert(b =~= seq![b[0]] + b.drop_first());
        }
    } else if a.len() == 0 && b.len() == 0 {
        assert(a =~= b);
    } else if a.len() > 0 && b.len() > 0 {
        assert((a[0] as int) != (b[0] as int));
    }
}

/// Sorts the instances by name (`str` order). The sort is stable: instances
/// with the same name keep their relative order, so the result is the one
/// sequence ordered by name that lists, for every name, the same entries in
/// the same order as the input.
pub fn sort_by_name(items: Vec<(String, String)>) -> (r: Vec<(String, String)>)
    ensures
        r@.len() == items@.len(),
        sorted_by_name(item_views(r@)),
        forall|k: Seq<char>| #[trigger] named(item_views(r@), k) == named(item_views(items@), k),
{
    let ghost orig = item_views(items@);
    let mut rest = items;
    let mut out: Vec<(String, String)> = Vec::new();
    let ghost mut done: Seq<(Seq<char>, Seq<char>)> = Seq::empty();
    assert(done + item_views(rest@) =~= orig);
    while rest.len() > 0
        invariant
            done + item_views(rest@) == orig,
            out@.len() == done.len(),
            sorted_by_name(item_views(out@)),
            forall|k: Seq<char>| #[trigger] named(item_views(out@), k) == named(done, k),
        decreases rest.len(),
    {
        let x = rest.remove(0);
        let ghost xv = (x.0@, x.1@);
        let xname = chars_of(x.0.as_str());
        let mut p: usize = 0;
        while p < out.len() && !name_before(&xname, &out[p])
            invariant
                p <= out@.len(),
                xname@ == xv.0,
                forall|j: int| 0 <= j < p ==> !lex_lt(xv.0, (#[trigger] item_views(out@)[j]).0),
            decreases out.len() - p,
        {
            assert(item_views(out@)[p as int] == (out@[p as int].0@, out@[p as int].1@));
            p += 1;
        }
        assert(p < out@.len() ==> item_views(out@)[p as int] == (out@[p as int].0@, out@[p as int].1@));
        let ghost before = item_views(out@);
        out.insert(p, x);
        proof {
            assert(item_views(out@) =~= before.insert(p as int, xv));
            lemma_insert_by_name(before, done, p as int, xv);
            let d2 = done.push(xv);
            assert(d2 + item_views(rest@) =~= orig);
            done = d2;
        }
    }
    assert(done =~= orig);
    out
}

// ── The report ──────────────────────────────────────────────────────────────

/// One line per PDH instance: `<name>\t<value>`.
pub open spec fn engine_lines(items: Seq<(Seq<char>, Seq<char>)>) -> Seq<char>
    decreases items.len(),
{
    if items.len() == 0 {
        Seq::empty()
    } else {
        engine_lines(items.drop_last()) + items.last().0 + seq!['\t'] + items.last().1 + seq!['\n']
    }
}

/// The line of one adapter, without its line ending:
/// `LUID=0x<HIGH:08X>_0x<LOW:08X>\tDescription=…\tDedicatedVideoMemoryMB=…\tFlags=…`,
/// the high part in two's complement.
pub open spec fn adapter_row(a: AdapterDesc) -> Seq<char> {
    "LUID=0x"@ + pad0(hex((a.luid.0 as u32) as nat), 8) + "_0x"@ + pad0(hex(a.luid.1 as nat), 8)
        + "\tDescription="@ + a.description@ + "\tDedicatedVideoMemoryMB="@ + dec(
        (a.dedicated_vram / 1_048_576) as nat,
    ) + "\tFlags="@ + dec(a.flags as nat)
}

/// One line per adapter.
pub open spec fn adapter_line(a: AdapterDesc) -> Seq<char> {
    adapter_row(a) + seq!['\n']
}

/// The lines of all adapters, in enumeration order.
pub open spec fn adapter_lines(adapters: Seq<AdapterDesc>) -> Seq<char>
    decreases adapters.len(),
{
    if adapters.len() == 0 {
        Seq::empty()
    } else {
        adapter_lines(adapters.drop_last()) + adapter_line(adapters.last())
    }
}

/// The whole GPU diagnostics text for the (already sorted) PDH instances —
/// `None` when the PDH query could not be opened — and the adapter list.
pub open spec fn report_text(engine: Option<Seq<(Seq<char>, Seq<char>)>>, adapters: Seq<AdapterDesc>) -> Seq<char> {
    "=== GPU Engine (\\GPU Engine(*)\\Utilization Percentage) ===\n"@ + match engine {
        None => "(PDH query failed to open)\n"@,
        Some(items) => (if items.len() == 0 {
            "(no instances — no GPU engine work in progress at capture time)\n"@
        } else {
            Seq::empty()
        }) + engine_lines(items),
    } + seq!['\n'] + "=== DXGI Adapters ===\n"@ + (if adapters.len() == 0 {
        "(no adapters enumerated — DXGI factory creation failed)\n"@
    } else {
        Seq::empty()
    }) + adapter_lines(adapters)
}

fn push_adapter_line(out: &mut Vec<char>, a: &AdapterDesc)
    ensures
        final(out)@ == old(out)@ + adapter_line(*a),
{
    extend_str(out, "LUID=0x");
    let high = hex_exec(a.luid.0 as u32 as u64);
    let high = pad0_exec(&high, 8);
    extend_chars(out, &high);
    extend_str(out, "_0x");
    let low = hex_exec(a.luid.1 as u64);
    let low = pad0_exec(&low, 8);
    extend_chars(out, &low);
    extend_str(out, "\tDescription=");
    extend_str(out, a.description.as_str());
    extend_str(out, "\tDedicatedVideoMemoryMB=");
    let mb = dec_exec((a.dedicated_vram / 1_048_576) as u128);
    extend_chars(out, &mb);
    extend_str(out, "\tFlags=");
    let flags = dec_exec(a.flags as u128);
    extend_chars(out, &flags);
    out.push('\n');
    assert(final(out)@ =~= old(out)@ + adapter_line(*a));
}

/// Renders the GPU diagnostics: the PDH instances (`None` when the query did
/// not open) sorted by name, then every adapter.
pub fn diagnostics_report(engine: Option<Vec<(String, String)>>, adapters: &Vec<AdapterDesc>) -> (r: String)
    ensures
        match engine {
            None => r@ == report_text(None, adapters@),
            Some(items) => exists|s: Seq<(Seq<char>, Seq<char>)>|
                #![trigger sorted_by_name(s)]
                s.len() == items@.len() && sorted_by_name(s) && (forall|k: Seq<char>|
                    #[trigger] named(s, k) == named(item_views(items@), k)) && r@ == report_text(
                    Some(s),
                    adapters@,
                ),
        },
{
    let mut out: Vec<char> = Vec::new();
    extend_str(&mut out, "=== GPU Engine (\\GPU Engine(*)\\Utilization Percentage) ===\n");
    let ghost head = out@;
    let ghost mut sorted: Seq<(Seq<char>, Seq<char>)> = Seq::empty();
    let ghost no_query = engine is None;
    match engine {
        None => {
            extend_str(&mut out, "(PDH query failed to open)\n");
        },
        Some(items) => {
            let sorted_items = sort_by_name(items);
            proof {
                sorted = item_views(sorted_items@);
            }
            if sorted_items.len() == 0 {
                extend_str(&mut out, "(no instances — no GPU engine work in progress at capture time)\n");
            } else {
                assert(out@ + Seq::<char>::empty() =~= out@);
            }
            let ghost start = out@;
            let mut i: usize = 0;
            while i < sorted_items.len()
                invariant
                    i <= sorted_items.len(),
                    sorted == item_views(sorted_items@),
                    out@ == start + engine_lines(sorted.take(i as int)),
                decreases sorted_items.len() - i,
            {
                assert(sorted.take(i + 1).drop_last() =~= sorted.take(i as int));
                extend_str(&mut out, sorted_items[i].0.as_str());
                out.push('\t');
                extend_str(&mut out, sorted_items[i].1.as_str());
                out.push('\n');
                assert(out@ =~= start + engine_lines(sorted.take(i + 1)));
                i += 1;
            }
            assert(sorted.take(sorted_items.len() as int) =~= sorted);
        },
    }
    let ghost mid = out@;
    out.push('\n');
    extend_str(&mut out, "=== DXGI Adapters ===\n");
    if adapters.len() == 0 {
        extend_str(&mut out, "(no adapters enumerated — DXGI factory creation failed)\n");
    }
    let ghost start2 = out@;
    let mut j: usize = 0;
    while j < adapters.len()
        invariant
            j <= adapters.len(),
            out@ == start2 + adapter_lines(adapters@.take(j as int)),
        decreases adapters.len() - j,
    {
        assert(adapters@.take(j + 1).drop_last() =~= adapters@.take(j as int));
        push_adapter_line(&mut out, &adapters[j]);
        assert(out@ =~= start2 + adapter_lines(adapters@.take(j + 1)));
        j += 1;
    }
    assert(adapters@.take(adapters.len() as int) =~= adapters@);
    let r = string_of(&out);
    proof {
        if no_query {
            assert(r@ =~= report_text(None, adapters@));
        } else {
            assert(r@ =~= report_text(Some(sorted), adapters@));
        }
    }
    r
}

// ── Reading a dump back ─────────────────────────────────────────────────────

/// The PDH instance names that the lines `ls` hold in a GPU Engine section,
/// reading down from the top; `in_section` tells whether such a section is
/// open. Each line is taken without trailing whitespace: a `=== GPU Engine`
/// header opens the section, any other `=== ` header closes it, and inside it
/// every non-empty line that does not start with `(` gives the text before its
/// first tab, when it has one.
pub open spec fn section_names(ls: Seq<Seq<char>>, in_section: bool) -> Seq<Seq<char>>
    decreases ls.len(),
{
    if ls.len() == 0 {
        Seq::empty()
    } else {
        let line = trim_end(ls[0]);
        let rest = ls.drop_first();
        if starts_with(line, "=== GPU Engine"@) {
            section_names(rest, true)
        } else if starts_with(line, "=== "@) {
            section_names(rest, false)
        } else if !in_section || line.len() == 0 || line[0] == '(' {
            section_names(rest, in_section)
        } else {
            match split_once(line, seq!['\t']) {
                Some(parts) => seq![parts.0] + section_names(rest, in_section),
                None => section_names(rest, in_section),
            }
        }
    }
}

/// The instance names listed in the GPU Engine section of a diagnostics dump.
pub open spec fn dump_names(text: Seq<char>) -> Seq<Seq<char>> {
    section_names(str_lines(text), false)
}

/// Pulls the instance-name column out of the GPU Engine section of a
/// diagnostics dump, ignoring the adapter section and placeholder lines.
pub fn instance_names(text: &str) -> (names: Vec<String>)
    ensures
        names@.map_values(|n: String| n@) == dump_names(text@),
{
    let cs = chars_of(text);
    let lines = lines_exec(&cs);
    let ghost ls = lines@.map_values(|w: Vec<char>| w@);
    let engine_head = chars_of("=== GPU Engine");
    let any_head = chars_of("=== ");
    let mut tab: Vec<char> = Vec::new();
    tab.push('\t');
    assert(tab@ =~= seq!['\t']);
    let mut in_section = false;
    let mut names: Vec<String> = Vec::new();
    let mut i: usize = 0;
    assert(ls.skip(0) =~= ls);
    assert(names@.map_values(|n: String| n@) + section_names(ls, false) =~= section_names(ls, false));
    while i < lines.len()
        invariant
            i <= lines.len(),
            ls == lines@.map_values(|w: Vec<char>| w@),
            ls == str_lines(text@),
            engine_head@ == "=== GPU Engine"@,
            any_head@ == "=== "@,
            tab@ == seq!['\t'],
            names@.map_values(|n: String| n@) + section_names(ls.skip(i as int), in_section)
                == section_names(ls, false),
        decreases lines.len() - i,
    {
        let line = trim_end_chars(&lines[i]);
        let ghost before = names@.map_values(|n: String| n@);
        let ghost was_in = in_section;
        proof {
            assert(ls.skip(i as int)[0] == ls[i as int]);
            assert(ls.skip(i as int).drop_first() =~= ls.skip(i + 1));
        }
        if starts_with_exec(&line, &engine_head) {
            in_section = true;
        } else if starts_with_exec(&line, &any_head) {
            in_section = false;
        } else if !in_section || line.len() == 0 || line[0] == '(' {
        } else {
            match split_once_exec(&line, &tab) {
                Some(parts) => {
                    let name = string_of(&parts.0);
                    names.push(name);
                    assert(names@.map_values(|n: String| n@) =~= before.push(name@));
                    assert(before.push(name@) + section_names(ls.skip(i + 1), in_section)
                        =~= before + (seq![name@] + section_names(ls.skip(i + 1), in_section)));
                },
                None => {},
            }
        }
        i += 1;
    }
    assert(ls.skip(lines.len() as int) =~= Seq::<Seq<char>>::empty());
    assert(names@.map_values(|n: String| n@) + Seq::<Seq<char>>::empty() =~= names@.map_values(|n: String| n@));
    names
}

// ── What a dump gives back ──────────────────────────────────────────────────

/// The line of one PDH instance in the dump, without its line ending.
pub open spec fn engine_row(x: (Seq<char>, Seq<char>)) -> Seq<char> {
    x.0 + seq!['\t'] + x.1
}

/// The instance lines of the dump, in order.
pub open spec fn engine_rows(items: Seq<(Seq<char>, Seq<char>)>) -> Seq<Seq<char>> {
    items.map_values(|x: (Seq<char>, Seq<char>)| engine_row(x))
}

/// The instance names, in order.
pub open spec fn names_of(items: Seq<(Seq<char>, Seq<char>)>) -> Seq<Seq<char>> {
    items.map_values(|x: (Seq<char>, Seq<char>)| x.0)
}

/// An instance whose line reads back as written: a name without tab or line
/// break that starts with neither `=` nor `(`, and a value without line break
/// whose last character is not whitespace.
pub open spec fn readable_instance(x: (Seq<char>, Seq<char>)) -> bool {
    &&& free_of(x.0, '\t')
    &&& free_of(x.0, '\n')
    &&& !(x.0.len() > 0 && (x.0[0] == '=' || x.0[0] == '('))
    &&& free_of(x.1, '\n')
    &&& x.1.len() > 0
    &&& !is_ws(x.1.last())
}

/// Whether the GPU Engine section is open after the lines `ls`, read from a
/// state where it is open exactly when `in_section`.
spec fn open_after(ls: Seq<Seq<char>>, in_section: bool) -> bool
    decreases ls.len(),
{
    if ls.len() == 0 {
        in_section
    } else {
        let line = trim_end(ls[0]);
        open_after(
            ls.drop_first(),
            if starts_with(line, "=== GPU Engine"@) {
                true
            } else if starts_with(line, "=== "@) {
                false
            } else {
                in_section
            },
        )
    }
}

spec fn engine_part(engine: Option<Seq<(Seq<char>, Seq<char>)>>) -> Seq<Seq<char>> {
    match engine {
        None => seq!["(PDH query failed to open)"@],
        Some(items) => (if items.len() == 0 {
            seq!["(no instances — no GPU engine work in progress at capture time)"@]
        } else {
            Seq::empty()
        }) + engine_rows(items),
    }
}

spec fn adapter_rows(adapters: Seq<AdapterDesc>) -> Seq<Seq<char>> {
    adapters.map_values(|a: AdapterDesc| adapter_row(a))
}

spec fn adapter_part(adapters: Seq<AdapterDesc>) -> Seq<Seq<char>> {
    (if adapters.len() == 0 {
        seq!["(no adapters enumerated — DXGI factory creation failed)"@]
    } else {
        Seq::empty()
    }) + adapter_rows(adapters)
}

/// The lines of the report, without their line endings.
spec fn report_lines(engine: Option<Seq<(Seq<char>, Seq<char>)>>, adapters: Seq<AdapterDesc>) -> Seq<Seq<char>> {
    seq!["=== GPU Engine (\\GPU Engine(*)\\Utilization Percentage) ==="@] + (engine_part(engine) + (
    seq![Seq::<char>::empty()] + (seq!["=== DXGI Adapters ==="@] + adapter_part(adapters))))
}

proof fn lemma_free_of_concat(a: Seq<char>, b: Seq<char>, c: char)
    requires
        free_of(a, c),
        free_of(b, c),
    ensures
        free_of(a + b, c),
{
    assert forall|k: int| 0 <= k < (a + b).len() implies (a + b)[k] != c by {
        if k >= a.len() {
            assert((a + b)[k] == b[k - a.len()]);
        }
    }
}

proof fn lemma_dec_plain(n: nat)
    ensures
        free_of(dec(n), '\n'),
        dec(n).len() > 0,
        !is_ws(dec(n).last()),
    decreases n,
{
    if n >= 10 {
        lemma_dec_plain(n / 10);
    }
}

proof fn lemma_hex_free(n: nat)
    ensures
        free_of(hex(n), '\n'),
    decreases n,
{
    if n >= 16 {
        lemma_hex_free(n / 16);
    }
}

proof fn lemma_pad0_free(s: Seq<char>, width: nat)
    requires
        free_of(s, '\n'),
    ensures
        free_of(pad0(s, width), '\n'),
{
    if s.len() < width {
        lemma_free_of_concat(Seq::new((width - s.len()) as nat, |_i: int| '0'), s, '\n');
    }
}

/// An adapter line is a plain line that starts with `L`.
proof fn lemma_adapter_row_plain(a: AdapterDesc)
    requires
        free_of(a.description@, '\n'),
    ensures
        plain_line(adapter_row(a)),
        adapter_row(a).len() > 0,
        adapter_row(a)[0] == 'L',
        !is_ws(adapter_row(a).last()),
{
    reveal_strlit("LUID=0x");
    reveal_strlit("_0x");
    reveal_strlit("\tDescription=");
    reveal_strlit("\tDedicatedVideoMemoryMB=");
    reveal_strlit("\tFlags=");
    let high = pad0(hex((a.luid.0 as u32) as nat), 8);
    let low = pad0(hex(a.luid.1 as nat), 8);
    let mb = dec((a.dedicated_vram / 1_048_576) as nat);
    let fl = dec(a.flags as nat);
    lemma_hex_free((a.luid.0 as u32) as nat);
    lemma_hex_free(a.luid.1 as nat);
    lemma_pad0_free(hex((a.luid.0 as u32) as nat), 8);
    lemma_pad0_free(hex(a.luid.1 as nat), 8);
    lemma_dec_plain((a.dedicated_vram / 1_048_576) as nat);
    lemma_dec_plain(a.flags as nat);
    let p1 = "LUID=0x"@ + high;
    lemma_free_of_concat("LUID=0x"@, high, '\n');
    let p2 = p1 + "_0x"@;
    lemma_free_of_concat(p1, "_0x"@, '\n');
    let p3 = p2 + low;
    lemma_free_of_concat(p2, low, '\n');
    let p4 = p3 + "\tDescription="@;
    lemma_free_of_concat(p3, "\tDescription="@, '\n');
    let p5 = p4 + a.description@;
    lemma_free_of_concat(p4, a.description@, '\n');
    let p6 = p5 + "\tDedicatedVideoMemoryMB="@;
    lemma_free_of_concat(p5, "\tDedicatedVideoMemoryMB="@, '\n');
    let p7 = p6 + mb;
    lemma_free_of_concat(p6, mb, '\n');
    let p8 = p7 + "\tFlags="@;
    lemma_free_of_concat(p7, "\tFlags="@, '\n');
    let p9 = p8 + fl;
    lemma_free_of_concat(p8, fl, '\n');
    assert(p9 == adapter_row(a));
    assert(p9[0] == 'L');
    assert(p9.last() == fl.last());
}

proof fn lemma_written_one(l: Seq<char>)
    ensures
        written_lines(seq![l]) == l + seq!['\n'],
{
    let one = seq![l];
    assert(one.drop_first() =~= Seq::<Seq<char>>::empty());
    assert(written_lines(Seq::<Seq<char>>::empty()) == Seq::<char>::empty());
    assert(one[0] == l);
    assert(written_lines(one) == one[0] + seq!['\n'] + written_lines(one.drop_first()));
    assert(written_lines(one) =~= l + seq!['\n']);
}

proof fn lemma_written_concat(a: Seq<Seq<char>>, b: Seq<Seq<char>>)
    ensures
        written_lines(a + b) == written_lines(a) + written_lines(b),
    decreases a.len(),
{
    if a.len() == 0 {
        assert(a + b =~= b);
        assert(written_lines(a) + written_lines(b) =~= written_lines(b));
    } else {
        lemma_written_concat(a.drop_first(), b);
        assert((a + b).drop_first() =~= a.drop_first() + b);
        assert((a + b)[0] == a[0]);
        assert(written_lines(a + b) =~= written_lines(a) + written_lines(b));
    }
}

proof fn lemma_engine_lines_written(items: Seq<(Seq<char>, Seq<char>)>)
    ensures
        engine_lines(items) == written_lines(engine_rows(items)),
    decreases items.len(),
{
    if items.len() == 0 {
        assert(engine_rows(items) =~= Seq::<Seq<char>>::empty());
    } else {
        let dl = items.drop_last();
        lemma_engine_lines_written(dl);
        let one = seq![engine_row(items.last())];
        assert(engine_rows(items) =~= engine_rows(dl) + one);
        lemma_written_concat(engine_rows(dl), one);
        lemma_written_one(engine_row(items.last()));
        assert(engine_lines(items) =~= written_lines(engine_rows(dl)) + written_lines(one));
    }
}

proof fn lemma_adapter_lines_written(adapters: Seq<AdapterDesc>)
    ensures
        adapter_lines(adapters) == written_lines(adapter_rows(adapters)),
    decreases adapters.len(),
{
    if adapters.len() == 0 {
        assert(adapter_rows(adapters) =~= Seq::<Seq<char>>::empty());
    } else {
        let dl = adapters.drop_last();
        lemma_adapter_lines_written(dl);
        let one = seq![adapter_row(adapters.last())];
        assert(adapter_rows(adapters) =~= adapter_rows(dl) + one);
        lemma_written_concat(adapter_rows(dl), one);
        lemma_written_one(adapter_row(adapters.last()));
        assert(adapter_lines(adapters) =~= written_lines(adapter_rows(dl)) + written_lines(one));
    }
}

proof fn lemma_line_literals()
    ensures
        "=== GPU Engine (\\GPU Engine(*)\\Utilization Percentage) ===\n"@
            == "=== GPU Engine (\\GPU Engine(*)\\Utilization Percentage) ==="@ + seq!['\n'],
        "=== DXGI Adapters ===\n"@ == "=== DXGI Adapters ==="@ + seq!['\n'],
        "(PDH query failed to open)\n"@ == "(PDH query failed to open)"@ + seq!['\n'],
        "(no instances — no GPU engine work in progress at capture time)\n"@
            == "(no instances — no GPU engine work in progress at capture time)"@ + seq!['\n'],
        "(no adapters enumerated — DXGI factory creation failed)\n"@
            == "(no adapters enumerated — DXGI factory creation failed)"@ + seq!['\n'],
{
    reveal_strlit("=== GPU Engine (\\GPU Engine(*)\\Utilization Percentage) ===");
    reveal_strlit("=== GPU Engine (\\GPU Engine(*)\\Utilization Percentage) ===\n");
    reveal_strlit("=== DXGI Adapters ===");
    reveal_strlit("=== DXGI Adapters ===\n");
    reveal_strlit("(PDH query failed to open)");
    reveal_strlit("(PDH query failed to open)\n");
    reveal_strlit("(no instances — no GPU engine work in progress at capture time)");
    reveal_strlit("(no instances — no GPU engine work in progress at capture time)\n");
    reveal_strlit("(no adapters enumerated — DXGI factory creation failed)");
    reveal_strlit("(no adapters enumerated — DXGI factory creation failed)\n");
    assert("=== GPU Engine (\\GPU Engine(*)\\Utilization Percentage) ===\n"@
        =~= "=== GPU Engine (\\GPU Engine(*)\\Utilization Percentage) ==="@ + seq!['\n']);
    assert("=== DXGI Adapters ===\n"@ =~= "=== DXGI Adapters ==="@ + seq!['\n']);
    assert("(PDH query failed to open)\n"@ =~= "(PDH query failed to open)"@ + seq!['\n']);
    assert("(no instances — no GPU engine work in progress at capture time)\n"@
        =~= "(no instances — no GPU engine work in progress at capture time)"@ + seq!['\n']);
    assert("(no adapters enumerated — DXGI factory creation failed)\n"@
        =~= "(no adapters enumerated — DXGI factory creation failed)"@ + seq!['\n']);
}

proof fn lemma_engine_part_written(engine: Option<Seq<(Seq<char>, Seq<char>)>>)
    ensures
        written_lines(engine_part(engine)) == match engine {
            None => "(PDH query failed to open)\n"@,
            Some(items) => (if items.len() == 0 {
                "(no instances — no GPU engine work in progress at capture time)\n"@
            } else {
                Seq::empty()
            }) + engine_lines(items),
        },
{
    lemma_line_literals();
    match engine {
        None => {
            lemma_written_one("(PDH query failed to open)"@);
        },
        Some(items) => {
            let pi = if items.len() == 0 {
                seq!["(no instances — no GPU engine work in progress at capture time)"@]
            } else {
                Seq::<Seq<char>>::empty()
            };
            assert(engine_part(engine) == pi + engine_rows(items));
            lemma_written_concat(pi, engine_rows(items));
            lemma_engine_lines_written(items);
            if items.len() == 0 {
                lemma_written_one("(no instances — no GPU engine work in progress at capture time)"@);
            } else {
                assert(written_lines(pi) == Seq::<char>::empty());
            }
        },
    }
}

proof fn lemma_adapter_part_written(adapters: Seq<AdapterDesc>)
    ensures
        written_lines(adapter_part(adapters)) == (if adapters.len() == 0 {
            "(no adapters enumerated — DXGI factory creation failed)\n"@
        } else {
            Seq::empty()
        }) + adapter_lines(adapters),
{
    lemma_line_literals();
    let ph = if adapters.len() == 0 {
        seq!["(no adapters enumerated — DXGI factory creation failed)"@]
    } else {
        Seq::<Seq<char>>::empty()
    };
    lemma_written_concat(ph, adapter_rows(adapters));
    lemma_adapter_lines_written(adapters);
    if adapters.len() == 0 {
        lemma_written_one("(no adapters enumerated — DXGI factory creation failed)"@);
    } else {
        assert(written_lines(ph) == Seq::<char>::empty());
    }
}

/// The report is its lines, each ended by `\n`.
proof fn lemma_report_written(engine: Option<Seq<(Seq<char>, Seq<char>)>>, adapters: Seq<AdapterDesc>)
    ensures
        report_text(engine, adapters) == written_lines(report_lines(engine, adapters)),
{
    let h1 = "=== GPU Engine (\\GPU Engine(*)\\Utilization Percentage) ==="@;
    let h2 = "=== DXGI Adapters ==="@;
    lemma_line_literals();
    let ep = engine_part(engine);
    let ap = adapter_part(adapters);
    let blank = seq![Seq::<char>::empty()];
    let t3 = seq![h2] + ap;
    let t2 = blank + t3;
    let t1 = ep + t2;
    lemma_written_concat(seq![h1], t1);
    lemma_written_concat(ep, t2);
    lemma_written_concat(blank, t3);
    lemma_written_concat(seq![h2], ap);
    lemma_written_one(h1);
    lemma_written_one(h2);
    lemma_written_one(Seq::<char>::empty());
    lemma_engine_part_written(engine);
    lemma_adapter_part_written(adapters);
    assert(report_text(engine, adapters) =~= written_lines(report_lines(engine, adapters)));
}

proof fn lemma_section_concat(a: Seq<Seq<char>>, b: Seq<Seq<char>>, s: bool)
    ensures
        section_names(a + b, s) == section_names(a, s) + section_names(b, open_after(a, s)),
    decreases a.len(),
{
    if a.len() == 0 {
        assert(a + b =~= b);
        assert(section_names(a, s) + section_names(b, s) =~= section_names(b, s));
    } else {
        let line = trim_end(a[0]);
        let s2 = if starts_with(line, "=== GPU Engine"@) {
            true
        } else if starts_with(line, "=== "@) {
            false
        } else {
            s
        };
        assert((a + b)[0] == a[0]);
        assert((a + b).drop_first() =~= a.drop_first() + b);
        lemma_section_concat(a.drop_first(), b, s2);
        assert(section_names(a + b, s) =~= section_names(a, s) + section_names(b, open_after(a, s)));
    }
}

/// An instance line is taken whole by `trim_end`, opens and closes nothing,
/// and gives its name.
proof fn lemma_engine_row_read(x: (Seq<char>, Seq<char>))
    requires
        readable_instance(x),
    ensures
        trim_end(engine_row(x)) == engine_row(x),
        !starts_with(engine_row(x), "=== GPU Engine"@),
        !starts_with(engine_row(x), "=== "@),
        engine_row(x).len() > 0,
        engine_row(x)[0] != '(',
        split_once(engine_row(x), seq!['\t']) == Some((x.0, x.1)),
        plain_line(engine_row(x)),
{
    reveal_strlit("=== GPU Engine");
    reveal_strlit("=== ");
    let row = engine_row(x);
    let tab = seq!['\t'];
    let n = x.0.len() as int;
    assert(row.last() == x.1.last());
    lemma_trim_end_prefix(row);
    if n > 0 {
        assert(row[0] == x.0[0]);
    } else {
        assert(row[0] == '\t');
    }
    if row.len() >= 4 {
        assert(row.take(4)[0] == row[0]);
    }
    if row.len() >= 14 {
        assert(row.take(14)[0] == row[0]);
    }
    assert forall|k: int| 0 <= k < n implies !matches_at(row, tab, k) by {
        assert(row[k] == x.0[k]);
        if matches_at(row, tab, k) {
            assert(row.subrange(k, k + 1)[0] == row[k]);
        }
    }
    lemma_find_from_skip(row, tab, 0, n);
    assert(row.subrange(n, n + 1) =~= tab);
    assert(find_from(row, tab, n) == Some(n));
    assert(row.take(n) =~= x.0);
    assert(row.skip(n + 1) =~= x.1);
    assert forall|k: int| 0 <= k < row.len() implies row[k] != '\n' by {
        if k < n {
            assert(row[k] == x.0[k]);
        } else if k > n {
            assert(row[k] == x.1[k - n - 1]);
        }
    }
}

/// Inside the GPU Engine section, instance lines give their names in order
/// and leave the section open.
proof fn lemma_rows_read(items: Seq<(Seq<char>, Seq<char>)>)
    requires
        forall|i: int| 0 <= i < items.len() ==> readable_instance(#[trigger] items[i]),
    ensures
        section_names(engine_rows(items), true) == names_of(items),
        open_after(engine_rows(items), true),
    decreases items.len(),
{
    if items.len() == 0 {
        assert(engine_rows(items) =~= Seq::<Seq<char>>::empty());
        assert(names_of(items) =~= Seq::<Seq<char>>::empty());
    } else {
        let rest = items.drop_first();
        assert forall|i: int| 0 <= i < rest.len() implies readable_instance(#[trigger] rest[i]) by {
            assert(rest[i] == items[i + 1]);
        }
        lemma_rows_read(rest);
        let rows = engine_rows(items);
        assert(rows[0] == engine_row(items[0]));
        assert(rows.drop_first() =~= engine_rows(rest));
        lemma_engine_row_read(items[0]);
        assert(names_of(items) =~= seq![items[0].0] + names_of(rest));
    }
}

/// Outside the GPU Engine section, adapter lines give nothing and keep it closed.
proof fn lemma_adapter_rows_read(adapters: Seq<AdapterDesc>)
    requires
        forall|j: int| 0 <= j < adapters.len() ==> free_of(#[trigger] adapters[j].description@, '\n'),
    ensures
        section_names(adapter_rows(adapters), false) == Seq::<Seq<char>>::empty(),
        !open_after(adapter_rows(adapters), false),
    decreases adapters.len(),
{
    if adapters.len() == 0 {
        assert(adapter_rows(adapters) =~= Seq::<Seq<char>>::empty());
    } else {
        let rest = adapters.drop_first();
        assert forall|j: int| 0 <= j < rest.len() implies free_of(#[trigger] rest[j].description@, '\n') by {
            assert(rest[j] == adapters[j + 1]);
        }
        lemma_adapter_rows_read(rest);
        let rows = adapter_rows(adapters);
        let row = adapter_row(adapters[0]);
        assert(rows[0] == row);
        assert(rows.drop_first() =~= adapter_rows(rest));
        assert(free_of(adapters[0].description@, '\n'));
        lemma_adapter_row_plain(adapters[0]);
        lemma_trim_end_prefix(row);
        reveal_strlit("=== GPU Engine");
        reveal_strlit("=== ");
        if row.len() >= 4 {
            assert(row.take(4)[0] == row[0]);
        }
        if row.len() >= 14 {
            assert(row.take(14)[0] == row[0]);
        }
    }
}

/// A placeholder line — starting with `(` — gives nothing and leaves the
/// section as it was.
proof fn lemma_placeholder_read(l: Seq<char>, s: bool)
    requires
        l.len() > 0,
        l[0] == '(',
        !is_ws(l.last()),
    ensures
        section_names(seq![l], s) == Seq::<Seq<char>>::empty(),
        open_after(seq![l], s) == s,
{
    reveal_strlit("=== GPU Engine");
    reveal_strlit("=== ");
    lemma_trim_end_prefix(l);
    let one = seq![l];
    assert(one[0] == l);
    assert(one.drop_first() =~= Seq::<Seq<char>>::empty());
    if l.len() >= 4 {
        assert(l.take(4)[0] == l[0]);
    }
    if l.len() >= 14 {
        assert(l.take(14)[0] == l[0]);
    }
    assert(trim_end(l) == l);
    assert(!starts_with(l, "=== GPU Engine"@));
    assert(!starts_with(l, "=== "@));
    assert(section_names(one.drop_first(), s) == Seq::<Seq<char>>::empty());
    assert(open_after(one.drop_first(), s) == s);
}

proof fn lemma_placeholders()
    ensures
        "(PDH query failed to open)"@.len() > 0,
        "(PDH query failed to open)"@[0] == '(',
        !is_ws("(PDH query failed to open)"@.last()),
        plain_line("(PDH query failed to open)"@),
        "(no instances — no GPU engine work in progress at capture time)"@.len() > 0,
        "(no instances — no GPU engine work in progress at capture time)"@[0] == '(',
        !is_ws("(no instances — no GPU engine work in progress at capture time)"@.last()),
        plain_line("(no instances — no GPU engine work in progress at capture time)"@),
        "(no adapters enumerated — DXGI factory creation failed)"@.len() > 0,
        "(no adapters enumerated — DXGI factory creation failed)"@[0] == '(',
        !is_ws("(no adapters enumerated — DXGI factory creation failed)"@.last()),
        plain_line("(no adapters enumerated — DXGI factory creation failed)"@),
{
    reveal_strlit("(PDH query failed to open)");
    reveal_strlit("(no instances — no GPU engine work in progress at capture time)");
    reveal_strlit("(no adapters enumerated — DXGI factory creation failed)");
}

proof fn lemma_headers()
    ensures
        plain_line("=== GPU Engine (\\GPU Engine(*)\\Utilization Percentage) ==="@),
        trim_end("=== GPU Engine (\\GPU Engine(*)\\Utilization Percentage) ==="@)
            == "=== GPU Engine (\\GPU Engine(*)\\Utilization Percentage) ==="@,
        starts_with("=== GPU Engine (\\GPU Engine(*)\\Utilization Percentage) ==="@, "=== GPU Engine"@),
        plain_line("=== DXGI Adapters ==="@),
        trim_end("=== DXGI Adapters ==="@) == "=== DXGI Adapters ==="@,
        !starts_with("=== DXGI Adapters ==="@, "=== GPU Engine"@),
        starts_with("=== DXGI Adapters ==="@, "=== "@),
        trim_end(Seq::<char>::empty()) == Seq::<char>::empty(),
        !starts_with(Seq::<char>::empty(), "=== GPU Engine"@),
        !starts_with(Seq::<char>::empty(), "=== "@),
{
    reveal_strlit("=== GPU Engine (\\GPU Engine(*)\\Utilization Percentage) ===");
    reveal_strlit("=== DXGI Adapters ===");
    reveal_strlit("=== GPU Engine");
    reveal_strlit("=== ");
    let h1 = "=== GPU Engine (\\GPU Engine(*)\\Utilization Percentage) ==="@;
    let h2 = "=== DXGI Adapters ==="@;
    lemma_trim_end_prefix(h1);
    lemma_trim_end_prefix(h2);
    assert(h1.take(14) =~= "=== GPU Engine"@);
    assert(h2.take(14)[4] == 'D');
    assert(h2.take(4) =~= "=== "@);
}

/// A diagnostics dump read back lists the instance names it was written with,
/// in the order written, and none when the PDH query did not open — for
/// instances whose lines read back as written (see [`readable_instance`]) and
/// adapter descriptions without line breaks.
pub proof fn lemma_dump_names_read_back(
    engine: Option<Seq<(Seq<char>, Seq<char>)>>,
    adapters: Seq<AdapterDesc>,
)
    requires
        engine matches Some(items) ==> forall|i: int|
            0 <= i < items.len() ==> readable_instance(#[trigger] items[i]),
        forall|j: int| 0 <= j < adapters.len() ==> free_of(#[trigger] adapters[j].description@, '\n'),
    ensures
        dump_names(report_text(engine, adapters)) == match engine {
            None => Seq::<Seq<char>>::empty(),
            Some(items) => names_of(items),
        },
{
    let h1 = "=== GPU Engine (\\GPU Engine(*)\\Utilization Percentage) ==="@;
    let h2 = "=== DXGI Adapters ==="@;
    let pf = "(PDH query failed to open)"@;
    let ni = "(no instances — no GPU engine work in progress at capture time)"@;
    let na = "(no adapters enumerated — DXGI factory creation failed)"@;
    lemma_headers();
    lemma_placeholders();
    let ep = engine_part(engine);
    let ap = adapter_part(adapters);
    let blank = seq![Seq::<char>::empty()];
    let t3 = seq![h2] + ap;
    let t2 = blank + t3;
    let t1 = ep + t2;
    let ls = seq![h1] + t1;
    assert(ls == report_lines(engine, adapters));
    lemma_report_written(engine, adapters);
    // Every line is plain, so the text splits back into exactly these lines.
    let ph = if adapters.len() == 0 { seq![na] } else { Seq::<Seq<char>>::empty() };
    assert(ap == ph + adapter_rows(adapters));
    assert forall|i: int| 0 <= i < ap.len() implies plain_line(#[trigger] ap[i]) by {
        if i >= ph.len() {
            let j = i - ph.len();
            assert(ap[i] == adapter_rows(adapters)[j]);
            assert(free_of(adapters[j].description@, '\n'));
            lemma_adapter_row_plain(adapters[j]);
        } else {
            assert(ap[i] == na);
        }
    }
    assert forall|i: int| 0 <= i < ep.len() implies plain_line(#[trigger] ep[i]) by {
        match engine {
            None => {
                assert(ep[i] == pf);
            },
            Some(items) => {
                let pi = if items.len() == 0 { seq![ni] } else { Seq::<Seq<char>>::empty() };
                assert(ep == pi + engine_rows(items));
                if i >= pi.len() {
                    let j = i - pi.len();
                    assert(ep[i] == engine_row(items[j]));
                    lemma_engine_row_read(items[j]);
                } else {
                    assert(ep[i] == ni);
                }
            },
        }
    }
    assert(plain_line(Seq::<char>::empty()));
    assert forall|i: int| 0 <= i < ls.len() implies plain_line(#[trigger] ls[i]) by {
        if i == 0 {
            assert(ls[i] == h1);
        } else if i < 1 + ep.len() {
            assert(ls[i] == ep[i - 1]);
        } else if i == 1 + ep.len() {
            assert(ls[i] == Seq::<char>::empty());
        } else if i == 2 + ep.len() {
            assert(ls[i] == h2);
        } else {
            assert(ls[i] == ap[i - 3 - ep.len()]);
        }
    }
    lemma_written_lines_read_back(ls);
    assert(str_lines(report_text(engine, adapters)) == ls);
    // Reading down: the header opens the section …
    assert(ls[0] == h1);
    assert(ls.drop_first() =~= t1);
    assert(section_names(ls, false) == section_names(t1, true));
    // … the instances give their names and leave it open …
    lemma_section_concat(ep, t2, true);
    match engine {
        None => {
            lemma_placeholder_read(pf, true);
        },
        Some(items) => {
            let pi = if items.len() == 0 { seq![ni] } else { Seq::<Seq<char>>::empty() };
            assert(ep == pi + engine_rows(items));
            lemma_section_concat(pi, engine_rows(items), true);
            if items.len() == 0 {
                lemma_placeholder_read(ni, true);
            } else {
                assert(section_names(pi, true) == Seq::<Seq<char>>::empty());
                assert(open_after(pi, true));
            }
            lemma_rows_read(items);
            assert(section_names(ep, true) =~= names_of(items));
        },
    }
    assert(open_after(ep, true));
    // … the blank line changes nothing, and the adapter header closes the section …
    assert(t2[0] == Seq::<char>::empty());
    assert(t2.drop_first() =~= t3);
    assert(section_names(t2, true) == section_names(t3, true));
    assert(t3[0] == h2);
    assert(t3.drop_first() =~= ap);
    assert(section_names(t3, true) == section_names(ap, false));
    // … where the adapter lines give nothing.
    lemma_section_concat(ph, adapter_rows(adapters), false);
    if adapters.len() == 0 {
        lemma_placeholder_read(na, false);
    } else {
        assert(section_names(ph, false) == Seq::<Seq<char>>::empty());
        assert(!open_after(ph, false));
    }
    lemma_adapter_rows_read(adapters);
    assert(section_names(ap, false) =~= Seq::<Seq<char>>::empty());
    match engine {
        None => {
            assert(section_names(ls, false) =~= Seq::<Seq<char>>::empty());
        },
        Some(items) => {
            assert(section_names(ls, false) =~= names_of(items));
        },
    }
}

/// The GPU diagnostics dump off Windows, where neither PDH nor DXGI exists:
/// one line saying so. On Windows the application queries both and renders
/// them with [`diagnostics_report`].
pub fn dump_diagnostics() -> (r: String)
    ensures
        r@ == "(GPU Engine diagnostics unavailable off Windows)\n"@,
{
    owned("(GPU Engine diagnostics unavailable off Windows)\n")
}

} // verus!
