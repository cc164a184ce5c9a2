//! Per-process GPU usage: the raw `\GPU Engine(*)` samples collapsed into one
//! row per process and physical adapter.
//!
//! Utilisation values are floating point in the application, which clamps
//! each sample to `0..=100` (non-finite and negative readings count as 0)
//! and hands it here as its `f64` bit pattern. For such non-negative values
//! the bit patterns order exactly as the values do, so maxima and the row
//! order are decided on them, and the application turns the chosen bit
//! patterns back into values.

use vstd::prelude::*;
use crate::diagnostics::{lex_lt, lex_lt_exec, lemma_lex_lt_equal_or_ordered, lemma_lex_lt_irreflexive, lemma_lex_lt_transitive};
use crate::gpu_engine::{eq_str, instance_fields, owned, parse_instance, table_lookup, Luid};
use crate::numfmt::{dec, dec_exec};
use crate::text::{chars_of, extend_chars, extend_str, string_of};

verus! {

/// One PDH sample: the instance name and the clamped utilisation's bit pattern.
pub struct EngineSample {
    pub instance: String,
    pub value_key: u64,
}

/// A parsed sample: `(pid, luid, engine label, value)`.
pub type Rec = (u32, Luid, Seq<char>, u64);

/// The samples whose instance names parse, in order.
pub open spec fn parsed(ss: Seq<EngineSample>) -> Seq<Rec>
    decreases ss.len(),
{
    if ss.len() == 0 {
        Seq::empty()
    } else {
        let rest = parsed(ss.drop_last());
        match instance_fields(ss.last().instance@) {
            Some((pid, luid, e)) => rest.push((pid, luid, e, ss.last().value_key)),
            None => rest,
        }
    }
}

/// The highest value among the samples of process `pid` on adapter `luid` (0 if none).
pub open spec fn util_of(p: Seq<Rec>, pid: u32, luid: Luid) -> u64
    decreases p.len(),
{
    if p.len() == 0 {
        0
    } else {
        let u = util_of(p.drop_last(), pid, luid);
        let r = p.last();
        if r.0 == pid && r.1 == luid && r.3 > u {
            r.3
        } else {
            u
        }
    }
}

/// The highest value among the samples of engine `e` of process `pid` on adapter `luid`.
pub open spec fn engine_util(p: Seq<Rec>, pid: u32, luid: Luid, e: Seq<char>) -> u64
    decreases p.len(),
{
    if p.len() == 0 {
        0
    } else {
        let u = engine_util(p.drop_last(), pid, luid, e);
        let r = p.last();
        if r.0 == pid && r.1 == luid && r.2 == e && r.3 > u {
            r.3
        } else {
            u
        }
    }
}

/// Some sample belongs to process `pid` on adapter `luid`.
pub open spec fn has_key(p: Seq<Rec>, pid: u32, luid: Luid) -> bool {
    exists|i: int| 0 <= i < p.len() && (#[trigger] p[i]).0 == pid && p[i].1 == luid
}

/// Some sample of process `pid` on adapter `luid` is of engine `e`.
pub open spec fn has_engine(p: Seq<Rec>, pid: u32, luid: Luid, e: Seq<char>) -> bool {
    exists|i: int| 0 <= i < p.len() && (#[trigger] p[i]).0 == pid && p[i].1 == luid && p[i].2 == e
}

/// What grouping the samples `p` yields, as found in `keys` (one per process
/// and adapter), their maxima `utils`, and the per-engine entries
/// `(group, engine, max)`.
pub open spec fn grouped(
    p: Seq<Rec>,
    keys: Seq<(u32, Luid)>,
    utils: Seq<u64>,
    engines: Seq<(usize, Seq<char>, u64)>,
) -> bool {
    &&& keys.len() == utils.len()
    &&& forall|a: int, b: int| 0 <= a < b < keys.len() ==> keys[a] != keys[b]
    &&& forall|a: int|
        0 <= a < keys.len() ==> has_key(p, (#[trigger] keys[a]).0, keys[a].1) && utils[a] == util_of(
            p,
            keys[a].0,
            keys[a].1,
        )
    &&& forall|k: int| 0 <= k < p.len() ==> exists|a: int| 0 <= a < keys.len() && #[trigger] keys[a] == (
        (#[trigger] p[k]).0,
        p[k].1,
    )
    &&& forall|x: int|
        0 <= x < engines.len() ==> (#[trigger] engines[x]).0 < keys.len() && has_engine(
            p,
            keys[engines[x].0 as int].0,
            keys[engines[x].0 as int].1,
            engines[x].1,
        ) && engines[x].2 == engine_util(p, keys[engines[x].0 as int].0, keys[engines[x].0 as int].1, engines[x].1)
    &&& forall|x: int, y: int|
        0 <= x < y < engines.len() ==> !((#[trigger] engines[x]).0 == (#[trigger] engines[y]).0 && engines[x].1
            == engines[y].1)
    &&& forall|k: int|
        0 <= k < p.len() ==> exists|x: int|
            0 <= x < engines.len() && (#[trigger] engines[x]).0 < keys.len() && keys[engines[x].0 as int] == (
                (#[trigger] p[k]).0,
                p[k].1,
            ) && engines[x].1 == p[k].2
}

pub open spec fn engine_views(v: Seq<(usize, String, u64)>) -> Seq<(usize, Seq<char>, u64)> {
    v.map_values(|e: (usize, String, u64)| (e.0, e.1@, e.2))
}

proof fn lemma_parsed_step(ss: Seq<EngineSample>, s: int)
    requires
        0 <= s < ss.len(),
    ensures
        parsed(ss.take(s + 1)) == (match instance_fields(ss[s].instance@) {
            Some((pid, luid, e)) => parsed(ss.take(s)).push((pid, luid, e, ss[s].value_key)),
            None => parsed(ss.take(s)),
        }),
{
    assert(ss.take(s + 1).drop_last() =~= ss.take(s));
    assert(ss.take(s + 1).last() == ss[s]);
}

/// Groups the parsed samples by process and adapter, keeping each group's
/// maximum and each engine's maximum.
fn group_samples(samples: &Vec<EngineSample>) -> (r: (Vec<(u32, Luid)>, Vec<u64>, Vec<(usize, String, u64)>))
    ensures
        grouped(parsed(samples@), r.0@, r.1@, engine_views(r.2@)),
{
    let mut keys: Vec<(u32, Luid)> = Vec::new();
    let mut utils: Vec<u64> = Vec::new();
    let mut engines: Vec<(usize, String, u64)> = Vec::new();
    let mut s: usize = 0;
    assert(samples@.take(0) =~= Seq::<EngineSample>::empty());
    while s < samples.len()
        invariant
            s <= samples@.len(),
            grouped(parsed(samples@.take(s as int)), keys@, utils@, engine_views(engines@)),
        decreases samples.len() - s,
    {
        proof {
            lemma_parsed_step(samples@, s as int);
        }
        let ghost p0 = parsed(samples@.take(s as int));
        match parse_instance(samples[s].instance.as_str()) {
            None => {},
            Some(pi) => {
                let v = samples[s].value_key;
                let ghost rec: Rec = (pi.pid, pi.luid, pi.engine@, v);
                let ghost p1 = p0.push(rec);
                assert(p1.drop_last() =~= p0 && p1.last() == rec);
                // The group of (pid, luid), created if new.
                let mut g: usize = 0;
                while g < keys.len() && !(keys[g].0 == pi.pid && keys[g].1.0 == pi.luid.0 && keys[g].1.1 == pi.luid.1)
                    invariant
                        g <= keys@.len(),
                        forall|a: int| 0 <= a < g ==> (#[trigger] keys@[a]) != (pi.pid, pi.luid),
                    decreases keys.len() - g,
                {
                    g += 1;
                }
                let ghost keys0 = keys@;
                let ghost utils0 = utils@;
                let ghost eng0 = engine_views(engines@);
                if g == keys.len() {
                    keys.push((pi.pid, pi.luid));
                    utils.push(0);
                }
                assert(keys@[g as int] == (pi.pid, pi.luid));
                if v > utils[g] {
                    utils.set(g, v);
                }
                // The entry of the engine within that group, created if new.
                let mut x: usize = 0;
                let ename = chars_of(pi.engine.as_str());
                while x < engines.len() && !(engines[x].0 == g && eq_str(&ename, engines[x].1.as_str()))
                    invariant
                        x <= engines@.len(),
                        ename@ == pi.engine@,
                        forall|y: int| 0 <= y < x ==> !((#[trigger] engines@[y]).0 == g && engines@[y].1@ == pi.engine@),
                    decreases engines.len() - x,
                {
                    x += 1;
                }
                if x == engines.len() {
                    engines.push((g, owned(pi.engine.as_str()), 0));
                }
                let old_val = engines[x].2;
                if v > old_val {
                    let name = owned(engines[x].1.as_str());
                    engines.set(x, (g, name, v));
                }
                proof {
                    let ev = engine_views(engines@);
                    assert(ev[x as int] == (g, pi.engine@, ev[x as int].2));
                    lemma_group_step(p0, rec, keys0, utils0, eng0, keys@, utils@, ev, g as int, x as int);
                }
            },
        }
        s += 1;
    }
    assert(samples@.take(samples@.len() as int) =~= samples@);
    (keys, utils, engines)
}

#[verifier::spinoff_prover]
#[verifier::rlimit(40)]
proof fn lemma_group_step(
    p0: Seq<Rec>,
    rec: Rec,
    keys0: Seq<(u32, Luid)>,
    utils0: Seq<u64>,
    eng0: Seq<(usize, Seq<char>, u64)>,
    keys: Seq<(u32, Luid)>,
    utils: Seq<u64>,
    eng: Seq<(usize, Seq<char>, u64)>,
    g: int,
    x: int,
)
    requires
        grouped(p0, keys0, utils0, eng0),
        0 <= g <= keys0.len(),
        forall|a: int| 0 <= a < g ==> (#[trigger] keys0[a]) != (rec.0, rec.1),
        g < keys0.len() ==> keys0[g] == (rec.0, rec.1) && keys == keys0 && utils.len() == utils0.len(),
        g == keys0.len() ==> keys == keys0.push((rec.0, rec.1)) && utils.len() == utils0.len() + 1,
        forall|a: int| 0 <= a < utils.len() && a != g ==> utils[a] == utils0[a],
        utils[g] == (if rec.3 > (if g < keys0.len() { utils0[g] } else { 0 }) { rec.3 } else { if g < keys0.len() { utils0[g] } else { 0 } }),
        0 <= x <= eng0.len(),
        forall|y: int| 0 <= y < x ==> !((#[trigger] eng0[y]).0 == g && eng0[y].1 == rec.2),
        x < eng0.len() ==> eng0[x].0 == g && eng0[x].1 == rec.2 && eng.len() == eng0.len(),
        x == eng0.len() ==> eng.len() == eng0.len() + 1,
        forall|y: int| 0 <= y < eng.len() && y != x ==> eng[y] == eng0[y],
        eng[x].0 == g && eng[x].1 == rec.2,
        eng[x].2 == (if rec.3 > (if x < eng0.len() { eng0[x].2 } else { 0 }) { rec.3 } else { if x < eng0.len() { eng0[x].2 } else { 0 } }),
    ensures
        grouped(p0.push(rec), keys, utils, eng),
{
    let p1 = p0.push(rec);
    assert(p1.drop_last() =~= p0 && p1.last() == rec);
    assert(p1[p0.len() as int] == rec);
    assert forall|k: int| 0 <= k < p0.len() implies #[trigger] p1[k] == p0[k] by {}
    // A new group has seen no sample before, and its maxima start at zero.
    if g == keys0.len() {
        assert forall|k: int| 0 <= k < p0.len() implies !((#[trigger] p0[k]).0 == rec.0 && p0[k].1 == rec.1) by {
            let a = choose|a: int| 0 <= a < keys0.len() && #[trigger] keys0[a] == (p0[k].0, p0[k].1);
        }
        lemma_util_absent(p0, rec.0, rec.1);
        lemma_engine_util_absent(p0, rec.0, rec.1, rec.2);
    }
    // A new engine entry has seen no sample of its engine before.
    if x == eng0.len() {
        assert forall|k: int| 0 <= k < p0.len() implies !((#[trigger] p0[k]).0 == rec.0 && p0[k].1 == rec.1
            && p0[k].2 == rec.2) by {
            if p0[k].0 == rec.0 && p0[k].1 == rec.1 && p0[k].2 == rec.2 {
                let y = choose|y: int|
                    0 <= y < eng0.len() && (#[trigger] eng0[y]).0 < keys0.len() && keys0[eng0[y].0 as int] == (
                        p0[k].0,
                        p0[k].1,
                    ) && eng0[y].1 == p0[k].2;
                if (eng0[y].0 as int) < g {
                    assert(keys0[eng0[y].0 as int] != (rec.0, rec.1));
                } else if (eng0[y].0 as int) > g {
                    assert(keys0[g] == (rec.0, rec.1));
                }
            }
        }
        lemma_engine_util_absent(p0, rec.0, rec.1, rec.2);
    }
    // Keys stay distinct, each with its maximum.
    assert forall|a: int| 0 <= a < keys.len() implies has_key(p1, (#[trigger] keys[a]).0, keys[a].1) && utils[a]
        == util_of(p1, keys[a].0, keys[a].1) by {
        if a == g {
            assert(p1[p0.len() as int].0 == keys[a].0 && p1[p0.len() as int].1 == keys[a].1);
        } else {
            assert(keys[a] == keys0[a]);
            let i = choose|i: int| 0 <= i < p0.len() && (#[trigger] p0[i]).0 == keys0[a].0 && p0[i].1 == keys0[a].1;
            assert(p1[i] == p0[i]);
        }
    }
    assert forall|a: int, b: int| 0 <= a < b < keys.len() implies keys[a] != keys[b] by {
        if b == g && g == keys0.len() {
            assert(keys[a] == keys0[a]);
        } else {
            assert(keys[a] == keys0[a] && keys[b] == keys0[b]);
        }
    }
    assert forall|k: int| 0 <= k < p1.len() implies exists|a: int| 0 <= a < keys.len() && #[trigger] keys[a] == (
        (#[trigger] p1[k]).0,
        p1[k].1,
    ) by {
        if k == p0.len() {
            assert(keys[g] == (p1[k].0, p1[k].1));
        } else {
            assert(p1[k] == p0[k]);
            let a = choose|a: int| 0 <= a < keys0.len() && #[trigger] keys0[a] == ((#[trigger] p0[k]).0, p0[k].1);
            assert(keys[a] == keys0[a]);
        }
    }
    // Engine entries: each belongs to its group, with its maximum.
    assert forall|y: int| 0 <= y < eng.len() implies (#[trigger] eng[y]).0 < keys.len() && has_engine(
        p1,
        keys[eng[y].0 as int].0,
        keys[eng[y].0 as int].1,
        eng[y].1,
    ) && eng[y].2 == engine_util(p1, keys[eng[y].0 as int].0, keys[eng[y].0 as int].1, eng[y].1) by {
        if y == x {
            assert(keys[g] == (rec.0, rec.1));
            assert(p1[p0.len() as int].2 == eng[y].1);
        } else {
            assert(eng[y] == eng0[y]);
            let ga = eng0[y].0 as int;
            assert(keys[ga] == keys0[ga]);
            let i = choose|i: int|
                0 <= i < p0.len() && (#[trigger] p0[i]).0 == keys0[ga].0 && p0[i].1 == keys0[ga].1 && p0[i].2
                    == eng0[y].1;
            assert(p1[i] == p0[i]);
            if ga == g && eng0[y].1 == rec.2 {
                if y < x {
                } else {
                    assert(x < eng0.len());
                    assert(eng0[x].0 == eng0[y].0 && eng0[x].1 == eng0[y].1);
                }
            }
        }
    }
    assert forall|a: int, b: int| 0 <= a < b < eng.len() implies !((#[trigger] eng[a]).0 == (#[trigger] eng[b]).0
        && eng[a].1 == eng[b].1) by {
        if b == x && x == eng0.len() {
            assert(eng[a] == eng0[a]);
        } else if a == x {
            assert(eng[b] == eng0[b]);
            if x < eng0.len() {
                assert(eng0[a].0 == eng[a].0 && eng0[a].1 == eng[a].1);
            }
        } else if b == x {
            assert(eng[a] == eng0[a]);
            assert(eng0[b].0 == eng[b].0 && eng0[b].1 == eng[b].1);
        } else {
            assert(eng[a] == eng0[a] && eng[b] == eng0[b]);
        }
    }
    assert forall|k: int| 0 <= k < p1.len() implies exists|y: int|
        0 <= y < eng.len() && (#[trigger] eng[y]).0 < keys.len() && keys[eng[y].0 as int] == (
            (#[trigger] p1[k]).0,
            p1[k].1,
        ) && eng[y].1 == p1[k].2 by {
        if k == p0.len() {
            assert(eng[x].0 < keys.len() && keys[eng[x].0 as int] == (p1[k].0, p1[k].1));
        } else {
            assert(p1[k] == p0[k]);
            let y = choose|y: int|
                0 <= y < eng0.len() && (#[trigger] eng0[y]).0 < keys0.len() && keys0[eng0[y].0 as int] == (
                    (#[trigger] p0[k]).0,
                    p0[k].1,
                ) && eng0[y].1 == p0[k].2;
            if y == x {
                assert(eng[x].0 == eng0[x].0 && eng[x].1 == eng0[x].1);
            } else {
                assert(eng[y] == eng0[y]);
            }
            assert(keys[eng0[y].0 as int] == keys0[eng0[y].0 as int]);
        }
    }
}

proof fn lemma_util_absent(p: Seq<Rec>, pid: u32, luid: Luid)
    requires
        forall|k: int| 0 <= k < p.len() ==> !((#[trigger] p[k]).0 == pid && p[k].1 == luid),
    ensures
        util_of(p, pid, luid) == 0,
    decreases p.len(),
{
    if p.len() > 0 {
        assert(p.last() == p[p.len() - 1]);
        assert forall|k: int| 0 <= k < p.drop_last().len() implies !((#[trigger] p.drop_last()[k]).0 == pid
            && p.drop_last()[k].1 == luid) by {
            assert(p.drop_last()[k] == p[k]);
        }
        lemma_util_absent(p.drop_last(), pid, luid);
    }
}

proof fn lemma_engine_util_absent(p: Seq<Rec>, pid: u32, luid: Luid, e: Seq<char>)
    requires
        forall|k: int| 0 <= k < p.len() ==> !((#[trigger] p[k]).0 == pid && p[k].1 == luid && p[k].2 == e),
    ensures
        engine_util(p, pid, luid, e) == 0,
    decreases p.len(),
{
    if p.len() > 0 {
        assert(p.last() == p[p.len() - 1]);
        assert forall|k: int| 0 <= k < p.drop_last().len() implies !((#[trigger] p.drop_last()[k]).0 == pid
            && p.drop_last()[k].1 == luid && p.drop_last()[k].2 == e) by {
            assert(p.drop_last()[k] == p[k]);
        }
        lemma_engine_util_absent(p.drop_last(), pid, luid, e);
    }
}

// ── Ordering a process's engines ────────────────────────────────────────────

/// Engine `a` is listed before engine `b`: higher utilisation first, ties by name.
pub open spec fn eng_before(a: (Seq<char>, u64), b: (Seq<char>, u64)) -> bool {
    a.1 > b.1 || (a.1 == b.1 && lex_lt(a.0, b.0))
}

proof fn lemma_eng_before_transitive(a: (Seq<char>, u64), b: (Seq<char>, u64), c: (Seq<char>, u64))
    requires
        eng_before(a, b),
        eng_before(b, c),
    ensures
        eng_before(a, c),
{
    if a.1 == b.1 && b.1 == c.1 {
        lemma_lex_lt_transitive(a.0, b.0, c.0);
    }
}

proof fn lemma_eng_before_total(a: (Seq<char>, u64), b: (Seq<char>, u64))
    requires
        a.0 != b.0,
    ensures
        eng_before(a, b) || eng_before(b, a),
{
    lemma_lex_lt_equal_or_ordered(a.0, b.0);
}

pub open spec fn pair_views(v: Seq<(String, u64)>) -> Seq<(Seq<char>, u64)> {
    v.map_values(|p: (String, u64)| (p.0@, p.1))
}

/// Names are pairwise distinct.
pub open spec fn distinct_names(v: Seq<(Seq<char>, u64)>) -> bool {
    forall|i: int, j: int| 0 <= i < j < v.len() ==> (#[trigger] v[i]).0 != (#[trigger] v[j]).0
}

/// Strictly ordered by [`eng_before`].
pub open spec fn engines_sorted(v: Seq<(Seq<char>, u64)>) -> bool {
    forall|i: int, j: int| 0 <= i < j < v.len() ==> eng_before(#[trigger] v[i], #[trigger] v[j])
}

fn eng_before_exec(a: &(String, u64), b: &(String, u64)) -> (r: bool)
    ensures
        r == eng_before((a.0@, a.1), (b.0@, b.1)),
{
    if a.1 != b.1 {
        a.1 > b.1
    } else {
        let x = chars_of(a.0.as_str());
        let y = chars_of(b.0.as_str());
        lex_lt_exec(&x, &y)
    }
}

/// Sorts engines with distinct names, most used first, ties by name.
fn sort_engines(v: Vec<(String, u64)>) -> (r: Vec<(String, u64)>)
    requires
        distinct_names(pair_views(v@)),
    ensures
        pair_views(r@).to_multiset() == pair_views(v@).to_multiset(),
        engines_sorted(pair_views(r@)),
{
    broadcast use vstd::seq_lib::group_to_multiset_ensures;

    let ghost orig = pair_views(v@);
    let mut rest = v;
    let mut out: Vec<(String, u64)> = Vec::new();
    let ghost mut done: Seq<(Seq<char>, u64)> = Seq::empty();
    assert(done + pair_views(rest@) =~= orig);
    while rest.len() > 0
        invariant
            done + pair_views(rest@) == orig,
            distinct_names(orig),
            pair_views(out@).to_multiset() == done.to_multiset(),
            engines_sorted(pair_views(out@)),
        decreases rest.len(),
    {
        let x = rest.remove(0);
        let ghost xv = (x.0@, x.1);
        proof {
            assert(orig[done.len() as int] == xv);
        }
        let mut p: usize = 0;
        while p < out.len() && !eng_before_exec(&x, &out[p])
            invariant
                p <= out@.len(),
                xv == (x.0@, x.1),
                forall|j: int| 0 <= j < p ==> !eng_before(xv, #[trigger] pair_views(out@)[j]),
            decreases out.len() - p,
        {
            assert(pair_views(out@)[p as int] == (out@[p as int].0@, out@[p as int].1));
            p += 1;
        }
        assert(p < out@.len() ==> pair_views(out@)[p as int] == (out@[p as int].0@, out@[p as int].1));
        let ghost before = pair_views(out@);
        proof {
            // `x`'s name differs from every name already placed.
            assert forall|j: int| 0 <= j < before.len() implies (#[trigger] before[j]).0 != xv.0 by {
                assert(before.contains(before[j]));
                vstd::seq_lib::to_multiset_contains(before, before[j]);
                vstd::seq_lib::to_multiset_contains(done, before[j]);
                assert(done.contains(before[j]));
                let k = choose|k: int| 0 <= k < done.len() && done[k] == before[j];
                assert(orig[k] == done[k]);
            }
            assert forall|j: int| 0 <= j < p implies eng_before(#[trigger] before[j], xv) by {
                lemma_eng_before_total(before[j], xv);
            }
            assert forall|j: int| p <= j < before.len() implies eng_before(xv, #[trigger] before[j]) by {
                if j > p {
                    lemma_eng_before_transitive(xv, before[p as int], before[j]);
                }
            }
        }
        out.insert(p, x);
        proof {
            let o = pair_views(out@);
            assert(o =~= before.insert(p as int, xv));
            assert forall|i: int, j: int| 0 <= i < j < o.len() implies eng_before(#[trigger] o[i], #[trigger] o[j]) by {
                if j < p {
                    assert(o[i] == before[i] && o[j] == before[j]);
                } else if j == p {
                    assert(o[i] == before[i]);
                } else if i < p {
                    assert(o[i] == before[i] && o[j] == before[j - 1]);
                } else if i == p {
                    assert(o[j] == before[j - 1]);
                } else {
                    assert(o[i] == before[i - 1] && o[j] == before[j - 1]);
                }
            }
            let d2 = done.push(xv);
            vstd::seq_lib::to_multiset_insert(before, p as int, xv);
            vstd::seq_lib::to_multiset_build(done, xv);
            assert(o.to_multiset() == d2.to_multiset());
            assert(d2 + pair_views(rest@) =~= orig);
            done = d2;
        }
    }
    assert(done =~= orig);
    out
}

/// The `(engine, max)` entries of group `g`, in order.
pub open spec fn group_entries(v: Seq<(usize, Seq<char>, u64)>, g: usize) -> Seq<(Seq<char>, u64)>
    decreases v.len(),
{
    if v.len() == 0 {
        Seq::empty()
    } else {
        let r = group_entries(v.drop_last(), g);
        if v.last().0 == g {
            r.push((v.last().1, v.last().2))
        } else {
            r
        }
    }
}

/// Entry `x` of `v` belongs to group `g` and carries `(engine, max)` `e`.
pub open spec fn entry_of(v: Seq<(usize, Seq<char>, u64)>, x: int, g: usize, e: (Seq<char>, u64)) -> bool {
    0 <= x < v.len() && v[x].0 == g && v[x].1 == e.0 && v[x].2 == e.1
}

/// Where in `v` the `i`-th entry of group `g` sits.
pub open spec fn entry_index(v: Seq<(usize, Seq<char>, u64)>, g: usize, i: int) -> int
    decreases v.len(),
{
    if v.len() == 0 {
        0
    } else if v.last().0 == g && i == group_entries(v.drop_last(), g).len() {
        v.len() - 1
    } else {
        entry_index(v.drop_last(), g, i)
    }
}

proof fn lemma_group_entries(v: Seq<(usize, Seq<char>, u64)>, g: usize)
    requires
        forall|x: int, y: int| 0 <= x < y < v.len() ==> !((#[trigger] v[x]).0 == (#[trigger] v[y]).0 && v[x].1 == v[y].1),
    ensures
        forall|i: int|
            0 <= i < group_entries(v, g).len() ==> entry_of(v, #[trigger] entry_index(v, g, i), g, group_entries(v, g)[i]),
        forall|x: int| 0 <= x < v.len() && (#[trigger] v[x]).0 == g ==> group_entries(v, g).contains((v[x].1, v[x].2)),
        distinct_names(group_entries(v, g)),
    decreases v.len(),
{
    if v.len() > 0 {
        let w = v.drop_last();
        assert forall|x: int, y: int| 0 <= x < y < w.len() implies !((#[trigger] w[x]).0 == (#[trigger] w[y]).0
            && w[x].1 == w[y].1) by {
            assert(w[x] == v[x] && w[y] == v[y]);
        }
        lemma_group_entries(w, g);
        let last = v.last();
        assert(last == v[v.len() - 1]);
        if last.0 == g {
            assert(group_entries(v, g) == group_entries(w, g).push((last.1, last.2)));
        } else {
            assert(group_entries(v, g) == group_entries(w, g));
        }
        assert forall|i: int|
            0 <= i < group_entries(v, g).len() implies entry_of(v, #[trigger] entry_index(v, g, i), g, group_entries(v, g)[i]) by {
            if i < group_entries(w, g).len() {
                assert(group_entries(v, g)[i] == group_entries(w, g)[i]);
                let x = entry_index(w, g, i);
                assert(entry_of(w, x, g, group_entries(w, g)[i]));
                assert(v[x] == w[x]);
                assert(entry_index(v, g, i) == x);
            } else {
                assert(entry_index(v, g, i) == v.len() - 1);
            }
        }
        assert forall|x: int| 0 <= x < v.len() && (#[trigger] v[x]).0 == g implies group_entries(v, g).contains(
            (v[x].1, v[x].2),
        ) by {
            if x < v.len() - 1 {
                assert(v[x] == w[x]);
                assert(group_entries(w, g).contains((w[x].1, w[x].2)));
                let i = choose|i: int| 0 <= i < group_entries(w, g).len() && group_entries(w, g)[i] == (w[x].1, w[x].2);
                assert(group_entries(v, g)[i] == group_entries(w, g)[i]);
            } else {
                assert(group_entries(v, g)[group_entries(v, g).len() - 1] == (last.1, last.2));
            }
        }
        let ge = group_entries(v, g);
        let r = group_entries(w, g);
        assert forall|i: int, j: int| 0 <= i < j < ge.len() implies (#[trigger] ge[i]).0 != (#[trigger] ge[j]).0 by {
            if j < r.len() {
                assert(ge[i] == r[i] && ge[j] == r[j]);
            } else {
                assert(ge[i] == r[i]);
                let x = entry_index(w, g, i);
                assert(entry_of(w, x, g, r[i]));
                assert(v[x] == w[x]);
                assert(v[v.len() - 1].0 == g && v[v.len() - 1].1 == ge[j].0);
            }
        }
    } else {
        assert(group_entries(v, g).len() == 0);
    }
}

/// The `(engine, max)` entries of group `g`.
fn group_pairs(engines: &Vec<(usize, String, u64)>, g: usize) -> (r: Vec<(String, u64)>)
    ensures
        pair_views(r@) == group_entries(engine_views(engines@), g),
{
    let ghost ev = engine_views(engines@);
    let mut r: Vec<(String, u64)> = Vec::new();
    let mut i: usize = 0;
    while i < engines.len()
        invariant
            i <= engines@.len(),
            ev == engine_views(engines@),
            pair_views(r@) == group_entries(ev.take(i as int), g),
        decreases engines.len() - i,
    {
        assert(ev.take(i + 1).drop_last() =~= ev.take(i as int));
        assert(ev.take(i + 1).last() == (engines@[i as int].0, engines@[i as int].1@, engines@[i as int].2));
        if engines[i].0 == g {
            let ghost before = pair_views(r@);
            r.push((owned(engines[i].1.as_str()), engines[i].2));
            assert(pair_views(r@) =~= before.push((engines@[i as int].1@, engines@[i as int].2)));
        }
        i += 1;
    }
    assert(ev.take(engines@.len() as int) =~= ev);
    r
}

/// The engines a process used on an adapter, each named once, most used
/// first and ties by name.
pub open spec fn engines_ok(p: Seq<Rec>, pid: u32, luid: Luid, es: Seq<Seq<char>>) -> bool {
    &&& forall|e: Seq<char>| es.contains(e) <==> has_engine(p, pid, luid, e)
    &&& forall|i: int, j: int|
        0 <= i < j < es.len() ==> eng_before(
            (#[trigger] es[i], engine_util(p, pid, luid, es[i])),
            (#[trigger] es[j], engine_util(p, pid, luid, es[j])),
        )
}

/// The engine names of group `g`, most used first, ties by name.
fn group_engine_names(
    engines: &Vec<(usize, String, u64)>,
    g: usize,
    Ghost(p): Ghost<Seq<Rec>>,
    Ghost(keys): Ghost<Seq<(u32, Luid)>>,
    Ghost(utils): Ghost<Seq<u64>>,
) -> (r: Vec<String>)
    requires
        grouped(p, keys, utils, engine_views(engines@)),
        g < keys.len(),
    ensures
        engines_ok(p, keys[g as int].0, keys[g as int].1, r@.map_values(|s: String| s@)),
{
    let ghost ev = engine_views(engines@);
    proof {
        lemma_group_entries(ev, g);
    }
    let pairs = group_pairs(engines, g);
    let sorted = sort_engines(pairs);
    let mut names: Vec<String> = Vec::new();
    let mut i: usize = 0;
    let ghost sp = pair_views(sorted@);
    while i < sorted.len()
        invariant
            i <= sorted@.len(),
            sp == pair_views(sorted@),
            names@.len() == i,
            forall|j: int| 0 <= j < i ==> (#[trigger] names@[j])@ == sp[j].0,
        decreases sorted.len() - i,
    {
        names.push(owned(sorted[i].0.as_str()));
        i += 1;
    }
    proof {
        let es = names@.map_values(|s: String| s@);
        let ge = group_entries(ev, g);
        let key = keys[g as int];
        assert(sp.to_multiset() == ge.to_multiset());
        assert forall|j: int| #![trigger sp[j]] 0 <= j < sp.len() implies exists|x: int| #[trigger] entry_of(ev, x, g, sp[j]) by {
            assert(sp.contains(sp[j]));
            vstd::seq_lib::to_multiset_contains(sp, sp[j]);
            vstd::seq_lib::to_multiset_contains(ge, sp[j]);
            let i = choose|i: int| 0 <= i < ge.len() && ge[i] == sp[j];
            assert(ge[i] == sp[j]);
            let x = entry_index(ev, g, i);
            assert(entry_of(ev, x, g, sp[j]));
        }
        // Every listed engine belongs to the process, with its maximum.
        assert forall|j: int| 0 <= j < sp.len() implies has_engine(p, key.0, key.1, #[trigger] sp[j].0)
            && sp[j].1 == engine_util(p, key.0, key.1, sp[j].0) by {
            let x = choose|x: int| #[trigger] entry_of(ev, x, g, sp[j]);
        }
        assert forall|e: Seq<char>| es.contains(e) <==> has_engine(p, key.0, key.1, e) by {
            if es.contains(e) {
                let j = choose|j: int| 0 <= j < es.len() && es[j] == e;
                assert(es[j] == sp[j].0);
            }
            if has_engine(p, key.0, key.1, e) {
                let k = choose|k: int| 0 <= k < p.len() && (#[trigger] p[k]).0 == key.0 && p[k].1 == key.1 && p[k].2 == e;
                let x = choose|x: int|
                    0 <= x < ev.len() && (#[trigger] ev[x]).0 < keys.len() && keys[ev[x].0 as int] == (
                        (#[trigger] p[k]).0,
                        p[k].1,
                    ) && ev[x].1 == p[k].2;
                if ev[x].0 != g {
                    let a = ev[x].0 as int;
                    if a < g {
                        assert(keys[a] != keys[g as int]);
                    } else {
                        assert(keys[g as int] != keys[a]);
                    }
                }
                assert(ge.contains((ev[x].1, ev[x].2)));
                let i = choose|i: int| 0 <= i < ge.len() && ge[i] == (ev[x].1, ev[x].2);
                vstd::seq_lib::to_multiset_contains(ge, ge[i]);
                vstd::seq_lib::to_multiset_contains(sp, ge[i]);
                let j = choose|j: int| 0 <= j < sp.len() && sp[j] == ge[i];
                assert(es[j] == e);
            }
        }
        assert forall|i: int, j: int| 0 <= i < j < es.len() implies eng_before(
            (#[trigger] es[i], engine_util(p, key.0, key.1, es[i])),
            (#[trigger] es[j], engine_util(p, key.0, key.1, es[j])),
        ) by {
            assert(es[i] == sp[i].0 && es[j] == sp[j].0);
            assert(eng_before(sp[i], sp[j]));
        }
    }
    names
}

// ── Rows ────────────────────────────────────────────────────────────────────

/// One process's aggregate GPU usage on one physical adapter.
pub struct GpuProcessRow {
    pub pid: u32,
    pub luid: Luid,
    /// The process name, or `PID <pid>` when the process table does not know it.
    pub name: String,
    /// The highest utilisation across this process's engines on this adapter
    /// (Task Manager's "GPU %" is the max, not the sum), as its bit pattern.
    pub util_key: u64,
    /// The engines touched, most used first.
    pub engines: Vec<String>,
    /// The adapter's display name, or empty when its LUID is unknown.
    pub adapter: String,
}

pub struct RowView {
    pub pid: u32,
    pub luid: Luid,
    pub name: Seq<char>,
    pub util: u64,
    pub engines: Seq<Seq<char>>,
    pub adapter: Seq<char>,
}

impl View for GpuProcessRow {
    type V = RowView;

    open spec fn view(&self) -> RowView {
        RowView {
            pid: self.pid,
            luid: self.luid,
            name: self.name@,
            util: self.util_key,
            engines: self.engines@.map_values(|s: String| s@),
            adapter: self.adapter@,
        }
    }
}

pub open spec fn row_views(v: Seq<GpuProcessRow>) -> Seq<RowView> {
    v.map_values(|r: GpuProcessRow| r@)
}

/// The process table's entries as character sequences.
pub open spec fn procs_view(t: Seq<(u32, String)>) -> Seq<(u32, Seq<char>)> {
    t.map_values(|e: (u32, String)| (e.0, e.1@))
}

/// The adapter table's entries as character sequences.
pub open spec fn adapters_view(t: Seq<(Luid, String)>) -> Seq<(Luid, Seq<char>)> {
    t.map_values(|e: (Luid, String)| (e.0, e.1@))
}

/// The last entry of the process table for `pid`.
pub open spec fn proc_lookup(t: Seq<(u32, Seq<char>)>, pid: u32) -> Option<Seq<char>>
    decreases t.len(),
{
    if t.len() == 0 {
        None
    } else if t.last().0 == pid {
        Some(t.last().1)
    } else {
        proc_lookup(t.drop_last(), pid)
    }
}

/// The name shown for process `pid`.
pub open spec fn process_name(t: Seq<(u32, Seq<char>)>, pid: u32) -> Seq<char> {
    match proc_lookup(t, pid) {
        Some(n) => n,
        None => "PID "@ + dec(pid as nat),
    }
}

/// The name shown for adapter `luid`.
pub open spec fn adapter_name(m: Seq<(Luid, Seq<char>)>, luid: Luid) -> Seq<char> {
    match table_lookup(m, luid) {
        Some(d) => d,
        None => Seq::empty(),
    }
}

/// A row correctly summarises the samples of its process and adapter.
pub open spec fn row_ok(p: Seq<Rec>, procs: Seq<(u32, Seq<char>)>, adapters: Seq<(Luid, Seq<char>)>, r: RowView) -> bool {
    &&& has_key(p, r.pid, r.luid)
    &&& r.util == util_of(p, r.pid, r.luid)
    &&& r.name == process_name(procs, r.pid)
    &&& r.adapter == adapter_name(adapters, r.luid)
    &&& engines_ok(p, r.pid, r.luid, r.engines)
}

/// Some row belongs to process `pid` on adapter `luid`.
pub open spec fn has_row(v: Seq<RowView>, pid: u32, luid: Luid) -> bool {
    exists|i: int| 0 <= i < v.len() && (#[trigger] v[i]).pid == pid && v[i].luid == luid
}

/// Row `a` is listed before row `b`: higher utilisation first, ties by name.
pub open spec fn row_before(a: RowView, b: RowView) -> bool {
    a.util > b.util || (a.util == b.util && lex_lt(a.name, b.name))
}

/// No row is listed after one that should follow it.
pub open spec fn rows_sorted(v: Seq<RowView>) -> bool {
    forall|i: int, j: int| 0 <= i < j < v.len() ==> !row_before(#[trigger] v[j], #[trigger] v[i])
}

fn process_name_exec(t: &Vec<(u32, String)>, pid: u32) -> (r: String)
    ensures
        r@ == process_name(procs_view(t@), pid),
{
    let ghost tv = procs_view(t@);
    let mut i: usize = t.len();
    assert(tv.take(tv.len() as int) =~= tv);
    while i > 0
        invariant
            i <= t@.len(),
            tv == procs_view(t@),
            proc_lookup(tv, pid) == proc_lookup(tv.take(i as int), pid),
        decreases i,
    {
        assert(tv.take(i as int).drop_last() =~= tv.take(i - 1));
        assert(tv.take(i as int).last() == (t@[i - 1].0, t@[i - 1].1@));
        if t[i - 1].0 == pid {
            return owned(t[i - 1].1.as_str());
        }
        i -= 1;
    }
    let mut out: Vec<char> = Vec::new();
    extend_str(&mut out, "PID ");
    let d = dec_exec(pid as u128);
    extend_chars(&mut out, &d);
    string_of(&out)
}

fn adapter_name_exec(m: &Vec<(Luid, String)>, luid: Luid) -> (r: String)
    ensures
        r@ == adapter_name(adapters_view(m@), luid),
{
    let ghost mv = adapters_view(m@);
    let mut i: usize = m.len();
    assert(mv.take(mv.len() as int) =~= mv);
    while i > 0
        invariant
            i <= m@.len(),
            mv == adapters_view(m@),
            table_lookup(mv, luid) == table_lookup(mv.take(i as int), luid),
        decreases i,
    {
        assert(mv.take(i as int).drop_last() =~= mv.take(i - 1));
        assert(mv.take(i as int).last() == (m@[i - 1].0, m@[i - 1].1@));
        if m[i - 1].0.0 == luid.0 && m[i - 1].0.1 == luid.1 {
            return owned(m[i - 1].1.as_str());
        }
        i -= 1;
    }
    String::new()
}

fn row_before_exec(a: &GpuProcessRow, b: &GpuProcessRow) -> (r: bool)
    ensures
        r == row_before(a@, b@),
{
    if a.util_key != b.util_key {
        a.util_key > b.util_key
    } else {
        let x = chars_of(a.name.as_str());
        let y = chars_of(b.name.as_str());
        lex_lt_exec(&x, &y)
    }
}

proof fn lemma_row_before_transitive(a: RowView, b: RowView, c: RowView)
    requires
        row_before(a, b),
        row_before(b, c),
    ensures
        row_before(a, c),
{
    if a.util == b.util && b.util == c.util {
        lemma_lex_lt_transitive(a.name, b.name, c.name);
    }
}

/// Sorts rows by utilisation, highest first, ties by name.
fn sort_rows(v: Vec<GpuProcessRow>) -> (r: Vec<GpuProcessRow>)
    ensures
        row_views(r@).to_multiset() == row_views(v@).to_multiset(),
        rows_sorted(row_views(r@)),
{
    broadcast use vstd::seq_lib::group_to_multiset_ensures;

    let ghost orig = row_views(v@);
    let mut rest = v;
    let mut out: Vec<GpuProcessRow> = Vec::new();
    let ghost mut done: Seq<RowView> = Seq::empty();
    assert(done + row_views(rest@) =~= orig);
    while rest.len() > 0
        invariant
            done + row_views(rest@) == orig,
            row_views(out@).to_multiset() == done.to_multiset(),
            rows_sorted(row_views(out@)),
        decreases rest.len(),
    {
        let x = rest.remove(0);
        let ghost xv = x@;
        let mut p: usize = 0;
        while p < out.len() && !row_before_exec(&x, &out[p])
            invariant
                p <= out@.len(),
                xv == x@,
                forall|j: int| 0 <= j < p ==> !row_before(xv, #[trigger] row_views(out@)[j]),
            decreases out.len() - p,
        {
            assert(row_views(out@)[p as int] == out@[p as int]@);
            p += 1;
        }
        assert(p < out@.len() ==> row_views(out@)[p as int] == out@[p as int]@);
        let ghost before = row_views(out@);
        out.insert(p, x);
        proof {
            let o = row_views(out@);
            assert(o =~= before.insert(p as int, xv));
            assert forall|i: int, j: int| 0 <= i < j < o.len() implies !row_before(#[trigger] o[j], #[trigger] o[i]) by {
                if j < p {
                    assert(o[i] == before[i] && o[j] == before[j]);
                } else if j == p {
                    assert(o[i] == before[i]);
                } else if i < p {
                    assert(o[i] == before[i] && o[j] == before[j - 1]);
                } else if i == p {
                    assert(o[j] == before[j - 1]);
                    if row_before(before[j - 1], xv) {
                        lemma_row_before_transitive(before[j - 1], xv, before[p as int]);
                        if j - 1 == p {
                            lemma_lex_lt_irreflexive(xv.name);
                            lemma_lex_lt_irreflexive(before[p as int].name);
                        }
                    }
                } else {
                    assert(o[i] == before[i - 1] && o[j] == before[j - 1]);
                }
            }
            let d2 = done.push(xv);
            vstd::seq_lib::to_multiset_insert(before, p as int, xv);
            vstd::seq_lib::to_multiset_build(done, xv);
            assert(o.to_multiset() == d2.to_multiset());
            assert(d2 + row_views(rest@) =~= orig);
            done = d2;
        }
    }
    assert(done =~= orig);
    out
}

/// Collapses the raw samples into one row per `(pid, adapter)`: each row
/// carries the highest utilisation across the process's engines on that
/// adapter, the engines it touched (most used first, ties by name), the
/// process name from `proc_names` (or `PID <pid>`), and the adapter name from
/// `luid_map` (or empty). Samples whose instance names do not parse are
/// skipped. Rows come highest utilisation first, ties by name.
pub fn aggregate(samples: &Vec<EngineSample>, proc_names: &Vec<(u32, String)>, luid_map: &Vec<(Luid, String)>) -> (rows: Vec<GpuProcessRow>)
    ensures
        forall|i: int| 0 <= i < rows@.len() ==> row_ok(
            parsed(samples@),
            procs_view(proc_names@),
            adapters_view(luid_map@),
            #[trigger] rows@[i]@,
        ),
        forall|i: int, j: int| 0 <= i < j < rows@.len() ==> !((#[trigger] rows@[i]).pid == (#[trigger] rows@[j]).pid
            && rows@[i].luid == rows@[j].luid),
        forall|k: int| 0 <= k < parsed(samples@).len() ==> has_row(
            row_views(rows@),
            (#[trigger] parsed(samples@)[k]).0,
            parsed(samples@)[k].1,
        ),
        rows_sorted(row_views(rows@)),
{
    broadcast use vstd::seq_lib::group_to_multiset_ensures;

    let ghost p = parsed(samples@);
    let ghost procs = procs_view(proc_names@);
    let ghost adapters = adapters_view(luid_map@);
    let (keys, utils, engines) = group_samples(samples);
    let mut built: Vec<GpuProcessRow> = Vec::new();
    let mut a: usize = 0;
    while a < keys.len()
        invariant
            a <= keys@.len(),
            grouped(p, keys@, utils@, engine_views(engines@)),
            p == parsed(samples@),
            procs == procs_view(proc_names@),
            adapters == adapters_view(luid_map@),
            built@.len() == a,
            forall|b: int| 0 <= b < a ==> row_ok(p, procs, adapters, #[trigger] built@[b]@) && built@[b].pid
                == keys@[b].0 && built@[b].luid == keys@[b].1,
        decreases keys.len() - a,
    {
        let (pid, luid) = keys[a];
        let names = group_engine_names(&engines, a, Ghost(p), Ghost(keys@), Ghost(utils@));
        let row = GpuProcessRow {
            pid,
            luid,
            name: process_name_exec(proc_names, pid),
            util_key: utils[a],
            engines: names,
            adapter: adapter_name_exec(luid_map, luid),
        };
        assert(keys@[a as int] == (pid, luid));
        built.push(row);
        a += 1;
    }
    let ghost bv = row_views(built@);
    proof {
        // Rows of different groups differ, so no row occurs twice.
        assert forall|i: int, j: int| 0 <= i < bv.len() && 0 <= j < bv.len() && i != j implies bv[i] != bv[j] by {
            assert(bv[i] == built@[i]@ && bv[j] == built@[j]@);
            if i < j {
                assert(keys@[i] != keys@[j]);
            } else {
                assert(keys@[j] != keys@[i]);
            }
        }
        assert(bv.no_duplicates());
        bv.lemma_multiset_has_no_duplicates();
    }
    let rows = sort_rows(built);
    proof {
        let rv = row_views(rows@);
        assert(rv.to_multiset() == bv.to_multiset());
        // Each output row is one of the built rows.
        assert forall|i: int| 0 <= i < rv.len() implies exists|b: int| 0 <= b < bv.len() && bv[b] == #[trigger] rv[i] by {
            assert(rv.contains(rv[i]));
            vstd::seq_lib::to_multiset_contains(rv, rv[i]);
            vstd::seq_lib::to_multiset_contains(bv, rv[i]);
        }
        assert forall|i: int| 0 <= i < rows@.len() implies row_ok(p, procs, adapters, #[trigger] rows@[i]@) by {
            assert(rv[i] == rows@[i]@);
            let b = choose|b: int| 0 <= b < bv.len() && bv[b] == rv[i];
            assert(bv[b] == built@[b]@);
        }
        assert(rv.to_multiset().len() == bv.to_multiset().len());
        assert forall|x: RowView| rv.to_multiset().contains(x) implies rv.to_multiset().count(x) == 1 by {}
        rv.lemma_multiset_has_no_duplicates_conv();
        assert forall|i: int, j: int| 0 <= i < j < rows@.len() implies !((#[trigger] rows@[i]).pid == (
        #[trigger] rows@[j]).pid && rows@[i].luid == rows@[j].luid) by {
            assert(rv[i] == rows@[i]@ && rv[j] == rows@[j]@);
            if rows@[i].pid == rows@[j].pid && rows@[i].luid == rows@[j].luid {
                let bi = choose|b: int| 0 <= b < bv.len() && bv[b] == rv[i];
                let bj = choose|b: int| 0 <= b < bv.len() && bv[b] == rv[j];
                assert(bv[bi] == built@[bi]@ && bv[bj] == built@[bj]@);
                if bi < bj {
                    assert(keys@[bi] != keys@[bj]);
                } else if bj < bi {
                    assert(keys@[bj] != keys@[bi]);
                }
                assert(rv[i] == rv[j]);
            }
        }
        // Every parsed sample's process and adapter has a row.
        assert forall|k: int| 0 <= k < p.len() implies has_row(rv, (#[trigger] p[k]).0, p[k].1) by {
            let b = choose|b: int| 0 <= b < keys@.len() && #[trigger] keys@[b] == (p[k].0, p[k].1);
            assert(bv[b] == built@[b]@);
            assert(bv.contains(bv[b]));
            vstd::seq_lib::to_multiset_contains(bv, bv[b]);
            vstd::seq_lib::to_multiset_contains(rv, bv[b]);
            let i = choose|i: int| 0 <= i < rv.len() && rv[i] == bv[b];
            assert(rv[i] == rows@[i]@);
            assert(rv[i].pid == p[k].0 && rv[i].luid == p[k].1);
        }
    }
    rows
}

proof fn lemma_util_bounds(p: Seq<Rec>, pid: u32, luid: Luid)
    ensures
        forall|e: Seq<char>| #[trigger] engine_util(p, pid, luid, e) <= util_of(p, pid, luid),
        has_key(p, pid, luid) ==> exists|e: Seq<char>|
            has_engine(p, pid, luid, e) && #[trigger] engine_util(p, pid, luid, e) == util_of(p, pid, luid),
    decreases p.len(),
{
    if p.len() > 0 {
        let q = p.drop_last();
        let r = p.last();
        lemma_util_bounds(q, pid, luid);
        assert(r == p[p.len() - 1]);
        assert forall|k: int| 0 <= k < q.len() implies #[trigger] q[k] == p[k] by {}
        assert forall|e: Seq<char>| #[trigger] engine_util(p, pid, luid, e) <= util_of(p, pid, luid) by {
            assert(engine_util(q, pid, luid, e) <= util_of(q, pid, luid));
        }
        if has_key(p, pid, luid) {
            if r.0 == pid && r.1 == luid && r.3 > util_of(q, pid, luid) {
                assert(engine_util(q, pid, luid, r.2) <= util_of(q, pid, luid));
                assert(p[p.len() - 1].0 == pid && p[p.len() - 1].1 == luid && p[p.len() - 1].2 == r.2);
                assert(has_engine(p, pid, luid, r.2) && engine_util(p, pid, luid, r.2) == util_of(p, pid, luid));
            } else if has_key(q, pid, luid) {
                let e = choose|e: Seq<char>| has_engine(q, pid, luid, e) && #[trigger] engine_util(q, pid, luid, e) == util_of(q, pid, luid);
                let i = choose|i: int| 0 <= i < q.len() && (#[trigger] q[i]).0 == pid && q[i].1 == luid && q[i].2 == e;
                assert(p[i] == q[i]);
                assert(has_engine(p, pid, luid, e) && engine_util(p, pid, luid, e) == util_of(p, pid, luid));
            } else {
                let i = choose|i: int| 0 <= i < p.len() && (#[trigger] p[i]).0 == pid && p[i].1 == luid;
                if i < q.len() {
                    assert(q[i] == p[i]);
                }
                assert(r.0 == pid && r.1 == luid);
                assert forall|k: int| 0 <= k < q.len() implies !((#[trigger] q[k]).0 == pid && q[k].1 == luid) by {}
                lemma_util_absent(q, pid, luid);
                lemma_engine_util_absent(q, pid, luid, r.2);
                assert(p[p.len() - 1].0 == pid && p[p.len() - 1].1 == luid && p[p.len() - 1].2 == r.2);
                assert(has_engine(p, pid, luid, r.2) && engine_util(p, pid, luid, r.2) == util_of(p, pid, luid));
            }
        }
    }
}

/// A row's utilisation is that of its busiest engine, which is listed first:
/// the process's GPU share is the maximum over its engines, never their sum.
pub proof fn lemma_row_util_is_busiest_engine(p: Seq<Rec>, pid: u32, luid: Luid, es: Seq<Seq<char>>)
    requires
        has_key(p, pid, luid),
        engines_ok(p, pid, luid, es),
    ensures
        es.len() > 0,
        engine_util(p, pid, luid, es[0]) == util_of(p, pid, luid),
        forall|j: int| 0 <= j < es.len() ==> engine_util(p, pid, luid, #[trigger] es[j]) <= util_of(p, pid, luid),
{
    lemma_util_bounds(p, pid, luid);
    let e = choose|e: Seq<char>| has_engine(p, pid, luid, e) && #[trigger] engine_util(p, pid, luid, e) == util_of(p, pid, luid);
    assert(es.contains(e));
    let j = choose|j: int| 0 <= j < es.len() && es[j] == e;
    if j > 0 {
        assert(eng_before((es[0], engine_util(p, pid, luid, es[0])), (es[j], engine_util(p, pid, luid, es[j]))));
    }
    assert(engine_util(p, pid, luid, es[0]) <= util_of(p, pid, luid));
}

} // verus!
