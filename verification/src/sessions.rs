//! Recording sessions: the index entries, the changes made to the index
//! (pin, rename, end, delete, prune), its newest-first order, session ids and
//! names, the CSV file names, and the import of pre-session daily logs.
//!
//! Reading and writing the index and the CSV files is done by the application;
//! the library decides what the index becomes.

use vstd::prelude::*;
use crate::calendar::{day_number, hm_from_unix, valid_date, ymd_from_unix};
use crate::gpu_engine::eq_str;
use crate::numfmt::{dec, dec_exec};
use crate::text::{chars_of, extend_chars, extend_str, slice_chars, starts_with, string_of};

verus! {

/// One session's index entry. `S` is the summary statistics type, which the
/// library carries along without reading.
pub struct SessionMeta<S> {
    pub id: String,
    pub name: String,
    pub start_unix: u64,
    pub end_unix: Option<u64>,
    pub pinned: bool,
    /// True for sessions imported from a pre-session-model daily-rolling log —
    /// the id encodes the source file's date and is never written to directly.
    pub legacy: bool,
    pub summary: S,
}

/// A session entry with its strings taken as character sequences.
pub struct SessionView<S> {
    pub id: Seq<char>,
    pub name: Seq<char>,
    pub start_unix: u64,
    pub end_unix: Option<u64>,
    pub pinned: bool,
    pub legacy: bool,
    pub summary: S,
}

impl<S> View for SessionMeta<S> {
    type V = SessionView<S>;

    open spec fn view(&self) -> SessionView<S> {
        SessionView {
            id: self.id@,
            name: self.name@,
            start_unix: self.start_unix,
            end_unix: self.end_unix,
            pinned: self.pinned,
            legacy: self.legacy,
            summary: self.summary,
        }
    }
}

impl<S> SessionMeta<S> {
    /// A session is active (still recording) until it has an end time.
    pub fn is_active(&self) -> (b: bool)
        ensures
            b == self.end_unix is None,
    {
        self.end_unix.is_none()
    }
}

/// The entries of an index, as views.
pub open spec fn views<S>(v: Seq<SessionMeta<S>>) -> Seq<SessionView<S>> {
    v.map_values(|s: SessionMeta<S>| s@)
}

/// Position of the first entry with id `id`.
pub open spec fn first_with_id<S>(v: Seq<SessionView<S>>, id: Seq<char>) -> Option<int>
    decreases v.len(),
{
    if v.len() == 0 {
        None
    } else if v.last().id == id && first_with_id(v.drop_last(), id) is None {
        Some(v.len() - 1)
    } else {
        first_with_id(v.drop_last(), id)
    }
}

proof fn lemma_first_with_id<S>(v: Seq<SessionView<S>>, id: Seq<char>)
    ensures
        first_with_id(v, id) matches Some(i) ==> 0 <= i < v.len() && v[i].id == id && forall|j: int|
            0 <= j < i ==> (#[trigger] v[j]).id != id,
        first_with_id(v, id) is None ==> forall|j: int| 0 <= j < v.len() ==> (#[trigger] v[j]).id
            != id,
    decreases v.len(),
{
    if v.len() > 0 {
        lemma_first_with_id(v.drop_last(), id);
        assert forall|j: int| 0 <= j < v.len() - 1 implies v[j] == v.drop_last()[j] by {}
    }
}

/// Finds the first entry with id `id`.
pub fn position_of_id<S>(sessions: &Vec<SessionMeta<S>>, id: &str) -> (r: Option<usize>)
    ensures
        r matches Some(i) ==> i < sessions@.len() && first_with_id(views(sessions@), id@) == Some(
            i as int,
        ),
        r is None ==> first_with_id(views(sessions@), id@) is None,
{
    let ghost v = views(sessions@);
    proof {
        lemma_first_with_id(v, id@);
    }
    let mut i: usize = 0;
    while i < sessions.len()
        invariant
            i <= sessions.len(),
            v == views(sessions@),
            v.len() == sessions@.len(),
            forall|j: int| 0 <= j < i ==> (#[trigger] v[j]).id != id@,
        decreases sessions.len() - i,
    {
        assert(v[i as int] == sessions@[i as int]@);
        let cid = chars_of(sessions[i].id.as_str());
        if eq_str(&cid, id) {
            proof {
                lemma_first_with_id(v, id@);
                assert(v[i as int].id == id@);
                match first_with_id(v, id@) {
                    Some(k) => {
                        if k < i {
                            assert(v[k].id != id@);
                        } else if k > i {
                            assert(v[i as int].id != id@);
                        }
                    },
                    None => {
                        assert(v[i as int].id != id@);
                    },
                }
            }
            return Some(i);
        }
        i += 1;
    }
    proof {
        match first_with_id(v, id@) {
            Some(k) => {},
            None => {},
        }
    }
    None
}

/// `v` with the entry at `i` replaced by `e` — everything else untouched.
pub open spec fn replace_at<S>(v: Seq<SessionView<S>>, i: Option<int>, e: spec_fn(SessionView<S>) -> SessionView<S>) -> Seq<SessionView<S>> {
    match i {
        Some(k) => v.update(k, e(v[k])),
        None => v,
    }
}

/// The index after pinning or unpinning the first session with id `id`.
pub open spec fn with_pinned<S>(v: Seq<SessionView<S>>, id: Seq<char>, pinned: bool) -> Seq<SessionView<S>> {
    replace_at(v, first_with_id(v, id), |s: SessionView<S>| SessionView { pinned: pinned, ..s })
}

/// The index after renaming the first session with id `id`.
pub open spec fn with_name<S>(v: Seq<SessionView<S>>, id: Seq<char>, name: Seq<char>) -> Seq<SessionView<S>> {
    replace_at(v, first_with_id(v, id), |s: SessionView<S>| SessionView { name: name, ..s })
}

/// The index after ending the first session with id `id` at `end_unix`.
pub open spec fn with_end<S>(v: Seq<SessionView<S>>, id: Seq<char>, end_unix: u64) -> Seq<SessionView<S>> {
    replace_at(v, first_with_id(v, id), |s: SessionView<S>| SessionView { end_unix: Some(end_unix), ..s })
}

/// Pins or unpins the session with id `id`. Returns whether it was found — the
/// index only needs saving then.
pub fn set_session_pinned<S>(sessions: &mut Vec<SessionMeta<S>>, id: &str, pinned: bool) -> (found: bool)
    ensures
        found == first_with_id(views(old(sessions)@), id@) is Some,
        views(final(sessions)@) == with_pinned(views(old(sessions)@), id@, pinned),
{
    match position_of_id(sessions, id) {
        Some(i) => {
            sessions[i].pinned = pinned;
            assert(views(sessions@) =~= with_pinned(views(old(sessions)@), id@, pinned));
            true
        },
        None => {
            assert(views(sessions@) =~= with_pinned(views(old(sessions)@), id@, pinned));
            false
        },
    }
}

/// Renames the session with id `id`. Returns whether it was found.
pub fn rename_session<S>(sessions: &mut Vec<SessionMeta<S>>, id: &str, name: String) -> (found: bool)
    ensures
        found == first_with_id(views(old(sessions)@), id@) is Some,
        views(final(sessions)@) == with_name(views(old(sessions)@), id@, name@),
{
    match position_of_id(sessions, id) {
        Some(i) => {
            sessions[i].name = name;
            assert(views(sessions@) =~= with_name(views(old(sessions)@), id@, name@));
            true
        },
        None => {
            assert(views(sessions@) =~= with_name(views(old(sessions)@), id@, name@));
            false
        },
    }
}

/// Sets the end time of the session with id `id`; returns its position, or
/// `None` when no session has that id.
pub fn end_session<S>(sessions: &mut Vec<SessionMeta<S>>, id: &str, end_unix: u64) -> (r: Option<usize>)
    ensures
        r matches Some(i) ==> first_with_id(views(old(sessions)@), id@) == Some(i as int),
        r is None ==> first_with_id(views(old(sessions)@), id@) is None,
        views(final(sessions)@) == with_end(views(old(sessions)@), id@, end_unix),
{
    match position_of_id(sessions, id) {
        Some(i) => {
            sessions[i].end_unix = Some(end_unix);
            assert(views(sessions@) =~= with_end(views(old(sessions)@), id@, end_unix));
            Some(i)
        },
        None => {
            assert(views(sessions@) =~= with_end(views(old(sessions)@), id@, end_unix));
            None
        },
    }
}

/// Removes the session with id `id` from the index and returns it.
pub fn delete_session<S>(sessions: &mut Vec<SessionMeta<S>>, id: &str) -> (r: Option<SessionMeta<S>>)
    ensures
        match first_with_id(views(old(sessions)@), id@) {
            Some(i) => r matches Some(m) && m@ == views(old(sessions)@)[i] && views(final(sessions)@)
                == views(old(sessions)@).remove(i),
            None => r is None && views(final(sessions)@) == views(old(sessions)@),
        },
{
    match position_of_id(sessions, id) {
        Some(i) => {
            let m = sessions.remove(i);
            assert(views(sessions@) =~= views(old(sessions)@).remove(i as int));
            Some(m)
        },
        None => None,
    }
}

/// Pin and rename touch different fields of the same entry, so applying them
/// in either order gives the same index — neither update can be lost.
pub proof fn lemma_pin_and_rename_commute<S>(v: Seq<SessionView<S>>, id: Seq<char>, pinned: bool, name: Seq<char>)
    ensures
        with_pinned(with_name(v, id, name), id, pinned) == with_name(with_pinned(v, id, pinned), id, name),
{
    lemma_first_with_id(v, id);
    let a = with_name(v, id, name);
    let b = with_pinned(v, id, pinned);
    lemma_same_ids_same_first(v, a, id);
    lemma_same_ids_same_first(v, b, id);
    assert(with_pinned(a, id, pinned) =~= with_name(b, id, name));
}

proof fn lemma_same_ids_same_first<S>(v: Seq<SessionView<S>>, w: Seq<SessionView<S>>, id: Seq<char>)
    requires
        v.len() == w.len(),
        forall|j: int| 0 <= j < v.len() ==> (#[trigger] v[j]).id == w[j].id,
    ensures
        first_with_id(v, id) == first_with_id(w, id),
    decreases v.len(),
{
    if v.len() > 0 {
        lemma_same_ids_same_first(v.drop_last(), w.drop_last(), id);
        assert(v.last() == v[v.len() - 1]);
        assert(w.last() == w[w.len() - 1]);
    }
}

// ── Order ───────────────────────────────────────────────────────────────────

/// Newest first: start times never increase along the index.
pub open spec fn newest_first<S>(v: Seq<SessionView<S>>) -> bool {
    forall|i: int, j: int| 0 <= i < j < v.len() ==> v[i].start_unix >= v[j].start_unix
}

/// The entries of `v` that started at `k`, in index order.
pub open spec fn started_at<S>(v: Seq<SessionView<S>>, k: u64) -> Seq<SessionView<S>>
    decreases v.len(),
{
    if v.len() == 0 {
        Seq::empty()
    } else {
        let rest = started_at(v.drop_last(), k);
        if v.last().start_unix == k {
            rest.push(v.last())
        } else {
            rest
        }
    }
}

proof fn lemma_started_at_concat<S>(a: Seq<SessionView<S>>, b: Seq<SessionView<S>>, k: u64)
    ensures
        started_at(a + b, k) == started_at(a, k) + started_at(b, k),
    decreases b.len(),
{
    if b.len() == 0 {
        assert(a + b =~= a);
        assert(started_at(a, k) + started_at(b, k) =~= started_at(a, k));
    } else {
        lemma_started_at_concat(a, b.drop_last(), k);
        assert((a + b).drop_last() =~= a + b.drop_last());
        assert((a + b).last() == b.last());
        if b.last().start_unix == k {
            assert(started_at(a, k) + started_at(b.drop_last(), k).push(b.last()) =~= (
            started_at(a, k) + started_at(b.drop_last(), k)).push(b.last()));
        }
    }
}

proof fn lemma_started_at_none<S>(b: Seq<SessionView<S>>, k: u64)
    requires
        forall|j: int| 0 <= j < b.len() ==> (#[trigger] b[j]).start_unix != k,
    ensures
        started_at(b, k) == Seq::<SessionView<S>>::empty(),
    decreases b.len(),
{
    if b.len() > 0 {
        lemma_started_at_none(b.drop_last(), k);
        assert(b.last() == b[b.len() - 1]);
    }
}

proof fn lemma_started_at_single<S>(x: SessionView<S>, k: u64)
    ensures
        started_at(seq![x], k) == (if x.start_unix == k { seq![x] } else { Seq::<SessionView<S>>::empty() }),
{
    reveal_with_fuel(started_at, 2);
    assert(seq![x].drop_last() =~= Seq::<SessionView<S>>::empty());
    assert(seq![x].last() == x);
    if x.start_unix == k {
        assert(Seq::<SessionView<S>>::empty().push(x) =~= seq![x]);
    }
}

/// Inserting `xv` after every entry that started no earlier than it, and before
/// every entry that started later, keeps the order and appends `xv` to the
/// entries of its own start time.
proof fn lemma_insert_keeps_order<S>(before: Seq<SessionView<S>>, done: Seq<SessionView<S>>, p: int, xv: SessionView<S>)
    requires
        0 <= p <= before.len(),
        newest_first(before),
        forall|k: u64| #[trigger] started_at(before, k) == started_at(done, k),
        forall|j: int| 0 <= j < p ==> (#[trigger] before[j]).start_unix >= xv.start_unix,
        forall|j: int| p <= j < before.len() ==> (#[trigger] before[j]).start_unix < xv.start_unix,
    ensures
        newest_first(before.insert(p, xv)),
        forall|k: u64| #[trigger] started_at(before.insert(p, xv), k) == started_at(done.push(xv), k),
{
    let a = before.take(p);
    let b = before.skip(p);
    let o = before.insert(p, xv);
    assert(before =~= a + b);
    assert(o =~= a + seq![xv] + b);
    let d2 = done.push(xv);
    assert(d2.drop_last() =~= done);
    assert(d2.last() == xv);
    assert forall|k: u64| #[trigger] started_at(o, k) == started_at(d2, k) by {
        lemma_started_at_concat(a + seq![xv], b, k);
        lemma_started_at_concat(a, seq![xv], k);
        lemma_started_at_concat(a, b, k);
        lemma_started_at_single(xv, k);
        assert(started_at(before, k) == started_at(done, k));
        if xv.start_unix == k {
            assert forall|j: int| 0 <= j < b.len() implies (#[trigger] b[j]).start_unix != k by {
                assert(b[j] == before[p + j]);
            }
            lemma_started_at_none(b, k);
            assert(started_at(a, k) + seq![xv] =~= started_at(a, k).push(xv));
            assert(started_at(a, k) + Seq::<SessionView<S>>::empty() =~= started_at(a, k));
        } else {
            assert(started_at(a, k) + Seq::<SessionView<S>>::empty() =~= started_at(a, k));
        }
    }
    assert forall|i: int, j: int| 0 <= i < j < o.len() implies o[i].start_unix >= o[j].start_unix by {
        if j < p {
            assert(o[i] == before[i] && o[j] == before[j]);
        } else if j == p {
            assert(o[i] == before[i]);
        } else if i < p {
            assert(o[i] == before[i] && o[j] == before[j - 1]);
        } else if i == p {
            assert(o[j] == before[j - 1]);
        } else {
            assert(o[i] == before[i - 1] && o[j] == before[j - 1]);
        }
    }
}

/// Sorts the index newest first (by start time, descending). The sort is
/// stable: sessions with the same start time keep their relative order, so
/// the result is the one sequence that is newest first and lists, for every
/// start time, the same sessions in the same order as the input.
pub fn sort_newest_first<S>(sessions: Vec<SessionMeta<S>>) -> (r: Vec<SessionMeta<S>>)
    ensures
        r@.len() == sessions@.len(),
        newest_first(views(r@)),
        forall|k: u64| #[trigger] started_at(views(r@), k) == started_at(views(sessions@), k),
{
    let ghost orig = views(sessions@);
    let mut rest = sessions;
    let mut out: Vec<SessionMeta<S>> = Vec::new();
    let ghost mut done: Seq<SessionView<S>> = Seq::empty();
    assert(done + views(rest@) =~= orig);
    while rest.len() > 0
        invariant
            done + views(rest@) == orig,
            out@.len() == done.len(),
            newest_first(views(out@)),
            forall|k: u64| #[trigger] started_at(views(out@), k) == started_at(done, k),
        decreases rest.len(),
    {
        let x = rest.remove(0);
        let ghost xv = x@;
        let mut p: usize = 0;
        while p < out.len() && out[p].start_unix >= x.start_unix
            invariant
                p <= out@.len(),
                forall|j: int| 0 <= j < p ==> (#[trigger] out@[j]).start_unix >= x.start_unix,
            decreases out.len() - p,
        {
            p += 1;
        }
        let ghost before = views(out@);
        proof {
            // Everything from `p` on started strictly earlier than `x`.
            assert forall|j: int| p <= j < before.len() implies (#[trigger] before[j]).start_unix
                < xv.start_unix by {
                if p < before.len() {
                    assert(before[p as int].start_unix < xv.start_unix);
                    if j > p {
                        assert(before[p as int].start_unix >= before[j].start_unix);
                    }
                }
            }
        }
        out.insert(p, x);
        proof {
            assert(views(out@) =~= before.insert(p as int, xv));
            lemma_insert_keeps_order(before, done, p as int, xv);
            let d2 = done.push(xv);
            assert(d2 + views(rest@) =~= orig);
            done = d2;
        }
    }
    assert(done =~= orig);
    out
}

// ── Retention ───────────────────────────────────────────────────────────────

/// A finished session whose end lies more than `days` days before `now`.
pub open spec fn expired<S>(s: SessionView<S>, now: u64, days: u32) -> bool {
    match s.end_unix {
        Some(end) => (if now >= end { now - end } else { 0 }) > days * 86400,
        None => false,
    }
}

/// Pruning deletes exactly the expired sessions that are not pinned.
pub open spec fn prunable<S>(s: SessionView<S>, now: u64, days: u32) -> bool {
    expired(s, now, days) && !s.pinned
}

/// The entries of `v` that pruning keeps (`keep == true`) or removes, in order.
pub open spec fn prune_split<S>(v: Seq<SessionView<S>>, now: u64, days: u32, keep: bool) -> Seq<SessionView<S>>
    decreases v.len(),
{
    if v.len() == 0 {
        Seq::empty()
    } else {
        let rest = prune_split(v.drop_last(), now, days, keep);
        if prunable(v.last(), now, days) != keep {
            rest.push(v.last())
        } else {
            rest
        }
    }
}

/// Splits the index into the sessions to keep and the finished, unpinned
/// sessions whose end is more than `days` days before `now` (whose files the
/// caller deletes). Both keep the index order.
pub fn prune_old_sessions<S>(sessions: Vec<SessionMeta<S>>, now: u64, days: u32) -> (r: (Vec<SessionMeta<S>>, Vec<SessionMeta<S>>))
    ensures
        views(r.0@) == prune_split(views(sessions@), now, days, true),
        views(r.1@) == prune_split(views(sessions@), now, days, false),
{
    let ghost orig = views(sessions@);
    let cutoff: u64 = days as u64 * 86400;
    let mut rest = sessions;
    let mut kept: Vec<SessionMeta<S>> = Vec::new();
    let mut removed: Vec<SessionMeta<S>> = Vec::new();
    let ghost mut done: Seq<SessionView<S>> = Seq::empty();
    assert(done + views(rest@) =~= orig);
    while rest.len() > 0
        invariant
            cutoff == days * 86400,
            done + views(rest@) == orig,
            views(kept@) == prune_split(done, now, days, true),
            views(removed@) == prune_split(done, now, days, false),
        decreases rest.len(),
    {
        let s = rest.remove(0);
        let is_expired = match s.end_unix {
            Some(end) => {
                let age = if now >= end {
                    now - end
                } else {
                    0
                };
                age > cutoff
            },
            None => false,
        };
        proof {
            let d2 = done.push(s@);
            assert(d2.drop_last() =~= done);
            assert(d2.last() == s@);
            assert(d2 + views(rest@) =~= orig);
            done = d2;
        }
        if is_expired && !s.pinned {
            let ghost before = removed@;
            removed.push(s);
            assert(views(removed@) =~= views(before).push(removed@.last()@));
        } else {
            let ghost before = kept@;
            kept.push(s);
            assert(views(kept@) =~= views(before).push(kept@.last()@));
        }
    }
    assert(done =~= orig);
    (kept, removed)
}

/// Pruning never deletes a pinned or a still-recording session: every such
/// entry of the index is among those kept.
pub proof fn lemma_prune_keeps_pinned_and_active<S>(v: Seq<SessionView<S>>, now: u64, days: u32, i: int)
    requires
        0 <= i < v.len(),
        v[i].pinned || v[i].end_unix is None,
    ensures
        prune_split(v, now, days, true).contains(v[i]),
    decreases v.len(),
{
    if i < v.len() - 1 {
        lemma_prune_keeps_pinned_and_active(v.drop_last(), now, days, i);
        let k = choose|k: int| 0 <= k < prune_split(v.drop_last(), now, days, true).len()
            && prune_split(v.drop_last(), now, days, true)[k] == v.drop_last()[i];
        let rest = prune_split(v.drop_last(), now, days, true);
        if prunable(v.last(), now, days) != true {
            assert(rest.push(v.last())[k] == rest[k]);
        }
    } else {
        let rest = prune_split(v.drop_last(), now, days, true);
        assert(rest.push(v.last())[rest.len() as int] == v[i]);
    }
}

/// Pruning partitions the index: every entry is either kept or removed.
pub proof fn lemma_prune_partitions<S>(v: Seq<SessionView<S>>, now: u64, days: u32)
    ensures
        prune_split(v, now, days, true).len() + prune_split(v, now, days, false).len() == v.len(),
    decreases v.len(),
{
    if v.len() > 0 {
        lemma_prune_partitions(v.drop_last(), now, days);
    }
}

} // verus!