//! Session ids, display names and CSV file names, and the import of the
//! daily-rolling logs that predate sessions (`rigstats-log-YYYY-MM-DD.csv`)
//! as read-only legacy sessions.

use vstd::prelude::*;
use crate::calendar::{day_number, hm_from_unix, valid_date, ymd_from_unix};
use crate::debug::system_clock;
use crate::numfmt::{dec, dec_exec};
use crate::sessions::{views, SessionMeta, SessionView};
use crate::text::{
    chars_of, ends_with, ends_with_exec, extend_chars, extend_str, starts_with, starts_with_exec,
    string_of, trim_end_all, trim_end_all_exec, trim_start_all, trim_start_all_exec,
};

verus! {

/// `s` padded on the left with zeros to at least `width` characters (`{:0width$}`).
pub open spec fn pad0(s: Seq<char>, width: nat) -> Seq<char> {
    if s.len() >= width {
        s
    } else {
        Seq::new((width - s.len()) as nat, |_i: int| '0') + s
    }
}

/// Pads `v` on the left with zeros to at least `width` characters.
pub fn pad0_exec(v: &Vec<char>, width: usize) -> (r: Vec<char>)
    ensures
        r@ == pad0(v@, width as nat),
{
    let mut r: Vec<char> = Vec::new();
    if v.len() < width {
        let n = width - v.len();
        let mut i: usize = 0;
        while i < n
            invariant
                i <= n,
                r@ == Seq::new(i as nat, |_i: int| '0'),
            decreases n - i,
        {
            r.push('0');
            i += 1;
            assert(r@ =~= Seq::new(i as nat, |_i: int| '0'));
        }
    }
    extend_chars(&mut r, v);
    assert(r@ =~= pad0(v@, width as nat));
    r
}

/// `n` in decimal, zero-padded to `width` digits.
fn padded_dec(n: u64, width: usize) -> (r: Vec<char>)
    ensures
        r@ == pad0(dec(n as nat), width as nat),
{
    let d = dec_exec(n as u128);
    pad0_exec(&d, width)
}

/// The text `Session YYYY-MM-DD HH:MM` for the given date and time of day.
pub open spec fn session_name_text(y: nat, m: nat, d: nat, h: nat, mi: nat) -> Seq<char> {
    "Session "@ + pad0(dec(y), 4) + seq!['-'] + pad0(dec(m), 2) + seq!['-'] + pad0(dec(d), 2)
        + seq![' '] + pad0(dec(h), 2) + seq![':'] + pad0(dec(mi), 2)
}

/// Default display name for a session started at `start_unix`, e.g.
/// "Session 2026-08-22 14:32" (UTC): the calendar date whose day number since
/// 1970-01-01 is `start_unix / 86400`, and the hour and minute within that day.
pub fn default_session_name(start_unix: u64) -> (r: String)
    ensures
        exists|y: int, m: int, d: int|
            #![trigger day_number(y, m, d)]
            y >= 1970 && valid_date(y, m, d) && day_number(y, m, d) == start_unix / 86400
                && r@ == session_name_text(
                (y as u32) as nat,
                m as nat,
                d as nat,
                ((start_unix % 86400) / 3600) as nat,
                ((start_unix % 3600) / 60) as nat,
            ),
{
    let (y, m, d) = ymd_from_unix(start_unix);
    let (h, mi) = hm_from_unix(start_unix);
    let mut out: Vec<char> = Vec::new();
    extend_str(&mut out, "Session ");
    let part = padded_dec(y as u64, 4);
    extend_chars(&mut out, &part);
    out.push('-');
    let part = padded_dec(m as u64, 2);
    extend_chars(&mut out, &part);
    out.push('-');
    let part = padded_dec(d as u64, 2);
    extend_chars(&mut out, &part);
    out.push(' ');
    let part = padded_dec(h as u64, 2);
    extend_chars(&mut out, &part);
    out.push(':');
    let part = padded_dec(mi as u64, 2);
    extend_chars(&mut out, &part);
    let r = string_of(&out);
    proof {
        let yy = choose|yy: int|
            #![trigger day_number(yy, m as int, d as int)]
            yy >= 1970 && y == yy as u32 && valid_date(yy, m as int, d as int) && day_number(
                yy,
                m as int,
                d as int,
            ) == start_unix / 86400;
        assert(r@ =~= session_name_text(
            (yy as u32) as nat,
            m as nat,
            d as nat,
            ((start_unix % 86400) / 3600) as nat,
            ((start_unix % 3600) / 60) as nat,
        ));
        assert(day_number(yy, m as int, d as int) == start_unix / 86400);
    }
    r
}

// ── Session ids ─────────────────────────────────────────────────────────────

/// The id of a session started at `secs` seconds and `millis` milliseconds
/// after the epoch: the seconds followed by the milliseconds as three digits.
pub open spec fn session_id_text(secs: nat, millis: nat) -> Seq<char> {
    dec(secs) + pad0(dec(millis), 3)
}

/// The session id for a clock reading (`{secs}{millis:03}`).
pub fn session_id_from(secs: u64, millis: u32) -> (r: String)
    ensures
        r@ == session_id_text(secs as nat, millis as nat),
{
    let mut out = dec_exec(secs as u128);
    let ms = padded_dec(millis as u64, 3);
    extend_chars(&mut out, &ms);
    string_of(&out)
}

/// A fresh session id from the system clock (a clock set before the epoch
/// reads as zero).
pub fn new_session_id() -> (r: String)
    ensures
        exists|secs: u64, millis: u32| millis < 1000 && r@ == session_id_text(secs as nat, millis as nat),
{
    let reading = system_clock();
    let (secs, millis) = match reading {
        Some((s, ms)) => (s, ms),
        None => (0u64, 0u32),
    };
    let r = session_id_from(secs, millis);
    assert(millis < 1000 && r@ == session_id_text(secs as nat, millis as nat));
    r
}

// ── File names ──────────────────────────────────────────────────────────────

/// File name of a session's CSV: `rigstats-session-<id>.csv`.
pub open spec fn session_csv_name(id: Seq<char>) -> Seq<char> {
    "rigstats-session-"@ + id + ".csv"@
}

/// Builds `rigstats-session-<id>.csv`.
pub fn session_csv_name_exec(id: &str) -> (r: String)
    ensures
        r@ == session_csv_name(id@),
{
    let mut out: Vec<char> = Vec::new();
    extend_str(&mut out, "rigstats-session-");
    extend_str(&mut out, id);
    extend_str(&mut out, ".csv");
    string_of(&out)
}

/// The CSV file backing a session: `rigstats-session-<id>.csv` for sessions
/// recorded under the session model, or the pre-session daily log
/// `rigstats-log-YYYY-MM-DD.csv` (the id without its `legacy-` prefix) for
/// imported legacy sessions.
pub open spec fn session_file_name<S>(s: SessionView<S>) -> Seq<char> {
    if s.legacy {
        "rigstats-log-"@ + trim_start_all(s.id, "legacy-"@) + ".csv"@
    } else {
        session_csv_name(s.id)
    }
}

/// Builds the name of the CSV file backing `meta`.
pub fn session_file_name_exec<S>(meta: &SessionMeta<S>) -> (r: String)
    ensures
        r@ == session_file_name(meta@),
{
    if meta.legacy {
        let id = chars_of(meta.id.as_str());
        let prefix = chars_of("legacy-");
        let date = trim_start_all_exec(&id, &prefix);
        let mut out: Vec<char> = Vec::new();
        extend_str(&mut out, "rigstats-log-");
        extend_chars(&mut out, &date);
        extend_str(&mut out, ".csv");
        string_of(&out)
    } else {
        session_csv_name_exec(meta.id.as_str())
    }
}

// ── Legacy import ───────────────────────────────────────────────────────────

/// The date part of a pre-session daily log's file name: for a name that
/// starts with `rigstats-log-` and ends with `.csv`, the name with those
/// removed (each as often as it repeats); `None` for any other file.
pub open spec fn legacy_log_date(name: Seq<char>) -> Option<Seq<char>> {
    if starts_with(name, "rigstats-log-"@) && ends_with(name, ".csv"@) {
        Some(trim_end_all(trim_start_all(name, "rigstats-log-"@), ".csv"@))
    } else {
        None
    }
}

/// Recognises a pre-session daily log by its file name and extracts its date.
pub fn legacy_log_date_exec(name: &str) -> (r: Option<String>)
    ensures
        r matches Some(d) ==> legacy_log_date(name@) == Some(d@),
        r is None ==> legacy_log_date(name@) is None,
{
    let n = chars_of(name);
    let prefix = chars_of("rigstats-log-");
    let suffix = chars_of(".csv");
    if starts_with_exec(&n, &prefix) && ends_with_exec(&n, &suffix) {
        let a = trim_start_all_exec(&n, &prefix);
        let b = trim_end_all_exec(&a, &suffix);
        Some(string_of(&b))
    } else {
        None
    }
}

/// The index entry for a legacy log with date `date` whose first and last
/// rows carry the timestamps `first_unix` and `last_unix`: id `legacy-<date>`,
/// name `<date> (legacy)`, finished, unpinned.
pub fn legacy_session<S>(date: &str, first_unix: u64, last_unix: u64, summary: S) -> (r: SessionMeta<S>)
    ensures
        r@.id == "legacy-"@ + date@,
        r@.name == date@ + " (legacy)"@,
        r.start_unix == first_unix,
        r.end_unix == Some(last_unix),
        !r.pinned,
        r.legacy,
        r.summary == summary,
{
    let mut id: Vec<char> = Vec::new();
    extend_str(&mut id, "legacy-");
    extend_str(&mut id, date);
    let mut name: Vec<char> = Vec::new();
    extend_str(&mut name, date);
    extend_str(&mut name, " (legacy)");
    SessionMeta {
        id: string_of(&id),
        name: string_of(&name),
        start_unix: first_unix,
        end_unix: Some(last_unix),
        pinned: false,
        legacy: true,
        summary,
    }
}

/// Whether the index already holds a legacy session with id `id`.
pub fn is_known_legacy<S>(sessions: &Vec<SessionMeta<S>>, id: &str) -> (b: bool)
    ensures
        b == exists|i: int|
            0 <= i < sessions@.len() && (#[trigger] sessions@[i]).legacy && sessions@[i]@.id == id@,
{
    let want = chars_of(id);
    let mut i: usize = 0;
    while i < sessions.len()
        invariant
            i <= sessions.len(),
            want@ == id@,
            forall|j: int|
                0 <= j < i ==> !((#[trigger] sessions@[j]).legacy && sessions@[j]@.id == id@),
        decreases sessions.len() - i,
    {
        if sessions[i].legacy {
            let cid = chars_of(sessions[i].id.as_str());
            if cid.len() == want.len() && crate::text::starts_with_exec(&cid, &want) {
                assert(cid@ =~= want@);
                return true;
            }
            proof {
                if sessions@[i as int]@.id == id@ {
                    assert(cid@.take(want@.len() as int) =~= cid@);
                }
            }
        }
        i += 1;
    }
    false
}

/// Closes a session left open by an unclean shutdown: it ends at the
/// timestamp of its last recorded row, or at its start when it has no rows,
/// and takes the summary computed from its rows.
pub fn close_interrupted<S>(s: &mut SessionMeta<S>, last_row_unix: Option<u64>, summary: S)
    ensures
        final(s).end_unix == Some(
            match last_row_unix {
                Some(t) => t,
                None => old(s).start_unix,
            },
        ),
        final(s).summary == summary,
        final(s)@.id == old(s)@.id,
        final(s)@.name == old(s)@.name,
        final(s).start_unix == old(s).start_unix,
        final(s).pinned == old(s).pinned,
        final(s).legacy == old(s).legacy,
{
    let end = match last_row_unix {
        Some(t) => t,
        None => s.start_unix,
    };
    s.end_unix = Some(end);
    s.summary = summary;
}

/// The entry of a session that starts recording now: id `id`, the default
/// name for `start_unix`, active, unpinned, not legacy.
pub fn new_session_meta<S>(id: String, start_unix: u64, summary: S) -> (r: SessionMeta<S>)
    ensures
        r@.id == id@,
        r.name@ == default_name_of(start_unix),
        r.start_unix == start_unix,
        r.end_unix is None,
        !r.pinned,
        !r.legacy,
        r.summary == summary,
{
    let name = default_session_name(start_unix);
    proof {
        lemma_default_name_unique(start_unix, name@);
    }
    SessionMeta { id, name, start_unix, end_unix: None, pinned: false, legacy: false, summary }
}

/// The default name of a session started at `start_unix`.
pub open spec fn default_name_of(start_unix: u64) -> Seq<char> {
    let (y, m, d) = choose|y: int, m: int, d: int|
        y >= 1970 && valid_date(y, m, d) && day_number(y, m, d) == start_unix / 86400;
    session_name_text(
        (y as u32) as nat,
        m as nat,
        d as nat,
        ((start_unix % 86400) / 3600) as nat,
        ((start_unix % 3600) / 60) as nat,
    )
}

proof fn lemma_default_name_unique(start_unix: u64, name: Seq<char>)
    requires
        exists|y: int, m: int, d: int|
            #![trigger day_number(y, m, d)]
            y >= 1970 && valid_date(y, m, d) && day_number(y, m, d) == start_unix / 86400
                && name == session_name_text(
                (y as u32) as nat,
                m as nat,
                d as nat,
                ((start_unix % 86400) / 3600) as nat,
                ((start_unix % 3600) / 60) as nat,
            ),
    ensures
        name == default_name_of(start_unix),
{
    let (y, m, d) = choose|y: int, m: int, d: int|
        #![trigger day_number(y, m, d)]
        y >= 1970 && valid_date(y, m, d) && day_number(y, m, d) == start_unix / 86400
            && name == session_name_text(
            (y as u32) as nat,
            m as nat,
            d as nat,
            ((start_unix % 86400) / 3600) as nat,
            ((start_unix % 3600) / 60) as nat,
        );
    let (y2, m2, d2) = choose|y: int, m: int, d: int|
        y >= 1970 && valid_date(y, m, d) && day_number(y, m, d) == start_unix / 86400;
    crate::calendar::lemma_date_unique(y, m, d, y2, m2, d2);
}

/// The pre-session daily logs among `names` (a directory listing, in order)
/// that are not imported yet, each as its position in the listing and its
/// date: a legacy session with id `legacy-<date>` already in the index
/// means imported.
pub open spec fn legacy_imports_spec<S>(sessions: Seq<SessionMeta<S>>, names: Seq<Seq<char>>) -> Seq<(int, Seq<char>)>
    decreases names.len(),
{
    if names.len() == 0 {
        Seq::empty()
    } else {
        let rest = legacy_imports_spec(sessions, names.drop_last());
        match legacy_log_date(names.last()) {
            Some(d) => if exists|i: int|
                0 <= i < sessions.len() && (#[trigger] sessions[i]).legacy && sessions[i]@.id == "legacy-"@ + d {
                rest
            } else {
                rest.push((names.len() - 1, d))
            },
            None => rest,
        }
    }
}

/// Lists the daily logs in `names` still to be imported, with their dates.
pub fn legacy_imports<S>(sessions: &Vec<SessionMeta<S>>, names: &Vec<String>) -> (r: Vec<(usize, String)>)
    ensures
        r@.map_values(|e: (usize, String)| (e.0 as int, e.1@)) == legacy_imports_spec(
            sessions@,
            names@.map_values(|s: String| s@),
        ),
{
    let ghost nv = names@.map_values(|s: String| s@);
    let mut r: Vec<(usize, String)> = Vec::new();
    let mut i: usize = 0;
    while i < names.len()
        invariant
            i <= names@.len(),
            nv == names@.map_values(|s: String| s@),
            r@.map_values(|e: (usize, String)| (e.0 as int, e.1@)) == legacy_imports_spec(sessions@, nv.take(i as int)),
        decreases names.len() - i,
    {
        assert(nv.take(i + 1).drop_last() =~= nv.take(i as int));
        assert(nv.take(i + 1).last() == names@[i as int]@);
        let ghost before = r@.map_values(|e: (usize, String)| (e.0 as int, e.1@));
        match legacy_log_date_exec(names[i].as_str()) {
            Some(d) => {
                let mut id: Vec<char> = Vec::new();
                extend_str(&mut id, "legacy-");
                extend_str(&mut id, d.as_str());
                let ids = string_of(&id);
                if !is_known_legacy(sessions, ids.as_str()) {
                    r.push((i, d));
                    assert(r@.map_values(|e: (usize, String)| (e.0 as int, e.1@)) =~= before.push(
                        (i as int, r@[r@.len() - 1].1@),
                    ));
                }
            },
            None => {},
        }
        i += 1;
    }
    assert(nv.take(names@.len() as int) =~= nv);
    r
}

/// `added` holds a legacy session for the log dated `d`.
pub open spec fn holds_legacy<S>(added: Seq<SessionMeta<S>>, d: Seq<char>) -> bool {
    exists|k: int| 0 <= k < added.len() && (#[trigger] added[k]).legacy && added[k]@.id == "legacy-"@ + d
}

/// Importing is done once: when every log that [`legacy_imports`] lists has
/// been added to the index as a legacy session with its date, listing the
/// same directory again finds nothing left to import.
pub proof fn lemma_legacy_import_once<S>(sessions: Seq<SessionMeta<S>>, names: Seq<Seq<char>>, added: Seq<SessionMeta<S>>)
    requires
        forall|j: int|
            0 <= j < legacy_imports_spec(sessions, names).len() ==> holds_legacy(
                added,
                (#[trigger] legacy_imports_spec(sessions, names)[j]).1,
            ),
    ensures
        legacy_imports_spec(sessions + added, names) == Seq::<(int, Seq<char>)>::empty(),
    decreases names.len(),
{
    if names.len() > 0 {
        let prev = names.drop_last();
        // What the shorter listing yields is a prefix of what the whole one yields.
        assert forall|j: int| 0 <= j < legacy_imports_spec(sessions, prev).len() implies holds_legacy(
            added,
            (#[trigger] legacy_imports_spec(sessions, prev)[j]).1,
        ) by {
            assert(legacy_imports_spec(sessions, names)[j] == legacy_imports_spec(sessions, prev)[j]);
        }
        lemma_legacy_import_once(sessions, prev, added);
        let both = sessions + added;
        match legacy_log_date(names.last()) {
            Some(d) => {
                if exists|i: int|
                    0 <= i < sessions.len() && (#[trigger] sessions[i]).legacy && sessions[i]@.id == "legacy-"@ + d {
                    let i = choose|i: int|
                        0 <= i < sessions.len() && (#[trigger] sessions[i]).legacy && sessions[i]@.id == "legacy-"@ + d;
                    assert(both[i] == sessions[i]);
                } else {
                    let n = legacy_imports_spec(sessions, prev).len();
                    assert(legacy_imports_spec(sessions, names) == legacy_imports_spec(sessions, prev).push(
                        (names.len() - 1, d),
                    ));
                    assert(legacy_imports_spec(sessions, names)[n as int].1 == d);
                    assert(holds_legacy(added, d));
                    let k = choose|k: int| 0 <= k < added.len() && (#[trigger] added[k]).legacy && added[k]@.id == "legacy-"@ + d;
                    assert(both[sessions.len() + k] == added[k]);
                }
            },
            None => {},
        }
    }
}

// ── Startup reconciliation ──────────────────────────────────────────────────

/// The index `v` holds a legacy session for the log dated `d`.
pub open spec fn knows_legacy<S>(v: Seq<SessionView<S>>, d: Seq<char>) -> bool {
    exists|i: int| 0 <= i < v.len() && (#[trigger] v[i]).legacy && v[i].id == "legacy-"@ + d
}

/// Session `s` after startup: one left open by an unclean shutdown is closed
/// with what its rows give (`tail`: the last row's timestamp, if any, and the
/// rows' summary); a finished one, or one whose rows were not read (`None`),
/// stays as it is.
pub open spec fn closed_view<S>(s: SessionView<S>, tail: Option<(Option<u64>, S)>) -> SessionView<S> {
    match tail {
        Some((last, summary)) => if s.end_unix is None {
            SessionView {
                id: s.id,
                name: s.name,
                start_unix: s.start_unix,
                end_unix: Some(
                    match last {
                        Some(t) => t,
                        None => s.start_unix,
                    },
                ),
                pinned: s.pinned,
                legacy: s.legacy,
                summary: summary,
            }
        } else {
            s
        },
        None => s,
    }
}

/// The index `v` with every interrupted session closed (`tails[i]` for `v[i]`).
pub open spec fn close_open<S>(v: Seq<SessionView<S>>, tails: Seq<Option<(Option<u64>, S)>>) -> Seq<SessionView<S>> {
    Seq::new(v.len(), |i: int| closed_view(v[i], tails[i]))
}

/// The legacy session of the log dated `d` whose first and last rows carry
/// the timestamps `first` and `last`.
pub open spec fn legacy_view<S>(d: Seq<char>, first: u64, last: u64, summary: S) -> SessionView<S> {
    SessionView {
        id: "legacy-"@ + d,
        name: d + " (legacy)"@,
        start_unix: first,
        end_unix: Some(last),
        pinned: false,
        legacy: true,
        summary: summary,
    }
}

/// The legacy sessions imported into the index `v` from the directory listing
/// `names`, in listing order: one for each daily log whose date `v` does not
/// know yet and whose file has data rows (`logs[i]`: the first and last row
/// timestamps and the summary of the file `names[i]`; `None` without rows).
pub open spec fn legacy_added<S>(
    v: Seq<SessionView<S>>,
    names: Seq<Seq<char>>,
    logs: Seq<Option<(u64, u64, S)>>,
) -> Seq<SessionView<S>>
    decreases names.len(),
{
    if names.len() == 0 {
        Seq::empty()
    } else {
        let rest = legacy_added(v, names.drop_last(), logs);
        match legacy_log_date(names.last()) {
            Some(d) => if knows_legacy(v, d) {
                rest
            } else {
                match logs[names.len() - 1] {
                    Some((first, last, summary)) => rest.push(legacy_view(d, first, last, summary)),
                    None => rest,
                }
            },
            None => rest,
        }
    }
}

/// The index after startup reconciliation: interrupted sessions closed, then
/// the daily logs not imported yet appended as legacy sessions.
pub open spec fn reconciled<S>(
    v: Seq<SessionView<S>>,
    tails: Seq<Option<(Option<u64>, S)>>,
    names: Seq<Seq<char>>,
    logs: Seq<Option<(u64, u64, S)>>,
) -> Seq<SessionView<S>> {
    close_open(v, tails) + legacy_added(close_open(v, tails), names, logs)
}

/// Some session among the first `n` of `v` is open and has its rows read.
pub open spec fn closes_some<S>(v: Seq<SessionView<S>>, tails: Seq<Option<(Option<u64>, S)>>, n: int) -> bool {
    exists|j: int| 0 <= j < n && (#[trigger] v[j]).end_unix is None && tails[j] is Some
}

/// Reconciles the index at startup: closes each interrupted session with its
/// rows' last timestamp and summary (`tails`, one per session, `None` for the
/// sessions whose rows were not read), then imports each daily log of the
/// listing `names` that is not imported yet and has data rows (`logs`, one per
/// name). Returns whether the index changed.
pub fn reconcile_index<S>(
    sessions: &mut Vec<SessionMeta<S>>,
    tails: Vec<Option<(Option<u64>, S)>>,
    names: &Vec<String>,
    logs: Vec<Option<(u64, u64, S)>>,
) -> (changed: bool)
    requires
        old(sessions)@.len() == tails@.len(),
        names@.len() == logs@.len(),
    ensures
        views(final(sessions)@) == reconciled(
            views(old(sessions)@),
            tails@,
            names@.map_values(|n: String| n@),
            logs@,
        ),
        changed == (views(final(sessions)@) != views(old(sessions)@)),
        forall|i: int|
            0 <= i < old(sessions)@.len() && (#[trigger] old(sessions)@[i]).end_unix is None ==> (tails@[i] matches Some(
                (Some(t), summary),
            ) ==> final(sessions)@[i].end_unix == Some(t) && final(sessions)@[i].summary == summary),
{
    let ghost v0 = views(sessions@);
    let ghost tails0 = tails@;
    let ghost logs0 = logs@;
    let ghost nv = names@.map_values(|n: String| n@);
    let ghost c = close_open(v0, tails0);
    let mut old_list: Vec<SessionMeta<S>> = Vec::new();
    std::mem::swap(sessions, &mut old_list);
    let mut tails = tails;
    let mut closed: Vec<SessionMeta<S>> = Vec::new();
    let mut changed = false;
    let n = old_list.len();
    let mut i: usize = 0;
    assert(views(old_list@) == v0.skip(0));
    assert(tails@ == tails0.skip(0));
    while i < n
        invariant
            n == v0.len(),
            tails0.len() == n,
            c == close_open(v0, tails0),
            i <= n,
            views(old_list@) == v0.skip(i as int),
            old_list@.len() == n - i,
            tails@ == tails0.skip(i as int),
            tails@.len() == n - i,
            views(closed@) == c.take(i as int),
            changed == closes_some(v0, tails0, i as int),
        decreases n - i,
    {
        let ghost before = views(closed@);
        let ghost rest = old_list@;
        assert(views(rest)[0] == v0[i as int]);
        assert(views(rest)[0] == rest[0]@);
        let s = old_list.remove(0);
        assert(s@ == v0[i as int]);
        let t = tails.remove(0);
        assert(t == tails0[i as int]);
        let mut s = s;
        match t {
            Some((last, summary)) => {
                if s.is_active() {
                    close_interrupted(&mut s, last, summary);
                    changed = true;
                    assert(v0[i as int].end_unix is None && tails0[i as int] is Some);
                }
            },
            None => {},
        }
        assert(s@ == c[i as int]);
        closed.push(s);
        assert(views(closed@) =~= before.push(s@));
        assert(views(closed@) =~= c.take(i + 1));
        assert forall|j: int| 0 <= j < old_list@.len() implies views(old_list@)[j] == v0.skip(i + 1)[j] by {
            assert(old_list@[j] == rest[j + 1]);
            assert(views(rest)[j + 1] == rest[j + 1]@);
        }
        assert(views(old_list@) =~= v0.skip(i + 1));
        assert(tails@ =~= tails0.skip(i + 1));
        proof {
            if closes_some(v0, tails0, i + 1) && !closes_some(v0, tails0, i as int) {
                let j = choose|j: int| 0 <= j < i + 1 && (#[trigger] v0[j]).end_unix is None && tails0[j] is Some;
                assert(j == i);
            }
        }
        i += 1;
    }
    assert(c.take(n as int) =~= c);
    let ghost closes = changed;
    let mut added: Vec<SessionMeta<S>> = Vec::new();
    let mut logs = logs;
    let mut k: usize = 0;
    assert(logs@ == logs0.skip(0));
    while k < names.len()
        invariant
            k <= names.len(),
            names@.len() == logs0.len(),
            logs@ == logs0.skip(k as int),
            views(closed@) == c,
            nv == names@.map_values(|n: String| n@),
            views(added@) == legacy_added(c, nv.take(k as int), logs0),
            changed == (closes || added@.len() > 0),
        decreases names.len() - k,
    {
        let entry = logs.remove(0);
        assert(entry == logs0[k as int]);
        assert(logs@ =~= logs0.skip(k + 1));
        let ghost before = views(added@);
        let ghost pre = nv.take(k + 1);
        assert(pre.drop_last() =~= nv.take(k as int));
        assert(pre.last() == names@[k as int]@);
        match legacy_log_date_exec(names[k].as_str()) {
            Some(d) => {
                let mut id: Vec<char> = Vec::new();
                extend_str(&mut id, "legacy-");
                extend_str(&mut id, d.as_str());
                let ids = string_of(&id);
                let known = is_known_legacy(&closed, ids.as_str());
                proof {
                    if knows_legacy(c, d@) {
                        let j = choose|j: int| 0 <= j < c.len() && (#[trigger] c[j]).legacy && c[j].id == "legacy-"@ + d@;
                        assert(views(closed@)[j] == closed@[j]@);
                    }
                    if known {
                        let j = choose|j: int|
                            0 <= j < closed@.len() && (#[trigger] closed@[j]).legacy && closed@[j]@.id == ids@;
                        assert(views(closed@)[j] == closed@[j]@);
                    }
                    assert(known == knows_legacy(c, d@));
                }
                if !known {
                    match entry {
                        Some((first, last, summary)) => {
                            let x = legacy_session(d.as_str(), first, last, summary);
                            assert(x@ == legacy_view(d@, first, last, summary));
                            added.push(x);
                            assert(views(added@) =~= before.push(legacy_view(d@, first, last, summary)));
                            changed = true;
                        },
                        None => {},
                    }
                }
            },
            None => {},
        }
        assert(views(added@) == legacy_added(c, nv.take(k + 1), logs0));
        k += 1;
    }
    assert(nv.take(names@.len() as int) =~= nv);
    let ghost a = views(added@);
    closed.append(&mut added);
    assert(views(closed@) =~= c + a);
    *sessions = closed;
    proof {
        let fin = views(sessions@);
        if closes {
            let j = choose|j: int| 0 <= j < n && (#[trigger] v0[j]).end_unix is None && tails0[j] is Some;
            assert(fin[j] == c[j]);
            assert(fin[j].end_unix is Some);
            assert(fin != v0);
        } else if a.len() > 0 {
            assert(fin.len() != v0.len());
        } else {
            assert forall|j: int| 0 <= j < n implies c[j] == v0[j] by {
                assert(!(v0[j].end_unix is None && tails0[j] is Some));
            }
            assert(c =~= v0);
            assert(fin =~= v0);
        }
        assert forall|i: int|
            0 <= i < v0.len() && (#[trigger] old(sessions)@[i]).end_unix is None implies (tails0[i] matches Some(
                (Some(t), summary),
            ) ==> sessions@[i].end_unix == Some(t) && sessions@[i].summary == summary) by {
            assert(views(sessions@)[i] == sessions@[i]@);
            assert(v0[i] == old(sessions)@[i]@);
            if let Some((Some(t), summary)) = tails0[i] {
                lemma_reconcile_closes_at_last_row(v0, tails0, nv, logs0, i, t, summary);
            }
        }
    }
    changed
}

proof fn lemma_knows_extend<S>(a: Seq<SessionView<S>>, b: Seq<SessionView<S>>, d: Seq<char>)
    requires
        knows_legacy(a, d),
    ensures
        knows_legacy(a + b, d),
        knows_legacy(b + a, d),
{
    let j = choose|j: int| 0 <= j < a.len() && (#[trigger] a[j]).legacy && a[j].id == "legacy-"@ + d;
    assert((a + b)[j] == a[j]);
    assert((b + a)[b.len() + j] == a[j]);
}

/// Every imported entry is a finished legacy session.
proof fn lemma_added_finished<S>(v: Seq<SessionView<S>>, names: Seq<Seq<char>>, logs: Seq<Option<(u64, u64, S)>>)
    ensures
        forall|j: int| 0 <= j < legacy_added(v, names, logs).len()
            ==> (#[trigger] legacy_added(v, names, logs)[j]).end_unix is Some,
    decreases names.len(),
{
    if names.len() > 0 {
        lemma_added_finished(v, names.drop_last(), logs);
    }
}

/// Every log that is imported leaves its date known to what was added.
proof fn lemma_added_known<S>(v: Seq<SessionView<S>>, names: Seq<Seq<char>>, logs: Seq<Option<(u64, u64, S)>>, k: int)
    requires
        0 <= k < names.len(),
        legacy_log_date(names[k]) is Some,
        !knows_legacy(v, legacy_log_date(names[k]).unwrap()),
        logs[k] is Some,
    ensures
        knows_legacy(legacy_added(v, names, logs), legacy_log_date(names[k]).unwrap()),
    decreases names.len(),
{
    let prev = names.drop_last();
    let d = legacy_log_date(names[k]).unwrap();
    if k < names.len() - 1 {
        assert(prev[k] == names[k]);
        lemma_added_known(v, prev, logs, k);
        let rest = legacy_added(v, prev, logs);
        let j = choose|j: int| 0 <= j < rest.len() && (#[trigger] rest[j]).legacy && rest[j].id == "legacy-"@ + d;
        let all = legacy_added(v, names, logs);
        assert(all.len() >= rest.len() && all[j] == rest[j]);
    } else {
        let all = legacy_added(v, names, logs);
        assert(names.last() == names[k]);
        assert(all[all.len() - 1].legacy && all[all.len() - 1].id == "legacy-"@ + d);
    }
}

/// Once every log imported from `c` is known to `r`, and `r` knows all that
/// `c` knows, nothing is imported into `r`.
proof fn lemma_nothing_left<S>(
    c: Seq<SessionView<S>>,
    r: Seq<SessionView<S>>,
    names: Seq<Seq<char>>,
    logs: Seq<Option<(u64, u64, S)>>,
)
    requires
        forall|d: Seq<char>| knows_legacy(c, d) ==> #[trigger] knows_legacy(r, d),
        forall|k: int|
            0 <= k < names.len() && legacy_log_date(names[k]) is Some && !knows_legacy(
                c,
                legacy_log_date(names[k]).unwrap(),
            ) && logs[k] is Some ==> knows_legacy(r, #[trigger] legacy_log_date(names[k]).unwrap()),
    ensures
        legacy_added(r, names, logs) == Seq::<SessionView<S>>::empty(),
    decreases names.len(),
{
    if names.len() > 0 {
        let prev = names.drop_last();
        assert forall|k: int|
            0 <= k < prev.len() && legacy_log_date(prev[k]) is Some && !knows_legacy(
                c,
                legacy_log_date(prev[k]).unwrap(),
            ) && logs[k] is Some implies knows_legacy(r, #[trigger] legacy_log_date(prev[k]).unwrap()) by {
            assert(prev[k] == names[k]);
        }
        lemma_nothing_left(c, r, prev, logs);
        let k = names.len() - 1;
        assert(names.last() == names[k]);
        match legacy_log_date(names.last()) {
            Some(d) => {
                if !knows_legacy(r, d) {
                    assert(!knows_legacy(c, d));
                    assert(logs[k] is None);
                }
            },
            None => {},
        }
    }
}

/// Reconciling at startup twice leaves the index as reconciling once, when
/// the rows of every interrupted session were read the first time: the
/// second run finds no open session, and every daily log with data rows is
/// imported already (one without rows is never imported).
pub proof fn lemma_reconcile_idempotent<S>(
    v: Seq<SessionView<S>>,
    tails: Seq<Option<(Option<u64>, S)>>,
    tails2: Seq<Option<(Option<u64>, S)>>,
    names: Seq<Seq<char>>,
    logs: Seq<Option<(u64, u64, S)>>,
)
    requires
        tails.len() == v.len(),
        forall|i: int| 0 <= i < v.len() && (#[trigger] v[i]).end_unix is None ==> tails[i] is Some,
    ensures
        reconciled(reconciled(v, tails, names, logs), tails2, names, logs) == reconciled(v, tails, names, logs),
{
    let c = close_open(v, tails);
    let a = legacy_added(c, names, logs);
    let r = c + a;
    lemma_added_finished(c, names, logs);
    assert forall|j: int| 0 <= j < r.len() implies (#[trigger] r[j]).end_unix is Some by {
        if j < c.len() {
            assert(r[j] == c[j]);
            assert(c[j] == closed_view(v[j], tails[j]));
        } else {
            assert(r[j] == a[j - c.len()]);
        }
    }
    let c2 = close_open(r, tails2);
    assert forall|j: int| 0 <= j < r.len() implies c2[j] == r[j] by {
        assert(r[j].end_unix is Some);
    }
    assert(c2 =~= r);
    assert forall|d: Seq<char>| knows_legacy(c, d) implies #[trigger] knows_legacy(r, d) by {
        lemma_knows_extend(c, a, d);
    }
    assert forall|k: int|
        0 <= k < names.len() && legacy_log_date(names[k]) is Some && !knows_legacy(
            c,
            legacy_log_date(names[k]).unwrap(),
        ) && logs[k] is Some implies knows_legacy(r, #[trigger] legacy_log_date(names[k]).unwrap()) by {
        lemma_added_known(c, names, logs, k);
        lemma_knows_extend(a, c, legacy_log_date(names[k]).unwrap());
    }
    lemma_nothing_left(c, r, names, logs);
    assert(reconciled(r, tails2, names, logs) =~= r);
}

/// Reconciling closes each interrupted session whose rows were read at the
/// timestamp of its last row — at its own start only when its rows hold no
/// timestamp — and gives it its rows' summary, keeping its id, name, start,
/// pin and legacy mark. A finished session, or one whose rows were not read,
/// stays as it was, at the same position.
pub proof fn lemma_reconcile_closes_at_last_row<S>(
    v: Seq<SessionView<S>>,
    tails: Seq<Option<(Option<u64>, S)>>,
    names: Seq<Seq<char>>,
    logs: Seq<Option<(u64, u64, S)>>,
    i: int,
    t: u64,
    summary: S,
)
    requires
        0 <= i < v.len(),
    ensures
        v[i].end_unix is None && tails[i] == Some((Some(t), summary)) ==> reconciled(v, tails, names, logs)[i].end_unix
            == Some(t) && reconciled(v, tails, names, logs)[i].summary == summary,
        v[i].end_unix is None && tails[i] == Some((None::<u64>, summary)) ==> reconciled(v, tails, names, logs)[i].end_unix
            == Some(v[i].start_unix) && reconciled(v, tails, names, logs)[i].summary == summary,
        reconciled(v, tails, names, logs)[i].id == v[i].id,
        reconciled(v, tails, names, logs)[i].name == v[i].name,
        reconciled(v, tails, names, logs)[i].start_unix == v[i].start_unix,
        reconciled(v, tails, names, logs)[i].pinned == v[i].pinned,
        reconciled(v, tails, names, logs)[i].legacy == v[i].legacy,
        v[i].end_unix is Some || tails[i] is None ==> reconciled(v, tails, names, logs)[i] == v[i],
        reconciled(v, tails, names, logs).len() >= v.len(),
{
    let c = close_open(v, tails);
    let r = reconciled(v, tails, names, logs);
    assert(r[i] == c[i]);
    assert(c[i] == closed_view(v[i], tails[i]));
}

/// Entry `e` is the legacy session of the log dated `d`.
pub open spec fn is_legacy_of<S>(e: SessionView<S>, d: Seq<char>) -> bool {
    e.legacy && e.id == "legacy-"@ + d
}

proof fn lemma_prefix_cancels(p: Seq<char>, x: Seq<char>, y: Seq<char>)
    requires
        p + x == p + y,
    ensures
        x == y,
{
    assert((p + x).skip(p.len() as int) =~= x);
    assert((p + y).skip(p.len() as int) =~= y);
}

/// No listed log is dated `d`: nothing dated `d` is imported.
proof fn lemma_added_none<S>(c: Seq<SessionView<S>>, names: Seq<Seq<char>>, logs: Seq<Option<(u64, u64, S)>>, d: Seq<char>)
    requires
        forall|j: int| 0 <= j < names.len() ==> legacy_log_date(#[trigger] names[j]) != Some(d),
    ensures
        forall|j: int| 0 <= j < legacy_added(c, names, logs).len() ==> !is_legacy_of(#[trigger] legacy_added(c, names, logs)[j], d),
    decreases names.len(),
{
    if names.len() > 0 {
        let prev = names.drop_last();
        assert forall|j: int| 0 <= j < prev.len() implies legacy_log_date(#[trigger] prev[j]) != Some(d) by {
            assert(prev[j] == names[j]);
        }
        lemma_added_none(c, prev, logs, d);
        assert(names.last() == names[names.len() - 1]);
        let a = legacy_added(c, names, logs);
        let ap = legacy_added(c, prev, logs);
        if a != ap {
            let d2 = legacy_log_date(names.last()).unwrap();
            let (first2, last2, summary2) = logs[names.len() - 1].unwrap();
            assert(a == ap.push(legacy_view(d2, first2, last2, summary2)));
            if "legacy-"@ + d2 == "legacy-"@ + d {
                lemma_prefix_cancels("legacy-"@, d2, d);
            }
        }
        assert forall|j: int| 0 <= j < a.len() implies !is_legacy_of(#[trigger] a[j], d) by {
            if j < ap.len() {
                assert(a[j] == ap[j]);
            }
        }
    }
}

/// The one listed log dated `d`, at position `k`: imported exactly once when
/// it has data rows, never when it has none.
proof fn lemma_added_once<S>(
    c: Seq<SessionView<S>>,
    names: Seq<Seq<char>>,
    logs: Seq<Option<(u64, u64, S)>>,
    d: Seq<char>,
    k: int,
)
    requires
        0 <= k < names.len(),
        legacy_log_date(names[k]) == Some(d),
        forall|j: int| 0 <= j < names.len() && j != k ==> legacy_log_date(#[trigger] names[j]) != Some(d),
        !knows_legacy(c, d),
    ensures
        logs[k] matches Some((first, last, summary)) ==> exists|i: int|
            0 <= i < legacy_added(c, names, logs).len() && legacy_added(c, names, logs)[i] == legacy_view(
                d,
                first,
                last,
                summary,
            ) && forall|j: int|
                0 <= j < legacy_added(c, names, logs).len() && is_legacy_of(#[trigger] legacy_added(c, names, logs)[j], d)
                    ==> j == i,
        logs[k] is None ==> forall|j: int|
            0 <= j < legacy_added(c, names, logs).len() ==> !is_legacy_of(#[trigger] legacy_added(c, names, logs)[j], d),
    decreases names.len(),
{
    let prev = names.drop_last();
    let a = legacy_added(c, names, logs);
    let ap = legacy_added(c, prev, logs);
    assert(names.last() == names[names.len() - 1]);
    if k == names.len() - 1 {
        assert forall|j: int| 0 <= j < prev.len() implies legacy_log_date(#[trigger] prev[j]) != Some(d) by {
            assert(prev[j] == names[j]);
        }
        lemma_added_none(c, prev, logs, d);
        match logs[k] {
            Some((first, last, summary)) => {
                assert(a == ap.push(legacy_view(d, first, last, summary)));
                assert(a[ap.len() as int] == legacy_view(d, first, last, summary));
                assert forall|j: int| 0 <= j < a.len() && is_legacy_of(#[trigger] a[j], d) implies j == ap.len() by {
                    if j < ap.len() {
                        assert(a[j] == ap[j]);
                    }
                }
            },
            None => {
                assert(a == ap);
            },
        }
    } else {
        assert forall|j: int| 0 <= j < prev.len() && j != k implies legacy_log_date(#[trigger] prev[j]) != Some(d) by {
            assert(prev[j] == names[j]);
        }
        assert(prev[k] == names[k]);
        lemma_added_once(c, prev, logs, d, k);
        let other = legacy_log_date(names.last());
        assert(other != Some(d));
        if a != ap {
            let d2 = other.unwrap();
            let (first2, last2, summary2) = logs[names.len() - 1].unwrap();
            assert(a == ap.push(legacy_view(d2, first2, last2, summary2)));
            if "legacy-"@ + d2 == "legacy-"@ + d {
                lemma_prefix_cancels("legacy-"@, d2, d);
            }
            assert(!is_legacy_of(a[ap.len() as int], d));
            match logs[k] {
                Some((first, last, summary)) => {
                    let i = choose|i: int|
                        0 <= i < ap.len() && ap[i] == legacy_view(d, first, last, summary) && forall|j: int|
                            0 <= j < ap.len() && is_legacy_of(#[trigger] ap[j], d) ==> j == i;
                    assert(a[i] == ap[i]);
                    assert forall|j: int| 0 <= j < a.len() && is_legacy_of(#[trigger] a[j], d) implies j == i by {
                        if j < ap.len() {
                            assert(a[j] == ap[j]);
                        }
                    }
                },
                None => {
                    assert forall|j: int| 0 <= j < a.len() implies !is_legacy_of(#[trigger] a[j], d) by {
                        if j < ap.len() {
                            assert(a[j] == ap[j]);
                        }
                    }
                },
            }
        }
    }
}

/// After reconciling, a daily log with data rows whose date the index did
/// not know — and that no other listed log shares — is in the index exactly
/// once, as the legacy session `legacy-<date>` named `<date> (legacy)`,
/// unpinned, spanning its first to its last row, with its rows' summary; a
/// log without data rows is not imported. (Two listed logs with the same date,
/// such as `rigstats-log-x.csv` and `rigstats-log-x.csv.csv`, are both imported.)
pub proof fn lemma_reconcile_imports_each_log_once<S>(
    v: Seq<SessionView<S>>,
    tails: Seq<Option<(Option<u64>, S)>>,
    names: Seq<Seq<char>>,
    logs: Seq<Option<(u64, u64, S)>>,
    k: int,
)
    requires
        0 <= k < names.len(),
        legacy_log_date(names[k]) is Some,
        forall|j: int| 0 <= j < names.len() && j != k ==> legacy_log_date(#[trigger] names[j]) != legacy_log_date(names[k]),
        !knows_legacy(v, legacy_log_date(names[k]).unwrap()),
    ensures
        logs[k] matches Some((first, last, summary)) ==> exists|i: int|
            0 <= i < reconciled(v, tails, names, logs).len() && reconciled(v, tails, names, logs)[i] == legacy_view(
                legacy_log_date(names[k]).unwrap(),
                first,
                last,
                summary,
            ) && forall|j: int|
                0 <= j < reconciled(v, tails, names, logs).len() && is_legacy_of(
                    #[trigger] reconciled(v, tails, names, logs)[j],
                    legacy_log_date(names[k]).unwrap(),
                ) ==> j == i,
        logs[k] is None ==> forall|j: int|
            0 <= j < reconciled(v, tails, names, logs).len() ==> !is_legacy_of(
                #[trigger] reconciled(v, tails, names, logs)[j],
                legacy_log_date(names[k]).unwrap(),
            ),
{
    let d = legacy_log_date(names[k]).unwrap();
    let c = close_open(v, tails);
    let a = legacy_added(c, names, logs);
    let r = reconciled(v, tails, names, logs);
    assert(r == c + a);
    assert forall|j: int| 0 <= j < c.len() implies !is_legacy_of(#[trigger] c[j], d) by {
        assert(c[j] == closed_view(v[j], tails[j]));
        if is_legacy_of(c[j], d) {
            assert(v[j].legacy && v[j].id == "legacy-"@ + d);
        }
    }
    assert(!knows_legacy(c, d)) by {
        if knows_legacy(c, d) {
            let j = choose|j: int| 0 <= j < c.len() && (#[trigger] c[j]).legacy && c[j].id == "legacy-"@ + d;
            assert(is_legacy_of(c[j], d));
        }
    }
    lemma_added_once(c, names, logs, d, k);
    match logs[k] {
        Some((first, last, summary)) => {
            let i = choose|i: int|
                0 <= i < a.len() && a[i] == legacy_view(d, first, last, summary) && forall|j: int|
                    0 <= j < a.len() && is_legacy_of(#[trigger] a[j], d) ==> j == i;
            assert(r[c.len() + i] == a[i]);
            assert forall|j: int| 0 <= j < r.len() && is_legacy_of(#[trigger] r[j], d) implies j == c.len() + i by {
                if j < c.len() {
                    assert(r[j] == c[j]);
                } else {
                    assert(r[j] == a[j - c.len()]);
                }
            }
        },
        None => {
            assert forall|j: int| 0 <= j < r.len() implies !is_legacy_of(#[trigger] r[j], d) by {
                if j < c.len() {
                    assert(r[j] == c[j]);
                } else {
                    assert(r[j] == a[j - c.len()]);
                }
            }
        },
    }
}

/// A legacy session imported from the log `rigstats-log-<date>.csv` is backed
/// by that same file again, for every date that does not itself start with
/// `rigstats-log-` or `legacy-` nor end with `.csv` (those would be trimmed
/// along with the name's own prefix and suffix).
pub proof fn lemma_legacy_file_round_trip<S>(date: Seq<char>, s: SessionView<S>)
    requires
        !starts_with(date, "rigstats-log-"@),
        !starts_with(date, "legacy-"@),
        !ends_with(date, ".csv"@),
        s.legacy,
        s.id == "legacy-"@ + date,
    ensures
        legacy_log_date("rigstats-log-"@ + date + ".csv"@) == Some(date),
        session_file_name(s) == "rigstats-log-"@ + date + ".csv"@,
{
    reveal_strlit("rigstats-log-");
    reveal_strlit("legacy-");
    reveal_strlit(".csv");
    let pre = "rigstats-log-"@;
    let suf = ".csv"@;
    let name = pre + date + suf;
    // The name's prefix and suffix come off once each, leaving the date.
    assert(name.take(pre.len() as int) =~= pre);
    assert(name.skip(name.len() - suf.len()) =~= suf);
    let rest = name.skip(pre.len() as int);
    assert(rest =~= date + suf);
    assert(trim_start_all(rest, pre) == rest) by {
        if starts_with(rest, pre) {
            if date.len() >= pre.len() {
                assert(rest.take(pre.len() as int) =~= date.take(pre.len() as int));
            } else {
                assert(rest[date.len() as int] == '.');
                assert(rest.take(pre.len() as int)[date.len() as int] == rest[date.len() as int]);
                assert(pre[date.len() as int] != '.');
            }
        }
    }
    assert(trim_start_all(name, pre) == rest);
    assert(rest.skip(rest.len() - suf.len()) =~= suf);
    assert(rest.take(rest.len() - suf.len()) =~= date);
    assert(trim_end_all(date, suf) == date);
    assert(trim_end_all(rest, suf) == date);
    // The id's `legacy-` prefix comes off once, leaving the date.
    let lp = "legacy-"@;
    assert(s.id.take(lp.len() as int) =~= lp);
    assert(s.id.skip(lp.len() as int) =~= date);
    assert(trim_start_all(date, lp) == date);
    assert(trim_start_all(s.id, lp) == date);
}

} // verus!
