//! Reading a session CSV back: which lines are data rows, their fields, and
//! the row timestamp. The remaining fields are decimal readings that the
//! application parses.

use vstd::prelude::*;
use crate::text::{chars_of, parse_unsigned, parse_unsigned_exec, string_of};
use crate::words::{join, trim, trim_chars};

verus! {

/// The header line every session CSV starts with.
pub const CSV_HEADER: &'static str = "timestamp_unix,cpu_load,cpu_temp,cpu_freq_mhz,gpu_load,gpu_temp,gpu_vram_used_mb,ram_used_gb,disk_read_mbs,disk_write_mbs,net_up_mbps,net_down_mbps,ping_ms\n";

/// Number of columns of a session CSV row.
pub const CSV_COLUMNS: usize = 13;

/// The pieces of `s` between the separators `c`, as `str::split(c)` yields
/// them: `n` separators give `n + 1` pieces, empty ones included.
pub open spec fn split_on(s: Seq<char>, c: char) -> Seq<Seq<char>>
    decreases s.len(),
{
    if s.len() == 0 {
        seq![Seq::empty()]
    } else {
        let r = split_on(s.drop_last(), c);
        if s.last() == c {
            r.push(Seq::empty())
        } else {
            r.update(r.len() - 1, r.last().push(s.last()))
        }
    }
}

proof fn lemma_split_on_nonempty(s: Seq<char>, c: char)
    ensures
        split_on(s, c).len() >= 1,
    decreases s.len(),
{
    if s.len() > 0 {
        lemma_split_on_nonempty(s.drop_last(), c);
    }
}

/// Splits `s` at every `c`.
pub fn split_on_exec(s: &Vec<char>, c: char) -> (r: Vec<Vec<char>>)
    ensures
        r@.map_values(|p: Vec<char>| p@) == split_on(s@, c),
{
    let mut done: Vec<Vec<char>> = Vec::new();
    let mut cur: Vec<char> = Vec::new();
    let mut i: usize = 0;
    assert(s@.take(0) =~= Seq::<char>::empty());
    assert(done@.map_values(|p: Vec<char>| p@).push(cur@) =~= split_on(s@.take(0), c));
    while i < s.len()
        invariant
            i <= s.len(),
            done@.map_values(|p: Vec<char>| p@).push(cur@) == split_on(s@.take(i as int), c),
        decreases s.len() - i,
    {
        let ghost t = s@.take(i + 1);
        assert(t.drop_last() =~= s@.take(i as int));
        assert(t.last() == s@[i as int]);
        proof {
            lemma_split_on_nonempty(s@.take(i as int), c);
        }
        let ghost before = done@.map_values(|p: Vec<char>| p@);
        if s[i] == c {
            let finished = cur;
            done.push(finished);
            cur = Vec::new();
            assert(done@.map_values(|p: Vec<char>| p@) =~= before.push(finished@));
            assert(done@.map_values(|p: Vec<char>| p@).push(cur@) =~= split_on(t, c));
        } else {
            let ghost old_cur = cur@;
            cur.push(s[i]);
            assert(done@.map_values(|p: Vec<char>| p@).push(cur@) =~= before.push(old_cur).update(
                before.len() as int,
                old_cur.push(s@[i as int]),
            ));
        }
        i += 1;
    }
    assert(s@.take(s@.len() as int) =~= s@);
    let ghost before = done@.map_values(|p: Vec<char>| p@);
    let last = cur;
    done.push(last);
    assert(done@.map_values(|p: Vec<char>| p@) =~= before.push(last@));
    done
}

/// A session CSV line read back: `None` for a blank line, a line with fewer
/// than 13 fields, or one whose first field is not a `u64` timestamp;
/// otherwise the timestamp and every field.
pub open spec fn csv_row(line: Seq<char>) -> Option<(u64, Seq<Seq<char>>)> {
    let f = split_on(line, ',');
    if trim(line).len() == 0 || f.len() < CSV_COLUMNS {
        None
    } else {
        match parse_unsigned(f[0], 10, u64::MAX as nat) {
            Some(t) => Some((t as u64, f)),
            None => None,
        }
    }
}

/// Reads one CSV data line (see [`csv_row`]).
pub fn csv_row_exec(line: &str) -> (r: Option<(u64, Vec<String>)>)
    ensures
        match r {
            Some((t, fields)) => csv_row(line@) == Some((t, fields@.map_values(|f: String| f@))),
            None => csv_row(line@) is None,
        },
{
    let cs = chars_of(line);
    let t = trim_chars(&cs);
    if t.len() == 0 {
        return None;
    }
    let pieces = split_on_exec(&cs, ',');
    let ghost pv = pieces@.map_values(|p: Vec<char>| p@);
    if pieces.len() < CSV_COLUMNS {
        return None;
    }
    let ts = match parse_unsigned_exec(&pieces[0], 10, u64::MAX) {
        Some(v) => v,
        None => return None,
    };
    let mut fields: Vec<String> = Vec::new();
    let mut i: usize = 0;
    while i < pieces.len()
        invariant
            i <= pieces@.len(),
            pv == pieces@.map_values(|p: Vec<char>| p@),
            fields@.len() == i,
            forall|j: int| 0 <= j < i ==> (#[trigger] fields@[j])@ == pv[j],
        decreases pieces.len() - i,
    {
        fields.push(string_of(&pieces[i]));
        i += 1;
    }
    assert(fields@.map_values(|f: String| f@) =~= pv);
    Some((ts, fields))
}

/// No character of `s` is `c`.
pub open spec fn free_of(s: Seq<char>, c: char) -> bool {
    forall|k: int| 0 <= k < s.len() ==> s[k] != c
}

proof fn lemma_split_on_extend(s: Seq<char>, t: Seq<char>, c: char)
    requires
        free_of(t, c),
    ensures
        split_on(s + t, c) == split_on(s, c).update(
            split_on(s, c).len() - 1,
            split_on(s, c).last() + t,
        ),
    decreases t.len(),
{
    lemma_split_on_nonempty(s, c);
    if t.len() == 0 {
        assert(s + t =~= s);
        assert(split_on(s, c).last() + t =~= split_on(s, c).last());
        assert(split_on(s, c).update(split_on(s, c).len() - 1, split_on(s, c).last()) =~= split_on(s, c));
    } else {
        let t0 = t.drop_last();
        assert(free_of(t0, c)) by {
            assert forall|k: int| 0 <= k < t0.len() implies t0[k] != c by {
                assert(t0[k] == t[k]);
            }
        }
        lemma_split_on_extend(s, t0, c);
        assert((s + t).drop_last() =~= s + t0);
        assert((s + t).last() == t.last());
        assert(t.last() == t[t.len() - 1]);
        lemma_split_on_nonempty(s + t0, c);
        let r = split_on(s, c);
        assert(split_on(s + t0, c).last() == r.last() + t0);
        assert(split_on(s + t, c) =~= r.update(r.len() - 1, r.last() + t)) by {
            assert((r.last() + t0).push(t.last()) =~= r.last() + t);
        }
    }
}

/// What is written is read back: fields free of the separator, joined with
/// it, split at it into exactly those fields again.
pub proof fn lemma_split_join(fs: Seq<Seq<char>>, c: char)
    requires
        fs.len() >= 1,
        forall|i: int| 0 <= i < fs.len() ==> free_of(#[trigger] fs[i], c),
    ensures
        split_on(join(fs, seq![c]), c) == fs,
    decreases fs.len(),
{
    let f = fs.last();
    assert(f == fs[fs.len() - 1]);
    if fs.len() == 1 {
        lemma_split_on_extend(Seq::empty(), f, c);
        assert(Seq::<char>::empty() + f =~= f);
        assert(split_on(Seq::<char>::empty(), c) == seq![Seq::<char>::empty()]);
        assert(seq![Seq::<char>::empty()].update(0, Seq::<char>::empty() + f) =~= fs);
    } else {
        let gs = fs.drop_last();
        assert forall|i: int| 0 <= i < gs.len() implies free_of(#[trigger] gs[i], c) by {
            assert(gs[i] == fs[i]);
        }
        lemma_split_join(gs, c);
        let a = join(gs, seq![c]);
        let ac = a + seq![c];
        assert(ac.drop_last() =~= a);
        assert(ac.last() == c);
        lemma_split_on_extend(ac, f, c);
        assert(join(fs, seq![c]) == a + seq![c] + f);
        assert(split_on(ac, c) == gs.push(Seq::empty()));
        assert(gs.push(Seq::<char>::empty()).update(gs.len() as int, Seq::<char>::empty() + f) =~= fs);
    }
}

} // verus!
