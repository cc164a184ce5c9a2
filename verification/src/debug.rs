//! Debug-log levels and line composition.

use vstd::prelude::*;
use std::time::{Duration, SystemTime, SystemTimeError};
use crate::numfmt::{dec, dec_exec};
use crate::text::{chars_of, extend_chars, extend_str, find_from, lemma_find_from_matches, lemma_find_from_skip, matches_at, slice_chars, string_of};
use crate::words::{join, join_exec};

verus! {

/// Severity of a debug-log line. Rendered as a `[LEVEL]` tag so the Status
/// window's debug log is scannable at a glance.
#[derive(Clone, Copy, Debug, PartialEq, Eq, Structural)]
pub enum LogLevel {
    /// Verbose detail useful only when diagnosing (e.g. hardware-detection dumps).
    Debug,
    /// Normal lifecycle events (startup, shutdown, connections established).
    Info,
    /// Recoverable problems — connectivity loss, transient probe failures.
    Warning,
    /// Failures that lose data or fall back to defaults.
    Error,
}

/// The tag text of each level.
pub open spec fn level_name(level: LogLevel) -> Seq<char> {
    match level {
        LogLevel::Debug => "DEBUG"@,
        LogLevel::Info => "INFO"@,
        LogLevel::Warning => "WARNING"@,
        LogLevel::Error => "ERROR"@,
    }
}

impl LogLevel {
    pub fn as_str(self) -> (s: &'static str)
        ensures
            s@ == level_name(self),
    {
        match self {
            LogLevel::Debug => "DEBUG",
            LogLevel::Info => "INFO",
            LogLevel::Warning => "WARNING",
            LogLevel::Error => "ERROR",
        }
    }
}

#[verifier::external_type_specification]
#[verifier::external_body]
pub struct ExSystemTime(std::time::SystemTime);

#[verifier::external_type_specification]
#[verifier::external_body]
pub struct ExSystemTimeError(std::time::SystemTimeError);

/// The system clock's current time (`SystemTime::now`). It depends on the
/// moment of the call, so nothing is stated of it.
#[verifier::external_body]
fn time_now() -> (t: SystemTime) {
    SystemTime::now()
}

/// How long after the Unix epoch `t` is (`t.duration_since(UNIX_EPOCH)`), or
/// an error when `t` is before it. Which comes back depends on the clock
/// reading, so nothing is stated of it.
#[verifier::external_body]
fn since_epoch(t: SystemTime) -> (r: Result<Duration, SystemTimeError>) {
    t.duration_since(std::time::UNIX_EPOCH)
}

/// The whole seconds of `d` (`Duration::as_secs`).
#[verifier::external_body]
fn duration_secs(d: &Duration) -> (s: u64) {
    d.as_secs()
}

/// The fractional part of `d` in whole milliseconds (`Duration::subsec_millis`),
/// which std documents as always less than one thousand.
#[verifier::external_body]
fn duration_subsec_millis(d: &Duration) -> (ms: u32)
    ensures
        ms < 1000,
{
    d.subsec_millis()
}

/// Seconds and sub-second milliseconds since the Unix epoch, read from the
/// system clock; `None` when the clock is set before the epoch. The reading
/// depends on the moment of the call, so nothing ties it to earlier or later
/// readings.
pub(crate) fn system_clock() -> (r: Option<(u64, u32)>)
    ensures
        r matches Some((_, ms)) ==> ms < 1000,
{
    let now = time_now();
    match since_epoch(now) {
        Ok(d) => Some((duration_secs(&d), duration_subsec_millis(&d))),
        Err(_) => None,
    }
}

/// Whole seconds of a clock reading, zero for a clock set before the epoch.
pub fn secs_or_zero(reading: Option<(u64, u32)>) -> (s: u64)
    ensures
        s == match reading {
            Some((secs, _)) => secs,
            None => 0,
        },
{
    match reading {
        Some((secs, _)) => secs,
        None => 0,
    }
}

/// Current Unix time in seconds (0 if the system clock reads before 1970).
pub fn unix_now_secs() -> u64 {
    secs_or_zero(system_clock())
}

/// `s` padded on the right with spaces to at least `width` characters (`{:<width}`).
pub open spec fn pad_right(s: Seq<char>, width: nat) -> Seq<char> {
    if s.len() >= width {
        s
    } else {
        s + Seq::new((width - s.len()) as nat, |_i: int| ' ')
    }
}

/// The text of one debug-log line: `[<timestamp>] <[LEVEL] padded to 9> <message>`.
pub open spec fn log_line_spec(timestamp: Seq<char>, level: LogLevel, message: Seq<char>) -> Seq<char> {
    seq!['['] + timestamp + "] "@ + pad_right(seq!['['] + level_name(level) + seq![']'], 9) + seq![' ']
        + message
}

/// Composes a debug-log line. The bracketed level tag is padded to the width of
/// the longest tag (`[WARNING]`) so message text lines up in the Status view,
/// e.g. `[2026-06-16 16:18:33] [WARNING] pipe: read timed out`.
pub fn format_log_line(timestamp: &str, level: LogLevel, message: &str) -> (r: String)
    ensures
        r@ == log_line_spec(timestamp@, level, message@),
{
    let mut out: Vec<char> = Vec::new();
    out.push('[');
    extend_str(&mut out, timestamp);
    extend_str(&mut out, "] ");
    let mut tag: Vec<char> = Vec::new();
    tag.push('[');
    extend_str(&mut tag, level.as_str());
    tag.push(']');
    let ghost tag_v = tag@;
    assert(tag_v == seq!['['] + level_name(level) + seq![']']);
    let mut padded = tag;
    while padded.len() < 9
        invariant
            tag_v.len() <= padded@.len() <= 9 || (padded@ == tag_v && tag_v.len() > 9),
            padded@.len() <= 9 ==> padded@ == tag_v + Seq::new(
                (padded@.len() - tag_v.len()) as nat,
                |_i: int| ' ',
            ),
            padded@.len() > 9 ==> padded@ == tag_v,
        decreases 9 - padded.len(),
    {
        let ghost before = padded@;
        padded.push(' ');
        assert(padded@ =~= tag_v + Seq::new((padded@.len() - tag_v.len()) as nat, |_i: int| ' '));
    }
    proof {
        if tag_v.len() >= 9 {
            assert(padded@ =~= tag_v);
        } else {
            assert(padded@ =~= tag_v + Seq::new((9 - tag_v.len()) as nat, |_i: int| ' '));
        }
    }
    extend_chars(&mut out, &padded);
    out.push(' ');
    extend_str(&mut out, message);
    let r = string_of(&out);
    assert(r@ =~= log_line_spec(timestamp@, level, message@));
    r
}

/// The timestamp text of a log line: the local date and time when the time
/// zone gave one, else the raw seconds.
pub fn timestamp_or_secs(local: Option<String>, secs: u64) -> (r: String)
    ensures
        r@ == match local {
            Some(t) => t@,
            None => dec(secs as nat),
        },
{
    match local {
        Some(t) => t,
        None => {
            let d = dec_exec(secs as u128);
            string_of(&d)
        },
    }
}

/// The line the debug log receives for `message` at `level` when the clock
/// reads `secs` and the local date and time of that reading is `local` (as
/// the application renders it, `YYYY-MM-DD HH:MM:SS`; `None` when the time
/// zone gave none, and the raw seconds stand in its place): the timestamp,
/// the padded level tag and the message (see [`format_log_line`]).
pub fn debug_log_line(local: Option<String>, secs: u64, level: LogLevel, message: &str) -> (r: String)
    ensures
        r@ == log_line_spec(
            match local {
                Some(t) => t@,
                None => dec(secs as nat),
            },
            level,
            message@,
        ),
{
    let ts = timestamp_or_secs(local, secs);
    format_log_line(ts.as_str(), level, message)
}

// ── Reading the log back ────────────────────────────────────────────────────

/// A line without the `\r` of a `\r\n` ending.
pub open spec fn strip_cr(x: Seq<char>) -> Seq<char> {
    if x.len() > 0 && x.last() == '\r' {
        x.drop_last()
    } else {
        x
    }
}

/// The lines of `s` as `str::lines` yields them: split after each `\n`, each
/// line without its `\n` and the `\r` before it; a final line ending is
/// optional and adds no empty line; a lone `\r` at the very end stays.
pub open spec fn str_lines(s: Seq<char>) -> Seq<Seq<char>>
    decreases s.len(),
{
    if s.len() == 0 {
        Seq::empty()
    } else {
        match find_from(s, seq!['\n'], 0) {
            Some(i) => {
                proof {
                    lemma_find_from_matches(s, seq!['\n'], 0);
                }
                seq![strip_cr(s.take(i))] + str_lines(s.skip(i + 1))
            },
            None => seq![s],
        }
    }
}

/// The last `limit` lines of `s` (all of them when it has fewer), joined with `\n`.
pub open spec fn tail_text(s: Seq<char>, limit: nat) -> Seq<char> {
    let ls = str_lines(s);
    let start = if ls.len() > limit { ls.len() - limit } else { 0 };
    join(ls.skip(start), seq!['\n'])
}

proof fn lemma_lines_step(s: Seq<char>, start: int, i: int)
    requires
        0 <= start <= i < s.len(),
        s[i] == '\n',
        forall|k: int| start <= k < i ==> s[k] != '\n',
    ensures
        str_lines(s.skip(start)) == seq![strip_cr(s.subrange(start, i))] + str_lines(s.skip(i + 1)),
{
    let t = s.skip(start);
    let nl = seq!['\n'];
    assert forall|k: int| 0 <= k < i - start implies !matches_at(t, nl, k) by {
        assert(t[k] == s[start + k]);
        if matches_at(t, nl, k) {
            assert(t.subrange(k, k + 1)[0] == t[k]);
        }
    }
    lemma_find_from_skip(t, nl, 0, i - start);
    assert(t.subrange(i - start, i - start + 1) =~= nl);
    assert(find_from(t, nl, i - start) == Some(i - start));
    assert(t.take(i - start) =~= s.subrange(start, i));
    assert(t.skip(i - start + 1) =~= s.skip(i + 1));
}

proof fn lemma_lines_last(s: Seq<char>, start: int)
    requires
        0 <= start <= s.len(),
        forall|k: int| start <= k < s.len() ==> s[k] != '\n',
    ensures
        str_lines(s.skip(start)) == (if start == s.len() { Seq::<Seq<char>>::empty() } else { seq![s.skip(start)] }),
{
    let t = s.skip(start);
    let nl = seq!['\n'];
    if start < s.len() {
        assert forall|k: int| 0 <= k < t.len() implies !matches_at(t, nl, k) by {
            assert(t[k] == s[start + k]);
            if matches_at(t, nl, k) {
                assert(t.subrange(k, k + 1)[0] == t[k]);
            }
        }
        lemma_find_from_skip(t, nl, 0, t.len() as int);
    }
}

/// Splits `s` into its lines as `str::lines` does.
pub fn lines_exec(s: &Vec<char>) -> (r: Vec<Vec<char>>)
    ensures
        r@.map_values(|w: Vec<char>| w@) == str_lines(s@),
{
    let mut r: Vec<Vec<char>> = Vec::new();
    let mut start: usize = 0;
    let mut i: usize = 0;
    assert(s@.skip(0) =~= s@);
    assert(r@.map_values(|w: Vec<char>| w@) + str_lines(s@) =~= str_lines(s@));
    while i < s.len()
        invariant
            start <= i <= s.len(),
            forall|k: int| start <= k < i ==> s@[k] != '\n',
            r@.map_values(|w: Vec<char>| w@) + str_lines(s@.skip(start as int)) == str_lines(s@),
        decreases s.len() - i,
    {
        if s[i] == '\n' {
            proof {
                lemma_lines_step(s@, start as int, i as int);
            }
            let mut end = i;
            if end > start && s[end - 1] == '\r' {
                end = end - 1;
            }
            let line = slice_chars(s, start, end);
            proof {
                let piece = s@.subrange(start as int, i as int);
                assert(line@ =~= strip_cr(piece));
            }
            let ghost before = r@.map_values(|w: Vec<char>| w@);
            r.push(line);
            assert(r@.map_values(|w: Vec<char>| w@) =~= before.push(line@));
            assert(before.push(line@) + str_lines(s@.skip(i + 1)) =~= before + (seq![line@]
                + str_lines(s@.skip(i + 1))));
            start = i + 1;
        }
        i += 1;
    }
    proof {
        lemma_lines_last(s@, start as int);
    }
    if start < s.len() {
        let line = slice_chars(s, start, s.len());
        let ghost before = r@.map_values(|w: Vec<char>| w@);
        r.push(line);
        assert(line@ =~= s@.skip(start as int));
        assert(r@.map_values(|w: Vec<char>| w@) =~= before + seq![line@]);
    } else {
        assert(r@.map_values(|w: Vec<char>| w@) =~= r@.map_values(|w: Vec<char>| w@) + Seq::<Seq<char>>::empty());
    }
    r
}

/// The last `line_limit` lines of the debug log's text, joined with `\n` —
/// what the Status window shows.
pub fn log_tail(content: &str, line_limit: usize) -> (r: String)
    ensures
        r@ == tail_text(content@, line_limit as nat),
{
    let cs = chars_of(content);
    let lines = lines_exec(&cs);
    let ghost ls = lines@.map_values(|w: Vec<char>| w@);
    let start: usize = if lines.len() > line_limit {
        lines.len() - line_limit
    } else {
        0
    };
    let mut kept: Vec<Vec<char>> = Vec::new();
    let mut i: usize = start;
    while i < lines.len()
        invariant
            start <= i <= lines.len(),
            ls == lines@.map_values(|w: Vec<char>| w@),
            kept@.map_values(|w: Vec<char>| w@) == ls.subrange(start as int, i as int),
        decreases lines.len() - i,
    {
        let line = slice_chars(&lines[i], 0, lines[i].len());
        let ghost before = kept@.map_values(|w: Vec<char>| w@);
        kept.push(line);
        assert(line@ =~= ls[i as int]);
        assert(kept@.map_values(|w: Vec<char>| w@) =~= before.push(line@));
        assert(kept@.map_values(|w: Vec<char>| w@) =~= ls.subrange(start as int, i + 1));
        i += 1;
    }
    assert(ls.subrange(start as int, lines.len() as int) =~= ls.skip(start as int));
    let mut sep: Vec<char> = Vec::new();
    sep.push('\n');
    assert(sep@ =~= seq!['\n']);
    let joined = join_exec(&kept, &sep);
    string_of(&joined)
}

/// Text made of the lines `ls`, each followed by `\n` (how the log is written).
pub open spec fn written_lines(ls: Seq<Seq<char>>) -> Seq<char>
    decreases ls.len(),
{
    if ls.len() == 0 {
        Seq::empty()
    } else {
        ls[0] + seq!['\n'] + written_lines(ls.drop_first())
    }
}

/// A line the log can give back unchanged: no `\n` inside, no `\r` at its end.
pub open spec fn plain_line(l: Seq<char>) -> bool {
    (forall|k: int| 0 <= k < l.len() ==> l[k] != '\n') && !(l.len() > 0 && l.last() == '\r')
}

/// Reading the log back gives the lines that were written: text made of
/// plain lines, each ended by `\n`, splits into exactly those lines.
pub proof fn lemma_written_lines_read_back(ls: Seq<Seq<char>>)
    requires
        forall|i: int| 0 <= i < ls.len() ==> plain_line(#[trigger] ls[i]),
    ensures
        str_lines(written_lines(ls)) == ls,
    decreases ls.len(),
{
    if ls.len() > 0 {
        let rest = ls.drop_first();
        assert forall|i: int| 0 <= i < rest.len() implies plain_line(#[trigger] rest[i]) by {
            assert(rest[i] == ls[i + 1]);
        }
        lemma_written_lines_read_back(rest);
        let l = ls[0];
        assert(plain_line(l));
        let s = written_lines(ls);
        let tail = written_lines(rest);
        assert(s == l + seq!['\n'] + tail);
        let nl = seq!['\n'];
        assert forall|k: int| 0 <= k < l.len() implies !matches_at(s, nl, k) by {
            assert(s[k] == l[k]);
            if matches_at(s, nl, k) {
                assert(s.subrange(k, k + 1)[0] == s[k]);
            }
        }
        lemma_find_from_skip(s, nl, 0, l.len() as int);
        assert(s.subrange(l.len() as int, l.len() as int + 1) =~= nl);
        assert(find_from(s, nl, l.len() as int) == Some(l.len() as int));
        assert(s.take(l.len() as int) =~= l);
        assert(s.skip(l.len() as int + 1) =~= tail);
        assert(strip_cr(l) == l);
        assert(seq![l] + rest =~= ls);
    }
}

/// The last `limit` lines written are what the Status view shows.
pub proof fn lemma_tail_of_written_lines(ls: Seq<Seq<char>>, limit: nat)
    requires
        forall|i: int| 0 <= i < ls.len() ==> plain_line(#[trigger] ls[i]),
    ensures
        tail_text(written_lines(ls), limit) == join(
            ls.skip(if ls.len() > limit { ls.len() - limit } else { 0 }),
            seq!['\n'],
        ),
{
    lemma_written_lines_read_back(ls);
}

} // verus!
