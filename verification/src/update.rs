//! Update check: semantic-version comparison and the decision taken on a
//! fetched release manifest.

use vstd::prelude::*;
use crate::text::{chars_of, parse_unsigned, parse_unsigned_exec, split_once, split_once_exec, slice_chars};

verus! {

/// A release that is newer than the running build.
#[derive(Debug)]
pub struct UpdateInfo {
    pub version: String,
    pub notes: String,
    pub url: String,
}

impl Clone for UpdateInfo {
    fn clone(&self) -> (c: Self)
        ensures
            c.version@ == self.version@ && c.notes@ == self.notes@ && c.url@ == self.url@,
    {
        UpdateInfo { version: self.version.clone(), notes: self.notes.clone(), url: self.url.clone() }
    }
}

/// Result of a version check.
pub enum CheckResult {
    /// Already on the latest version.
    UpToDate,
    /// A newer version is available.
    UpdateAvailable(UpdateInfo),
}

/// `s` without its leading `v` characters (`trim_start_matches('v')`).
pub open spec fn trim_leading_v(s: Seq<char>) -> Seq<char>
    decreases s.len(),
{
    if s.len() > 0 && s[0] == 'v' {
        trim_leading_v(s.drop_first())
    } else {
        s
    }
}

/// A version component: its `u64` value, or 0 when it does not parse.
pub open spec fn component(s: Seq<char>) -> nat {
    match parse_unsigned(s, 10, u64::MAX as nat) {
        Some(v) => v,
        None => 0,
    }
}

/// The part of `s` before its first `-` (all of `s` when there is none).
pub open spec fn before_dash(s: Seq<char>) -> Seq<char> {
    match split_once(s, "-"@) {
        Some((head, _)) => head,
        None => s,
    }
}

/// `(major, minor, patch)` of a version string such as `v1.25.0-beta`: leading
/// `v`s dropped, split at the first two dots, a pre-release suffix of the patch
/// ignored, and a missing or malformed component read as 0.
pub open spec fn semver(v: Seq<char>) -> (nat, nat, nat) {
    let t = trim_leading_v(v);
    match split_once(t, "."@) {
        None => (component(t), 0, 0),
        Some((a, rest)) => match split_once(rest, "."@) {
            None => (component(a), component(rest), 0),
            Some((b, c)) => (component(a), component(b), component(before_dash(c))),
        },
    }
}

/// Lexicographic order on version triples.
pub open spec fn triple_gt(a: (nat, nat, nat), b: (nat, nat, nat)) -> bool {
    a.0 > b.0 || (a.0 == b.0 && (a.1 > b.1 || (a.1 == b.1 && a.2 > b.2)))
}

fn component_exec(s: &Vec<char>) -> (v: u64)
    ensures
        v as nat == component(s@),
{
    match parse_unsigned_exec(s, 10, 0xFFFF_FFFF_FFFF_FFFF) {
        Some(v) => v,
        None => 0,
    }
}

/// Parses a version string into `(major, minor, patch)`.
pub fn parse_semver(v: &str) -> (r: (u64, u64, u64))
    ensures
        (r.0 as nat, r.1 as nat, r.2 as nat) == semver(v@),
{
    let cs = chars_of(v);
    let mut start: usize = 0;
    assert(cs@.skip(0) == cs@);
    while start < cs.len() && cs[start] == 'v'
        invariant
            start <= cs.len(),
            trim_leading_v(cs@) == trim_leading_v(cs@.skip(start as int)),
        decreases cs.len() - start,
    {
        assert(cs@.skip(start as int).drop_first() == cs@.skip(start + 1));
        start += 1;
    }
    let t = slice_chars(&cs, start, cs.len());
    assert(t@ == cs@.skip(start as int));
    assert(trim_leading_v(t@) == t@);
    let dot = chars_of(".");
    match split_once_exec(&t, &dot) {
        None => (component_exec(&t), 0, 0),
        Some((a, rest)) => match split_once_exec(&rest, &dot) {
            None => (component_exec(&a), component_exec(&rest), 0),
            Some((b, c)) => {
                let patch = match split_once_exec(&c, &chars_of("-")) {
                    Some((head, _)) => head,
                    None => c,
                };
                (component_exec(&a), component_exec(&b), component_exec(&patch))
            },
        },
    }
}

/// Whether `remote` names a later version than `current`.
pub fn is_newer(remote: &str, current: &str) -> (b: bool)
    ensures
        b == triple_gt(semver(remote@), semver(current@)),
{
    let r = parse_semver(remote);
    let c = parse_semver(current);
    r.0 > c.0 || (r.0 == c.0 && (r.1 > c.1 || (r.1 == c.1 && r.2 > c.2)))
}

/// `is_newer` is a strict order: no version is newer than itself …
pub proof fn lemma_is_newer_irreflexive(v: Seq<char>)
    ensures
        !triple_gt(semver(v), semver(v)),
{
}

/// … newer-than never holds both ways …
pub proof fn lemma_is_newer_asymmetric(a: Seq<char>, b: Seq<char>)
    ensures
        triple_gt(semver(a), semver(b)) ==> !triple_gt(semver(b), semver(a)),
{
}

/// … and a release newer than one that is newer than a third is newer than the third.
pub proof fn lemma_is_newer_transitive(a: Seq<char>, b: Seq<char>, c: Seq<char>)
    ensures
        triple_gt(semver(a), semver(b)) && triple_gt(semver(b), semver(c)) ==> triple_gt(
            semver(a),
            semver(c),
        ),
{
}

/// File name under which the installer of release `version` is saved:
/// `rigstats-update-v<version>.exe`.
pub fn installer_file_name(version: &str) -> (r: String)
    ensures
        r@ == "rigstats-update-v"@ + version@ + ".exe"@,
{
    let mut out: Vec<char> = Vec::new();
    crate::text::extend_str(&mut out, "rigstats-update-v");
    crate::text::extend_str(&mut out, version);
    crate::text::extend_str(&mut out, ".exe");
    crate::text::string_of(&out)
}

/// The error reported when a newer release lists no Windows installer.
pub open spec fn missing_url_message() -> Seq<char> {
    "No windows-x86_64 URL in manifest"@
}

/// Decides the outcome of an update check from a fetched manifest: its
/// `version`, optional release `notes`, and the Windows installer `url` if the
/// manifest lists one, compared against the running build `current`.
pub fn check_manifest(version: String, notes: Option<String>, url: Option<String>, current: &str) -> (r: Result<CheckResult, String>)
    ensures
        !triple_gt(semver(version@), semver(current@)) ==> r matches Ok(CheckResult::UpToDate),
        triple_gt(semver(version@), semver(current@)) ==> match r {
            Ok(CheckResult::UpdateAvailable(info)) => url matches Some(u) && info.url@ == u@
                && info.version@ == version@ && info.notes@ == match notes {
                Some(n) => n@,
                None => Seq::<char>::empty(),
            },
            Err(e) => url is None && e@ == missing_url_message(),
            _ => false,
        },
{
    if !is_newer(version.as_str(), current) {
        return Ok(CheckResult::UpToDate);
    }
    let notes = match notes {
        Some(n) => n,
        None => String::new(),
    };
    match url {
        Some(u) => Ok(CheckResult::UpdateAvailable(UpdateInfo { version, notes, url: u })),
        None => Err(crate::gpu_engine::owned("No windows-x86_64 URL in manifest")),
    }
}

} // verus!
