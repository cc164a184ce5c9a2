//! Per-process GPU engine utilisation: parsing of the `\GPU Engine(*)` PDH
//! instance names, engine-label compaction, and the adapter-LUID table.
//!
//! The PDH query and DXGI enumeration are Windows calls made by the
//! application; the library decides what each name and adapter means.

use vstd::prelude::*;
use crate::text::{
    all_digits, chars_of, digit_value, digits_value, parse_unsigned, parse_unsigned_exec, slice_chars,
    split_once, split_once_exec, string_of, strip_prefix, strip_prefix_exec, unsigned_digits,
};

verus! {

/// `(HighPart, LowPart)` of an adapter LUID — the identity carried in a PDH
/// `\GPU Engine` instance name and matched against DXGI's `AdapterLuid`.
pub type Luid = (i32, u32);

/// One parsed `\GPU Engine(...)` instance name.
#[derive(Debug, PartialEq)]
pub struct ParsedInstance {
    pub pid: u32,
    pub luid: Luid,
    /// Compact engine label.
    pub engine: String,
}

/// One physical (or software/WARP) display adapter as reported by DXGI.
#[derive(Debug, PartialEq)]
pub struct AdapterDesc {
    pub luid: Luid,
    pub description: String,
    pub dedicated_vram: u64,
    /// Raw `DXGI_ADAPTER_DESC1.Flags` (bit 1 = `DXGI_ADAPTER_FLAG_SOFTWARE`).
    pub flags: u32,
}

impl Clone for ParsedInstance {
    fn clone(&self) -> (c: Self)
        ensures
            c.pid == self.pid && c.luid == self.luid && c.engine@ == self.engine@,
    {
        ParsedInstance { pid: self.pid, luid: (self.luid.0, self.luid.1), engine: self.engine.clone() }
    }
}

impl Clone for AdapterDesc {
    fn clone(&self) -> (c: Self)
        ensures
            c.luid == self.luid && c.description@ == self.description@ && c.dedicated_vram
                == self.dedicated_vram && c.flags == self.flags,
    {
        AdapterDesc {
            luid: (self.luid.0, self.luid.1),
            description: self.description.clone(),
            dedicated_vram: self.dedicated_vram,
            flags: self.flags,
        }
    }
}

/// A character that may precede a per-queue ordinal (`Compute_0`, `Compute 0`).
pub open spec fn is_ordinal_sep(c: char) -> bool {
    c == '_' || c == ' '
}

/// The last position before `i` holding an ordinal separator.
pub open spec fn last_sep_before(s: Seq<char>, i: int) -> Option<int>
    decreases i,
{
    if i <= 0 {
        None
    } else if is_ordinal_sep(s[i - 1]) {
        Some(i - 1)
    } else {
        last_sep_before(s, i - 1)
    }
}

/// Every character of `s` is an ASCII digit.
pub open spec fn all_ascii_digits(s: Seq<char>) -> bool {
    forall|i: int| 0 <= i < s.len() ==> '0' <= #[trigger] s[i] <= '9'
}

/// The engine type with a trailing numeric ordinal (after the last `_` or
/// space) removed.
pub open spec fn engine_base(raw: Seq<char>) -> Seq<char> {
    match last_sep_before(raw, raw.len() as int) {
        Some(i) => {
            let tail = raw.skip(i + 1);
            if tail.len() > 0 && all_ascii_digits(tail) {
                raw.take(i)
            } else {
                raw
            }
        },
        None => raw,
    }
}

/// The short panel label of an engine type (the type itself when unknown).
pub open spec fn engine_label(base: Seq<char>) -> Seq<char> {
    if base == "3D"@ || base == "High Priority 3D"@ {
        "3D"@
    } else if base == "VideoDecode"@ || base == "Video Decode"@ {
        "Decode"@
    } else if base == "VideoEncode"@ || base == "Video Encode"@ {
        "Encode"@
    } else if base == "VideoProcessing"@ || base == "Video Processing"@ {
        "VideoProc"@
    } else if base == "Compute"@ || base == "High Priority Compute"@ {
        "Compute"@
    } else if base == "Copy"@ {
        "Copy"@
    } else if base == "Security"@ {
        "Security"@
    } else if base == "GraphicsInternal"@ || base == "Graphics"@ {
        "Graphics"@
    } else if base == "Video JPEG"@ {
        "JPEG"@
    } else if base == "Video Codec"@ || base == "Video Codec Engine"@ {
        "Codec"@
    } else if base == "Timer"@ {
        "Timer"@
    } else {
        base
    }
}

/// The compact label of a raw `engtype_` token.
pub open spec fn compact_engine_spec(raw: Seq<char>) -> Seq<char> {
    engine_label(engine_base(raw))
}

/// A `0x`/`0X`-prefixed hexadecimal `u32`.
pub open spec fn parse_hex_spec(s: Seq<char>) -> Option<nat> {
    let hex = match strip_prefix(s, "0x"@) {
        Some(h) => Some(h),
        None => strip_prefix(s, "0X"@),
    };
    match hex {
        Some(h) => parse_unsigned(h, 16, u32::MAX as nat),
        None => None,
    }
}

/// What an instance name of the shape
/// `pid_<PID>_luid_0x<HighPart>_0x<LowPart>_phys_<N>_eng_<N>_engtype_<TYPE>`
/// denotes: `(pid, (high, low), compact engine label)`, or `None` for any
/// other shape.
pub open spec fn instance_fields(name: Seq<char>) -> Option<(u32, Luid, Seq<char>)> {
    match strip_prefix(name, "pid_"@) {
        None => None,
        Some(rest) => match split_once(rest, "_luid_"@) {
            None => None,
            Some((pid_s, rest)) => match parse_unsigned(pid_s, 10, u32::MAX as nat) {
                None => None,
                Some(pid) => match split_once(rest, "_"@) {
                    None => None,
                    Some((high_s, rest)) => match split_once(rest, "_phys_"@) {
                        None => None,
                        Some((low_s, rest)) => match parse_hex_spec(high_s) {
                            None => None,
                            Some(high) => match parse_hex_spec(low_s) {
                                None => None,
                                Some(low) => match split_once(rest, "_engtype_"@) {
                                    None => None,
                                    Some((_, raw)) => if raw.len() == 0 {
                                        None
                                    } else {
                                        Some(
                                            (
                                                pid as u32,
                                                ((high as u32) as i32, low as u32),
                                                compact_engine_spec(raw),
                                            ),
                                        )
                                    },
                                },
                            },
                        },
                    },
                },
            },
        },
    }
}

/// Whether the characters `v` spell `s`.
pub fn eq_str(v: &Vec<char>, s: &str) -> (b: bool)
    ensures
        b == (v@ == s@),
{
    let w = chars_of(s);
    if v.len() != w.len() {
        return false;
    }
    let mut i: usize = 0;
    while i < v.len()
        invariant
            v.len() == w.len(),
            w@ == s@,
            i <= v.len(),
            forall|j: int| 0 <= j < i ==> v@[j] == w@[j],
        decreases v.len() - i,
    {
        if v[i] != w[i] {
            return false;
        }
        i += 1;
    }
    assert(v@ =~= w@);
    true
}

/// A `String` spelling `s`.
pub fn owned(s: &str) -> (r: String)
    ensures
        r@ == s@,
{
    string_of(&chars_of(s))
}

fn engine_base_exec(raw: &Vec<char>) -> (b: Vec<char>)
    ensures
        b@ == engine_base(raw@),
{
    let mut i = raw.len();
    while i > 0 && !(raw[i - 1] == '_' || raw[i - 1] == ' ')
        invariant
            i <= raw.len(),
            last_sep_before(raw@, raw.len() as int) == last_sep_before(raw@, i as int),
        decreases i,
    {
        i -= 1;
    }
    if i == 0 {
        return slice_chars(raw, 0, raw.len());
    }
    let sep = i - 1;
    let tail = slice_chars(raw, sep + 1, raw.len());
    let mut all = tail.len() > 0;
    let mut k: usize = 0;
    while k < tail.len()
        invariant
            k <= tail.len(),
            all == (tail.len() > 0 && forall|j: int| 0 <= j < k ==> '0' <= #[trigger] tail@[j] <= '9'),
        decreases tail.len() - k,
    {
        if !('0' <= tail[k] && tail[k] <= '9') {
            all = false;
        }
        k += 1;
    }
    assert(tail@ == raw@.skip(sep + 1));
    if all {
        slice_chars(raw, 0, sep)
    } else {
        slice_chars(raw, 0, raw.len())
    }
}

/// Shorten a raw `engtype_` token to something that fits a narrow panel column:
/// a trailing `_<digits>` or ` <digits>` ordinal is dropped and the known engine
/// names map to short labels; unknown names pass through.
pub fn compact_engine(raw: &str) -> (r: String)
    ensures
        r@ == compact_engine_spec(raw@),
{
    let chars = chars_of(raw);
    let base = engine_base_exec(&chars);
    proof {
        assert(raw@ == chars@);
    }
    if eq_str(&base, "3D") || eq_str(&base, "High Priority 3D") {
        owned("3D")
    } else if eq_str(&base, "VideoDecode") || eq_str(&base, "Video Decode") {
        owned("Decode")
    } else if eq_str(&base, "VideoEncode") || eq_str(&base, "Video Encode") {
        owned("Encode")
    } else if eq_str(&base, "VideoProcessing") || eq_str(&base, "Video Processing") {
        owned("VideoProc")
    } else if eq_str(&base, "Compute") || eq_str(&base, "High Priority Compute") {
        owned("Compute")
    } else if eq_str(&base, "Copy") {
        owned("Copy")
    } else if eq_str(&base, "Security") {
        owned("Security")
    } else if eq_str(&base, "GraphicsInternal") || eq_str(&base, "Graphics") {
        owned("Graphics")
    } else if eq_str(&base, "Video JPEG") {
        owned("JPEG")
    } else if eq_str(&base, "Video Codec") || eq_str(&base, "Video Codec Engine") {
        owned("Codec")
    } else if eq_str(&base, "Timer") {
        owned("Timer")
    } else {
        string_of(&base)
    }
}

fn parse_hex_chars(s: &Vec<char>) -> (r: Option<u32>)
    ensures
        r matches Some(v) ==> parse_hex_spec(s@) == Some(v as nat),
        r is None ==> parse_hex_spec(s@) is None,
{
    let lower = chars_of("0x");
    let upper = chars_of("0X");
    let hex = match strip_prefix_exec(s, &lower) {
        Some(h) => Some(h),
        None => strip_prefix_exec(s, &upper),
    };
    match hex {
        Some(h) => match parse_unsigned_exec(&h, 16, 0xFFFF_FFFF) {
            Some(v) => Some(v as u32),
            None => None,
        },
        None => None,
    }
}

/// Parses a `0x`- or `0X`-prefixed hexadecimal `u32`.
pub fn parse_hex_u32(s: &str) -> (r: Option<u32>)
    ensures
        r matches Some(v) ==> parse_hex_spec(s@) == Some(v as nat),
        r is None ==> parse_hex_spec(s@) is None,
{
    parse_hex_chars(&chars_of(s))
}

/// Parse a `\GPU Engine(...)` PDH instance name.
///
/// Shape: `pid_<PID>_luid_0x<HighPart>_0x<LowPart>_phys_<N>_eng_<N>_engtype_<TYPE>`.
/// `<TYPE>` is open-ended; unknown suffixes are tolerated and a trailing
/// `_<digits>` ordinal is stripped. Returns `None` for any shape that doesn't fit.
pub fn parse_instance(name: &str) -> (r: Option<ParsedInstance>)
    ensures
        r matches Some(p) ==> instance_fields(name@) == Some((p.pid, p.luid, p.engine@)),
        r is None ==> instance_fields(name@) is None,
{
    let name_c = chars_of(name);
    let rest = match strip_prefix_exec(&name_c, &chars_of("pid_")) {
        Some(r) => r,
        None => return None,
    };
    let (pid_s, rest) = match split_once_exec(&rest, &chars_of("_luid_")) {
        Some(p) => p,
        None => return None,
    };
    let pid = match parse_unsigned_exec(&pid_s, 10, 0xFFFF_FFFF) {
        Some(v) => v as u32,
        None => return None,
    };
    let (high_s, rest) = match split_once_exec(&rest, &chars_of("_")) {
        Some(p) => p,
        None => return None,
    };
    let (low_s, rest) = match split_once_exec(&rest, &chars_of("_phys_")) {
        Some(p) => p,
        None => return None,
    };
    let high = match parse_hex_chars(&high_s) {
        Some(v) => v as i32,
        None => return None,
    };
    let low = match parse_hex_chars(&low_s) {
        Some(v) => v,
        None => return None,
    };
    let engine_raw = match split_once_exec(&rest, &chars_of("_engtype_")) {
        Some((_, t)) => t,
        None => return None,
    };
    if engine_raw.len() == 0 {
        return None;
    }
    let raw_s = string_of(&engine_raw);
    let engine = compact_engine(raw_s.as_str());
    Some(ParsedInstance { pid, luid: (high, low), engine })
}

/// DXGI's flag bit for software (WARP / "Microsoft Basic Render Driver") adapters.
pub const DXGI_ADAPTER_FLAG_SOFTWARE: u32 = 2;

/// The `(LUID, description)` entries of the adapters that are not software
/// adapters, in enumeration order.
pub open spec fn hardware_adapter_entries(adapters: Seq<AdapterDesc>) -> Seq<(Luid, Seq<char>)>
    decreases adapters.len(),
{
    if adapters.len() == 0 {
        Seq::empty()
    } else {
        let rest = hardware_adapter_entries(adapters.drop_last());
        let a = adapters.last();
        if a.flags & DXGI_ADAPTER_FLAG_SOFTWARE == 0 {
            rest.push((a.luid, a.description@))
        } else {
            rest
        }
    }
}

/// Build the `LUID -> adapter display name` table from an adapter enumeration,
/// skipping software adapters. Where two adapters share a LUID the later entry
/// is the one a lookup finds (see [`table_lookup`]).
pub fn adapter_luid_map(adapters: &Vec<AdapterDesc>) -> (m: Vec<(Luid, String)>)
    ensures
        m@.len() == hardware_adapter_entries(adapters@).len(),
        forall|i: int|
            0 <= i < m@.len() ==> (#[trigger] m@[i]).0 == hardware_adapter_entries(adapters@)[i].0
                && m@[i].1@ == hardware_adapter_entries(adapters@)[i].1,
{
    let mut m: Vec<(Luid, String)> = Vec::new();
    let mut i: usize = 0;
    while i < adapters.len()
        invariant
            i <= adapters.len(),
            m@.len() == hardware_adapter_entries(adapters@.take(i as int)).len(),
            forall|j: int|
                0 <= j < m@.len() ==> (#[trigger] m@[j]).0 == hardware_adapter_entries(
                    adapters@.take(i as int),
                )[j].0 && m@[j].1@ == hardware_adapter_entries(adapters@.take(i as int))[j].1,
        decreases adapters.len() - i,
    {
        let a = &adapters[i];
        assert(adapters@.take(i + 1).drop_last() == adapters@.take(i as int));
        if a.flags & DXGI_ADAPTER_FLAG_SOFTWARE == 0 {
            m.push((a.luid, a.description.clone()));
        }
        i += 1;
    }
    assert(adapters@.take(adapters.len() as int) == adapters@);
    m
}

/// The last entry for `luid` in a table built by [`adapter_luid_map`].
pub open spec fn table_lookup(m: Seq<(Luid, Seq<char>)>, luid: Luid) -> Option<Seq<char>>
    decreases m.len(),
{
    if m.len() == 0 {
        None
    } else if m.last().0 == luid {
        Some(m.last().1)
    } else {
        table_lookup(m.drop_last(), luid)
    }
}

} // verus!
