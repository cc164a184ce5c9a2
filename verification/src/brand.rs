//! Which logo the header shows for the rig's brand, the CPU and the GPU.
//! The application holds the loaded images; the library picks one.

use vstd::prelude::*;
use crate::gpu_engine::eq_str;
use crate::text::{chars_of, contains_seq, find_exec};
use crate::words::{ascii_lower, ascii_lower_exec};

verus! {

/// A rig brand with a logo of its own.
#[derive(Debug, Clone, Copy, PartialEq, Eq, Structural)]
pub enum RigLogo {
    Rog,
    Msi,
    Alienware,
    Razer,
    Legion,
    Omen,
    Aorus,
    Gigabyte,
    Predator,
    Taurus,
}

/// A CPU or GPU vendor with a logo.
#[derive(Debug, Clone, Copy, PartialEq, Eq, Structural)]
pub enum Vendor {
    Amd,
    Intel,
    Nvidia,
}

/// The logo of a brand key; none for brands without an image.
pub open spec fn rig_logo_spec(brand: Seq<char>) -> Option<RigLogo> {
    if brand == "rog"@ || brand == "asus-rog"@ { Some(RigLogo::Rog) }
    else if brand == "msi"@ { Some(RigLogo::Msi) }
    else if brand == "alienware"@ { Some(RigLogo::Alienware) }
    else if brand == "razer"@ { Some(RigLogo::Razer) }
    else if brand == "legion"@ { Some(RigLogo::Legion) }
    else if brand == "omen"@ { Some(RigLogo::Omen) }
    else if brand == "aorus"@ { Some(RigLogo::Aorus) }
    else if brand == "gigabyte"@ { Some(RigLogo::Gigabyte) }
    else if brand == "predator"@ { Some(RigLogo::Predator) }
    else if brand == "taurus"@ { Some(RigLogo::Taurus) }
    else { None }
}

/// Brand logo for the rig header; `None` when no image exists for this brand.
pub fn rig_logo(brand: &str) -> (r: Option<RigLogo>)
    ensures
        r == rig_logo_spec(brand@),
{
    let b = chars_of(brand);
    if eq_str(&b, "rog") || eq_str(&b, "asus-rog") { Some(RigLogo::Rog) }
    else if eq_str(&b, "msi") { Some(RigLogo::Msi) }
    else if eq_str(&b, "alienware") { Some(RigLogo::Alienware) }
    else if eq_str(&b, "razer") { Some(RigLogo::Razer) }
    else if eq_str(&b, "legion") { Some(RigLogo::Legion) }
    else if eq_str(&b, "omen") { Some(RigLogo::Omen) }
    else if eq_str(&b, "aorus") { Some(RigLogo::Aorus) }
    else if eq_str(&b, "gigabyte") { Some(RigLogo::Gigabyte) }
    else if eq_str(&b, "predator") { Some(RigLogo::Predator) }
    else if eq_str(&b, "taurus") { Some(RigLogo::Taurus) }
    else { None }
}

/// Whether `s` contains the literal `p`.
fn has(s: &Vec<char>, p: &str) -> (b: bool)
    ensures
        b == contains_seq(s@, p@),
{
    let pc = chars_of(p);
    find_exec(s, &pc).is_some()
}

/// The CPU vendor named in a CPU model string (ASCII case ignored).
pub open spec fn cpu_vendor(model: Seq<char>) -> Option<Vendor> {
    let m = ascii_lower(model);
    if contains_seq(m, "amd"@) || contains_seq(m, "ryzen"@) || contains_seq(m, "athlon"@) || contains_seq(m, "epyc"@) {
        Some(Vendor::Amd)
    } else if contains_seq(m, "intel"@) || contains_seq(m, "core i"@) || contains_seq(m, "xeon"@) {
        Some(Vendor::Intel)
    } else {
        None
    }
}

/// The GPU vendor named in a GPU name (ASCII case ignored).
pub open spec fn gpu_vendor(name: Seq<char>) -> Option<Vendor> {
    let m = ascii_lower(name);
    if contains_seq(m, "amd"@) || contains_seq(m, "radeon"@) || contains_seq(m, "rx "@) || contains_seq(m, "vega"@) {
        Some(Vendor::Amd)
    } else if contains_seq(m, "nvidia"@) || contains_seq(m, "geforce"@) || contains_seq(m, "rtx"@) || contains_seq(m, "gtx"@) {
        Some(Vendor::Nvidia)
    } else if contains_seq(m, "intel"@) || contains_seq(m, "arc"@) || contains_seq(m, "uhd"@) || contains_seq(m, "iris"@) {
        Some(Vendor::Intel)
    } else {
        None
    }
}

/// CPU vendor logo derived from the CPU model string.
pub fn cpu_logo(cpu_model: &str) -> (r: Option<Vendor>)
    ensures
        r == cpu_vendor(cpu_model@),
{
    let m = ascii_lower_exec(&chars_of(cpu_model));
    if has(&m, "amd") || has(&m, "ryzen") || has(&m, "athlon") || has(&m, "epyc") {
        Some(Vendor::Amd)
    } else if has(&m, "intel") || has(&m, "core i") || has(&m, "xeon") {
        Some(Vendor::Intel)
    } else {
        None
    }
}

/// GPU vendor logo derived from the GPU name.
pub fn gpu_logo(gpu_name: &str) -> (r: Option<Vendor>)
    ensures
        r == gpu_vendor(gpu_name@),
{
    let m = ascii_lower_exec(&chars_of(gpu_name));
    if has(&m, "amd") || has(&m, "radeon") || has(&m, "rx ") || has(&m, "vega") {
        Some(Vendor::Amd)
    } else if has(&m, "nvidia") || has(&m, "geforce") || has(&m, "rtx") || has(&m, "gtx") {
        Some(Vendor::Nvidia)
    } else if has(&m, "intel") || has(&m, "arc") || has(&m, "uhd") || has(&m, "iris") {
        Some(Vendor::Intel)
    } else {
        None
    }
}

/// The logo in the header panel.
#[derive(Debug, Clone, Copy, PartialEq, Eq, Structural)]
pub enum HeaderLogo {
    Brand(RigLogo),
    Cpu(Vendor),
}

/// The header's logo: the brand logo when the rig's brand has one, else the
/// CPU architecture badge, else nothing (the logo area is hidden).
pub fn header_logo(brand: &str, cpu_model: &str) -> (r: Option<HeaderLogo>)
    ensures
        r == match rig_logo_spec(brand@) {
            Some(l) => Some(HeaderLogo::Brand(l)),
            None => match cpu_vendor(cpu_model@) {
                Some(v) => Some(HeaderLogo::Cpu(v)),
                None => None,
            },
        },
{
    match rig_logo(brand) {
        Some(l) => Some(HeaderLogo::Brand(l)),
        None => match cpu_logo(cpu_model) {
            Some(v) => Some(HeaderLogo::Cpu(v)),
            None => None,
        },
    }
}

} // verus!
