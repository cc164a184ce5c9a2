//! Display profiles, panel names, tray commands and theme presets.

use vstd::prelude::*;
use crate::text::{chars_of, starts_with, starts_with_exec};
use crate::gpu_engine::eq_str;

verus! {

/// True when the profile is a landscape (wide) layout. Landscape profiles use a
/// `landscape-` key prefix and render panels in a grid rather than a vertical stack.
pub fn profile_is_landscape(profile: &str) -> (b: bool)
    ensures
        b == starts_with(profile@, "landscape-"@),
{
    starts_with_exec(&chars_of(profile), &chars_of("landscape-"))
}

/// Window size `[width, height]` in logical pixels of each display profile;
/// unknown keys get the default 400×780 window.
pub open spec fn profile_size(profile: Seq<char>) -> (nat, nat) {
    if profile == "portrait-xl"@ { (450, 1920) }
    else if profile == "portrait-slim"@ { (480, 1920) }
    else if profile == "portrait-hd"@ { (720, 1280) }
    else if profile == "portrait-wxga"@ { (800, 1280) }
    else if profile == "portrait-fhd"@ { (1080, 1920) }
    else if profile == "portrait-wuxga"@ { (1200, 1920) }
    else if profile == "portrait-qhd"@ { (1440, 2560) }
    else if profile == "portrait-hdplus"@ { (768, 1366) }
    else if profile == "portrait-900x1600"@ { (900, 1600) }
    else if profile == "portrait-1050x1680"@ { (1050, 1680) }
    else if profile == "portrait-1600x2560"@ { (1600, 2560) }
    else if profile == "portrait-4k"@ { (2160, 3840) }
    else if profile == "portrait-fhd-side"@ { (253, 1080) }
    else if profile == "portrait-qhd-side"@ { (338, 1440) }
    else if profile == "portrait-4k-side"@ { (506, 2160) }
    else if profile == "landscape-xl"@ { (1920, 450) }
    else if profile == "landscape-slim"@ { (1920, 480) }
    else if profile == "landscape-hd"@ { (1280, 720) }
    else if profile == "landscape-wxga"@ { (1280, 800) }
    else if profile == "landscape-fhd"@ { (1920, 1080) }
    else if profile == "landscape-wuxga"@ { (1920, 1200) }
    else if profile == "landscape-qhd"@ { (2560, 1440) }
    else if profile == "landscape-hdplus"@ { (1366, 768) }
    else if profile == "landscape-1600x900"@ { (1600, 900) }
    else if profile == "landscape-1680x1050"@ { (1680, 1050) }
    else if profile == "landscape-2560x1600"@ { (2560, 1600) }
    else if profile == "landscape-4k"@ { (3840, 2160) }
    else if profile == "landscape-fhd-top"@ { (1080, 253) }
    else if profile == "landscape-qhd-top"@ { (1440, 338) }
    else if profile == "landscape-4k-top"@ { (2160, 506) }
    else { (400, 780) }
}

/// Window size `[width, height]` of a display profile.
pub fn profile_to_size(profile: &str) -> (r: [u32; 2])
    ensures
        (r[0] as nat, r[1] as nat) == profile_size(profile@),
{
    let p = chars_of(profile);
    let (w, h): (u32, u32) = if eq_str(&p, "portrait-xl") { (450, 1920) }
    else if eq_str(&p, "portrait-slim") { (480, 1920) }
    else if eq_str(&p, "portrait-hd") { (720, 1280) }
    else if eq_str(&p, "portrait-wxga") { (800, 1280) }
    else if eq_str(&p, "portrait-fhd") { (1080, 1920) }
    else if eq_str(&p, "portrait-wuxga") { (1200, 1920) }
    else if eq_str(&p, "portrait-qhd") { (1440, 2560) }
    else if eq_str(&p, "portrait-hdplus") { (768, 1366) }
    else if eq_str(&p, "portrait-900x1600") { (900, 1600) }
    else if eq_str(&p, "portrait-1050x1680") { (1050, 1680) }
    else if eq_str(&p, "portrait-1600x2560") { (1600, 2560) }
    else if eq_str(&p, "portrait-4k") { (2160, 3840) }
    else if eq_str(&p, "portrait-fhd-side") { (253, 1080) }
    else if eq_str(&p, "portrait-qhd-side") { (338, 1440) }
    else if eq_str(&p, "portrait-4k-side") { (506, 2160) }
    else if eq_str(&p, "landscape-xl") { (1920, 450) }
    else if eq_str(&p, "landscape-slim") { (1920, 480) }
    else if eq_str(&p, "landscape-hd") { (1280, 720) }
    else if eq_str(&p, "landscape-wxga") { (1280, 800) }
    else if eq_str(&p, "landscape-fhd") { (1920, 1080) }
    else if eq_str(&p, "landscape-wuxga") { (1920, 1200) }
    else if eq_str(&p, "landscape-qhd") { (2560, 1440) }
    else if eq_str(&p, "landscape-hdplus") { (1366, 768) }
    else if eq_str(&p, "landscape-1600x900") { (1600, 900) }
    else if eq_str(&p, "landscape-1680x1050") { (1680, 1050) }
    else if eq_str(&p, "landscape-2560x1600") { (2560, 1600) }
    else if eq_str(&p, "landscape-4k") { (3840, 2160) }
    else if eq_str(&p, "landscape-fhd-top") { (1080, 253) }
    else if eq_str(&p, "landscape-qhd-top") { (1440, 338) }
    else if eq_str(&p, "landscape-4k-top") { (2160, 506) }
    else { (400, 780) };
    [w, h]
}

/// The landscape twin of a portrait display profile: the same screen turned
/// on its side (a `-side` strip becomes a `-top` strip); `None` for any other key.
pub open spec fn landscape_twin(p: Seq<char>) -> Option<Seq<char>> {
    if p == "portrait-xl"@ { Some("landscape-xl"@) }
    else if p == "portrait-slim"@ { Some("landscape-slim"@) }
    else if p == "portrait-hd"@ { Some("landscape-hd"@) }
    else if p == "portrait-wxga"@ { Some("landscape-wxga"@) }
    else if p == "portrait-fhd"@ { Some("landscape-fhd"@) }
    else if p == "portrait-wuxga"@ { Some("landscape-wuxga"@) }
    else if p == "portrait-qhd"@ { Some("landscape-qhd"@) }
    else if p == "portrait-hdplus"@ { Some("landscape-hdplus"@) }
    else if p == "portrait-900x1600"@ { Some("landscape-1600x900"@) }
    else if p == "portrait-1050x1680"@ { Some("landscape-1680x1050"@) }
    else if p == "portrait-1600x2560"@ { Some("landscape-2560x1600"@) }
    else if p == "portrait-4k"@ { Some("landscape-4k"@) }
    else if p == "portrait-fhd-side"@ { Some("landscape-fhd-top"@) }
    else if p == "portrait-qhd-side"@ { Some("landscape-qhd-top"@) }
    else if p == "portrait-4k-side"@ { Some("landscape-4k-top"@) }
    else { None }
}

/// Every portrait profile with a landscape twin is tall, and its twin is a
/// landscape profile whose size is the portrait size with the axes swapped.
pub proof fn lemma_landscape_transposes_portrait(p: Seq<char>)
    requires
        landscape_twin(p) is Some,
    ensures
        starts_with(landscape_twin(p).unwrap(), "landscape-"@),
        profile_size(landscape_twin(p).unwrap()) == (profile_size(p).1, profile_size(p).0),
        profile_size(p).0 <= profile_size(p).1,
{
    reveal_strlit("portrait-xl");
    reveal_strlit("landscape-xl");
    reveal_strlit("portrait-slim");
    reveal_strlit("landscape-slim");
    reveal_strlit("portrait-hd");
    reveal_strlit("landscape-hd");
    reveal_strlit("portrait-wxga");
    reveal_strlit("landscape-wxga");
    reveal_strlit("portrait-fhd");
    reveal_strlit("landscape-fhd");
    reveal_strlit("portrait-wuxga");
    reveal_strlit("landscape-wuxga");
    reveal_strlit("portrait-qhd");
    reveal_strlit("landscape-qhd");
    reveal_strlit("portrait-hdplus");
    reveal_strlit("landscape-hdplus");
    reveal_strlit("portrait-900x1600");
    reveal_strlit("landscape-1600x900");
    reveal_strlit("portrait-1050x1680");
    reveal_strlit("landscape-1680x1050");
    reveal_strlit("portrait-1600x2560");
    reveal_strlit("landscape-2560x1600");
    reveal_strlit("portrait-4k");
    reveal_strlit("landscape-4k");
    reveal_strlit("portrait-fhd-side");
    reveal_strlit("landscape-fhd-top");
    reveal_strlit("portrait-qhd-side");
    reveal_strlit("landscape-qhd-top");
    reveal_strlit("portrait-4k-side");
    reveal_strlit("landscape-4k-top");
    reveal_strlit("landscape-");
    let l = landscape_twin(p).unwrap();
    assert(l.take(10) =~= "landscape-"@);
    // Portrait and landscape keys differ in their first character; keys of
    // one kind differ in length or at the position named below.
    assert("portrait-xl"@.len() == 11);
    assert("portrait-slim"@.len() == 13);
    assert("portrait-hd"@.len() == 11);
    assert("portrait-wxga"@.len() == 13);
    assert("portrait-fhd"@.len() == 12);
    assert("portrait-wuxga"@.len() == 14);
    assert("portrait-qhd"@.len() == 12);
    assert("portrait-hdplus"@.len() == 15);
    assert("portrait-900x1600"@.len() == 17);
    assert("portrait-1050x1680"@.len() == 18);
    assert("portrait-1600x2560"@.len() == 18);
    assert("portrait-4k"@.len() == 11);
    assert("portrait-fhd-side"@.len() == 17);
    assert("portrait-qhd-side"@.len() == 17);
    assert("portrait-4k-side"@.len() == 16);
    assert("landscape-xl"@.len() == 12);
    assert("landscape-slim"@.len() == 14);
    assert("landscape-hd"@.len() == 12);
    assert("landscape-wxga"@.len() == 14);
    assert("landscape-fhd"@.len() == 13);
    assert("landscape-wuxga"@.len() == 15);
    assert("landscape-qhd"@.len() == 13);
    assert("landscape-hdplus"@.len() == 16);
    assert("landscape-1600x900"@.len() == 18);
    assert("landscape-1680x1050"@.len() == 19);
    assert("landscape-2560x1600"@.len() == 19);
    assert("landscape-4k"@.len() == 12);
    assert("landscape-fhd-top"@.len() == 17);
    assert("landscape-qhd-top"@.len() == 17);
    assert("landscape-4k-top"@.len() == 16);
    assert("portrait-xl"@[0] == 'p');
    assert("portrait-slim"@[0] == 'p');
    assert("portrait-hd"@[0] == 'p');
    assert("portrait-wxga"@[0] == 'p');
    assert("portrait-fhd"@[0] == 'p');
    assert("portrait-wuxga"@[0] == 'p');
    assert("portrait-qhd"@[0] == 'p');
    assert("portrait-hdplus"@[0] == 'p');
    assert("portrait-900x1600"@[0] == 'p');
    assert("portrait-1050x1680"@[0] == 'p');
    assert("portrait-1600x2560"@[0] == 'p');
    assert("portrait-4k"@[0] == 'p');
    assert("portrait-fhd-side"@[0] == 'p');
    assert("portrait-qhd-side"@[0] == 'p');
    assert("portrait-4k-side"@[0] == 'p');
    assert("landscape-xl"@[0] == 'l');
    assert("landscape-slim"@[0] == 'l');
    assert("landscape-hd"@[0] == 'l');
    assert("landscape-wxga"@[0] == 'l');
    assert("landscape-fhd"@[0] == 'l');
    assert("landscape-wuxga"@[0] == 'l');
    assert("landscape-qhd"@[0] == 'l');
    assert("landscape-hdplus"@[0] == 'l');
    assert("landscape-1600x900"@[0] == 'l');
    assert("landscape-1680x1050"@[0] == 'l');
    assert("landscape-2560x1600"@[0] == 'l');
    assert("landscape-4k"@[0] == 'l');
    assert("landscape-fhd-top"@[0] == 'l');
    assert("landscape-qhd-top"@[0] == 'l');
    assert("landscape-4k-top"@[0] == 'l');
    assert("portrait-hd"@[9] != "portrait-xl"@[9]);
    assert("landscape-hd"@[10] != "landscape-xl"@[10]);
    assert("portrait-wxga"@[9] != "portrait-slim"@[9]);
    assert("landscape-wxga"@[10] != "landscape-slim"@[10]);
    assert("portrait-qhd"@[9] != "portrait-fhd"@[9]);
    assert("landscape-qhd"@[10] != "landscape-fhd"@[10]);
    assert("portrait-1600x2560"@[10] != "portrait-1050x1680"@[10]);
    assert("landscape-2560x1600"@[10] != "landscape-1680x1050"@[10]);
    assert("portrait-4k"@[9] != "portrait-xl"@[9]);
    assert("portrait-4k"@[9] != "portrait-hd"@[9]);
    assert("landscape-4k"@[10] != "landscape-xl"@[10]);
    assert("landscape-4k"@[10] != "landscape-hd"@[10]);
    assert("portrait-fhd-side"@[9] != "portrait-900x1600"@[9]);
    assert("portrait-qhd-side"@[9] != "portrait-900x1600"@[9]);
    assert("portrait-qhd-side"@[9] != "portrait-fhd-side"@[9]);
    assert("landscape-qhd-top"@[10] != "landscape-fhd-top"@[10]);
    assert("landscape-4k-top"@[10] != "landscape-hdplus"@[10]);
}

/// Display name of a panel key (the tray and settings lists).
pub open spec fn panel_label_spec(key: Seq<char>) -> Seq<char> {
    if key == "header"@ { "Header"@ }
    else if key == "clock"@ { "Clock"@ }
    else if key == "cpu"@ { "CPU"@ }
    else if key == "gpu"@ { "GPU"@ }
    else if key == "ram"@ { "RAM"@ }
    else if key == "net"@ { "Network"@ }
    else if key == "disk"@ { "Disk"@ }
    else if key == "motherboard"@ { "Motherboard"@ }
    else if key == "process"@ { "Processes"@ }
    else if key == "power"@ { "System Power"@ }
    else if key == "battery"@ { "Battery"@ }
    else { "Panel"@ }
}

/// Display name of a panel key.
pub fn panel_label(key: &str) -> (r: &'static str)
    ensures
        r@ == panel_label_spec(key@),
{
    let k = chars_of(key);
    if eq_str(&k, "header") { "Header" }
    else if eq_str(&k, "clock") { "Clock" }
    else if eq_str(&k, "cpu") { "CPU" }
    else if eq_str(&k, "gpu") { "GPU" }
    else if eq_str(&k, "ram") { "RAM" }
    else if eq_str(&k, "net") { "Network" }
    else if eq_str(&k, "disk") { "Disk" }
    else if eq_str(&k, "motherboard") { "Motherboard" }
    else if eq_str(&k, "process") { "Processes" }
    else if eq_str(&k, "power") { "System Power" }
    else if eq_str(&k, "battery") { "Battery" }
    else { "Panel" }
}

/// Commands sent from the tray-polling thread to the UI thread.
#[derive(Clone, Copy, Debug, PartialEq, Eq, Structural)]
pub enum TrayCmd {
    OpenSettings,
    OpenAbout,
    OpenStatus,
    OpenUpdater,
    OpenDocs,
    OpenHistory,
    ToggleFloating,
    ToggleRecording,
}

/// All valid theme keys, in display order.
pub const THEME_KEYS: [&'static str; 7] = ["dark-cyan", "amber", "green", "purple", "slate", "red", "blue"];

/// The accent colour `(r, g, b)` of a theme key; unknown keys get dark cyan.
pub open spec fn theme_accent_spec(key: Seq<char>) -> (u8, u8, u8) {
    if key == "amber"@ { (0xff, 0xb3, 0x00) }
    else if key == "green"@ { (0x39, 0xff, 0x88) }
    else if key == "purple"@ { (0xbf, 0x7f, 0xff) }
    else if key == "slate"@ { (0x90, 0xaa, 0xc4) }
    else if key == "red"@ { (0xff, 0x3a, 0x1f) }
    else if key == "blue"@ { (0x40, 0x8c, 0xff) }
    else { (0x00, 0xc8, 0xff) }
}

/// The accent colour `(r, g, b)` of a theme preset.
pub fn theme_accent(key: &str) -> (c: (u8, u8, u8))
    ensures
        c == theme_accent_spec(key@),
{
    let k = chars_of(key);
    if eq_str(&k, "amber") { (0xff, 0xb3, 0x00) }
    else if eq_str(&k, "green") { (0x39, 0xff, 0x88) }
    else if eq_str(&k, "purple") { (0xbf, 0x7f, 0xff) }
    else if eq_str(&k, "slate") { (0x90, 0xaa, 0xc4) }
    else if eq_str(&k, "red") { (0xff, 0x3a, 0x1f) }
    else if eq_str(&k, "blue") { (0x40, 0x8c, 0xff) }
    else { (0x00, 0xc8, 0xff) }
}

} // verus!
