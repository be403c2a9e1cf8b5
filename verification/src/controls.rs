//! The control pages: which button of a mode group is lit, what the rows say,
//! the keyboard and mouse settings as their configuration files give them,
//! and how a choice the user just made wins over a stale reading.
use vstd::prelude::*;
use crate::colors::{hex_color, parse_hex_color};
use crate::procfs::{kv_value, read_kv};
use crate::text::{
    ascii_lower_of, ascii_lower_seq, chars_of, dec, dec_u64, lines, parse_u32, parse_u32_spec,
    parse_u8, parse_u8_spec, push_all, str_eq, string_of, to_uppercase, uppercase,
};

verus! {

// ───────────────────────── mode groups ─────────────────────────

/// GPU mode button (hybrid, integrated, dedicated) and the row's text.
pub open spec fn gpu_mode_spec(mode: Seq<char>) -> (usize, Seq<char>) {
    if mode == "integrated"@ || mode == "1"@ {
        (1, "Mode: AMD iGPU Only (NVIDIA standby)"@)
    } else if mode == "dedicated"@ || mode == "2"@ {
        (2, "Mode: NVIDIA Dedicated (Full performance)"@)
    } else {
        (0, "Mode: Hybrid Optimus (On-Demand)"@)
    }
}

pub fn gpu_mode_choice(mode: &str) -> (r: (usize, &'static str))
    ensures
        (r.0, r.1@) == gpu_mode_spec(mode@),
{
    let m = chars_of(mode);
    if str_eq(&m, "integrated") || str_eq(&m, "1") {
        (1, "Mode: AMD iGPU Only (NVIDIA standby)")
    } else if str_eq(&m, "dedicated") || str_eq(&m, "2") {
        (2, "Mode: NVIDIA Dedicated (Full performance)")
    } else {
        (0, "Mode: Hybrid Optimus (On-Demand)")
    }
}

/// CPU power mode button: powersave, performance, or auto.
pub fn power_mode_index(mode: &str) -> (i: usize)
    ensures
        i == (if mode@ == "powersave"@ {
            0usize
        } else if mode@ == "performance"@ {
            1usize
        } else {
            2usize
        }),
{
    let m = chars_of(mode);
    if str_eq(&m, "powersave") {
        0
    } else if str_eq(&m, "performance") {
        1
    } else {
        2
    }
}

/// Fan button (silent, balanced, turbo) for the thermal policy, and its label.
pub open spec fn fan_policy_spec(policy: Seq<char>) -> (usize, Seq<char>) {
    if policy == "2"@ {
        (0, "Silent (Low speed)"@)
    } else if policy == "1"@ {
        (2, "Turbo / Overboost (Fast cooling)"@)
    } else {
        (1, "Normal / Balanced (Automatic)"@)
    }
}

pub fn fan_policy_choice(policy: &str) -> (r: (usize, &'static str))
    ensures
        (r.0, r.1@) == fan_policy_spec(policy@),
{
    let p = chars_of(policy);
    if str_eq(&p, "2") {
        (0, "Silent (Low speed)")
    } else if str_eq(&p, "1") {
        (2, "Turbo / Overboost (Fast cooling)")
    } else {
        (1, "Normal / Balanced (Automatic)")
    }
}

/// Keyboard lighting mode name.
pub open spec fn rgb_mode_spec(m: Seq<char>) -> Seq<char> {
    if m == "1"@ {
        "Breathing"@
    } else if m == "2"@ {
        "Color Cycle"@
    } else if m == "3"@ {
        "Strobing"@
    } else if m == "10"@ {
        "Pulse"@
    } else {
        "Static"@
    }
}

pub fn rgb_mode_name(m: &str) -> (r: &'static str)
    ensures
        r@ == rgb_mode_spec(m@),
{
    let c = chars_of(m);
    if str_eq(&c, "1") {
        "Breathing"
    } else if str_eq(&c, "2") {
        "Color Cycle"
    } else if str_eq(&c, "3") {
        "Strobing"
    } else if str_eq(&c, "10") {
        "Pulse"
    } else {
        "Static"
    }
}

/// Mouse lighting mode name.
pub open spec fn mouse_led_mode_spec(id: u32) -> Seq<char> {
    if id == 0 {
        "Disabled (Off)"@
    } else if id == 3 {
        "Color Cycle"@
    } else if id == 10 {
        "Breathing"@
    } else {
        "Static Color"@
    }
}

pub fn mouse_led_mode_name(id: u32) -> (r: &'static str)
    ensures
        r@ == mouse_led_mode_spec(id),
{
    match id {
        0 => "Disabled (Off)",
        1 => "Static Color",
        3 => "Color Cycle",
        10 => "Breathing",
        _ => "Static Color",
    }
}

/// The sidebar section of a page.
pub open spec fn sidebar_section_spec(name: Seq<char>) -> Seq<char> {
    if name == "cpu"@ || name == "memory"@ || name == "gpu"@ || name == "fan"@ || name == "net"@
        || name == "drive"@ || name == "bat"@ || name == "speedtest"@ {
        "Monitoring"@
    } else {
        "Control & System"@
    }
}

pub fn sidebar_section(name: &str) -> (r: &'static str)
    ensures
        r@ == sidebar_section_spec(name@),
{
    let n = chars_of(name);
    if str_eq(&n, "cpu") || str_eq(&n, "memory") || str_eq(&n, "gpu") || str_eq(&n, "fan")
        || str_eq(&n, "net") || str_eq(&n, "drive") || str_eq(&n, "bat") || str_eq(
        &n,
        "speedtest",
    ) {
        "Monitoring"
    } else {
        "Control & System"
    }
}

/// The pages of the detected hardware, in sidebar order, each present only
/// when there is something to show: GPUs, fans, network, drives, batteries.
pub open spec fn hardware_pages_spec(gpu: bool, fan: bool, net: bool, drive: bool, bat: bool) -> Seq<
    Seq<char>,
> {
    (if gpu {
        seq!["gpu"@]
    } else {
        Seq::empty()
    }) + (if fan {
        seq!["fan"@]
    } else {
        Seq::empty()
    }) + (if net {
        seq!["net"@]
    } else {
        Seq::empty()
    }) + (if drive {
        seq!["drive"@]
    } else {
        Seq::empty()
    }) + (if bat {
        seq!["bat"@]
    } else {
        Seq::empty()
    })
}

pub fn hardware_pages(gpu: bool, fan: bool, net: bool, drive: bool, bat: bool) -> (r: Vec<&'static str>)
    ensures
        r@.map_values(|s: &'static str| s@) == hardware_pages_spec(gpu, fan, net, drive, bat),
{
    let mut r: Vec<&'static str> = Vec::new();
    if gpu {
        r.push("gpu");
    }
    if fan {
        r.push("fan");
    }
    if net {
        r.push("net");
    }
    if drive {
        r.push("drive");
    }
    if bat {
        r.push("bat");
    }
    assert(r@.map_values(|s: &'static str| s@) =~= hardware_pages_spec(gpu, fan, net, drive, bat));
    r
}

// ───────────────────────── CPU monitor ─────────────────────────

/// The CPU monitor row: the governor in capitals, the clock, the turbo state
/// and the power profile.
pub open spec fn cpu_monitor_spec(
    governor: Seq<char>,
    freq_mhz: nat,
    boost: Seq<char>,
    profile: Seq<char>,
) -> Seq<char> {
    "Governor: "@ + uppercase(governor) + " @ "@ + dec(freq_mhz) + " MHz | Turbo: "@ + boost
        + " | Profile: "@ + profile
}

pub fn cpu_monitor_text(governor: &str, freq_mhz: u64, boost: &str, profile: &str) -> (r: String)
    ensures
        r@ == cpu_monitor_spec(governor@, freq_mhz as nat, boost@, profile@),
{
    let mut out = chars_of("Governor: ");
    push_all(&mut out, &to_uppercase(&chars_of(governor)));
    push_all(&mut out, &chars_of(" @ "));
    push_all(&mut out, &dec_u64(freq_mhz));
    push_all(&mut out, &chars_of(" MHz | Turbo: "));
    push_all(&mut out, &chars_of(boost));
    push_all(&mut out, &chars_of(" | Profile: "));
    push_all(&mut out, &chars_of(profile));
    string_of(&out)
}

// ───────────────────────── mouse ─────────────────────────

/// Connection text of the mouse for its battery status (ASCII case ignored).
pub open spec fn mouse_status_spec(status: Seq<char>) -> Seq<char> {
    let l = ascii_lower_seq(status);
    if l == "discharging"@ || l == "charging"@ || l == "full"@ {
        "Connected (Active)"@
    } else {
        "Standby / Sleep"@
    }
}

pub fn mouse_status_text(status: &str) -> (r: &'static str)
    ensures
        r@ == mouse_status_spec(status@),
{
    let l = ascii_lower_of(&chars_of(status));
    if str_eq(&l, "discharging") || str_eq(&l, "charging") || str_eq(&l, "full") {
        "Connected (Active)"
    } else {
        "Standby / Sleep"
    }
}

/// What a polling rate means for the user.
pub fn polling_label(hz: u32) -> (r: &'static str)
    ensures
        r@ == (if hz == 1000 {
            "1ms Peak"@
        } else {
            "Battery Saver"@
        }),
{
    if hz == 1000 {
        "1ms Peak"
    } else {
        "Battery Saver"
    }
}

/// A value the user just chose, and how many whole seconds ago.
pub struct Pending<T> {
    pub value: T,
    pub age_secs: u64,
}

/// Which value a control shows when the device reports `reported` while the
/// user's choice `pending` may still be on its way: a confirmed choice is
/// cleared; an unconfirmed one is shown for up to six seconds, then dropped.
/// Returns the value to show and whether the choice stays pending.
pub open spec fn resolve_spec<T>(reported: T, pending: Option<(T, u64)>) -> (T, bool) {
    match pending {
        None => (reported, false),
        Some((p, age)) => {
            if p == reported {
                (reported, false)
            } else if age < 6 {
                (p, true)
            } else {
                (reported, false)
            }
        },
    }
}

/// `resolve_spec` for a numeric setting (polling rate, DPI, lighting mode).
pub fn resolve_pending(reported: u32, pending: Option<Pending<u32>>) -> (r: (u32, bool))
    ensures
        r == resolve_spec(
            reported,
            match pending {
                Some(p) => Some((p.value, p.age_secs)),
                None => None,
            },
        ),
{
    match pending {
        None => (reported, false),
        Some(p) => {
            if p.value == reported {
                (reported, false)
            } else if p.age_secs < 6 {
                (p.value, true)
            } else {
                (reported, false)
            }
        },
    }
}

/// `resolve_spec` for a colour.
pub fn resolve_pending_rgb(reported: (u8, u8, u8), pending: Option<Pending<(u8, u8, u8)>>) -> (r: (
    (u8, u8, u8),
    bool,
))
    ensures
        r == resolve_spec(
            reported,
            match pending {
                Some(p) => Some((p.value, p.age_secs)),
                None => None,
            },
        ),
{
    match pending {
        None => (reported, false),
        Some(p) => {
            if p.value.0 == reported.0 && p.value.1 == reported.1 && p.value.2 == reported.2 {
                (reported, false)
            } else if p.age_secs < 6 {
                (p.value, true)
            } else {
                (reported, false)
            }
        },
    }
}

/// A choice never outlives six seconds unconfirmed, and a confirmed choice
/// (or none) always shows what the device reports.
pub proof fn lemma_pending_expires<T>(reported: T, pending: Option<(T, u64)>)
    ensures
        resolve_spec(reported, pending).1 ==> (pending matches Some((p, age)) && age < 6 && p
            != reported),
        !resolve_spec(reported, pending).1 ==> resolve_spec(reported, pending).0 == reported,
        resolve_spec(reported, pending).1 ==> (pending matches Some((p, _)) && resolve_spec(
            reported,
            pending,
        ).0 == p),
{
}

/// What the mouse configuration file holds, as the sampler keeps it.
pub struct MouseConf {
    pub hz: String,
    pub dpi: String,
    pub onboard: bool,
    pub led_mode: String,
    pub led_color: String,
    pub led_period: String,
    pub led_intensity: String,
    /// The battery level the file records, if any.
    pub battery: Option<String>,
}

pub open spec fn kv_or(text: Option<Seq<char>>, key: Seq<char>, d: Seq<char>) -> Seq<char> {
    match text {
        Some(t) => match kv_value(lines(t), key) {
            Some(v) => v,
            None => d,
        },
        None => d,
    }
}

pub open spec fn kv_opt(text: Option<Seq<char>>, key: Seq<char>) -> Option<Seq<char>> {
    match text {
        Some(t) => kv_value(lines(t), key),
        None => None,
    }
}

fn kv_or_of(text: Option<&str>, key: &str, d: &str) -> (r: String)
    ensures
        r@ == kv_or(
            match text {
                Some(t) => Some(t@),
                None => None,
            },
            key@,
            d@,
        ),
{
    match text {
        Some(t) => match read_kv(t, key) {
            Some(v) => v,
            None => d.to_owned(),
        },
        None => d.to_owned(),
    }
}

fn kv_opt_of(text: Option<&str>, key: &str) -> (r: Option<String>)
    ensures
        r.deep_view() == kv_opt(
            match text {
                Some(t) => Some(t@),
                None => None,
            },
            key@,
        ),
{
    match text {
        Some(t) => read_kv(t, key),
        None => None,
    }
}

pub open spec fn text_of(text: Option<&str>) -> Option<Seq<char>> {
    match text {
        Some(t) => Some(t@),
        None => None,
    }
}

/// The mouse settings from the text of `logitech.conf` (`None` when the file
/// cannot be read), with the defaults of a fresh install for missing keys.
pub fn mouse_conf(text: Option<&str>) -> (c: MouseConf)
    ensures
        c.hz@ == kv_or(text_of(text), "HZ"@, "1000"@),
        c.dpi@ == kv_or(text_of(text), "DPI"@, "1600"@),
        c.onboard == (kv_opt(text_of(text), "ONBOARD"@) == Some("on"@)),
        c.led_mode@ == kv_or(text_of(text), "LED_MODE"@, "1"@),
        c.led_color@ == kv_or(text_of(text), "LED_COLOR"@, "0x00c8ff"@),
        c.led_period@ == kv_or(text_of(text), "LED_PERIOD"@, "3000"@),
        c.led_intensity@ == kv_or(text_of(text), "LED_INTENSITY"@, "100"@),
        c.battery.deep_view() == kv_opt(text_of(text), "BATTERY"@),
{
    let onboard = match kv_opt_of(text, "ONBOARD") {
        Some(v) => str_eq(&chars_of(v.as_str()), "on"),
        None => false,
    };
    MouseConf {
        hz: kv_or_of(text, "HZ", "1000"),
        dpi: kv_or_of(text, "DPI", "1600"),
        onboard,
        led_mode: kv_or_of(text, "LED_MODE", "1"),
        led_color: kv_or_of(text, "LED_COLOR", "0x00c8ff"),
        led_period: kv_or_of(text, "LED_PERIOD", "3000"),
        led_intensity: kv_or_of(text, "LED_INTENSITY", "100"),
        battery: kv_opt_of(text, "BATTERY"),
    }
}

pub open spec fn u32_or(s: Seq<char>, d: u32) -> u32 {
    match parse_u32_spec(s) {
        Some(v) => v,
        None => d,
    }
}

pub fn u32_or_default(s: &str, d: u32) -> (r: u32)
    ensures
        r == u32_or(s@, d),
{
    match parse_u32(&chars_of(s)) {
        Some(v) => v,
        None => d,
    }
}

/// The mouse lighting settings: mode, colour, cycle period (ms) and
/// brightness (%), each falling back to its default when missing or not a
/// number. `None` where the stored colour cannot be cut into byte pairs.
pub struct MouseLed {
    pub mode: u32,
    pub rgb: (u8, u8, u8),
    pub period_ms: u32,
    pub intensity: u32,
}

pub fn mouse_led_conf(text: Option<&str>) -> (r: Option<MouseLed>)
    ensures
        match hex_color(kv_or(text_of(text), "LED_COLOR"@, "0x00c8ff"@)) {
            None => r is None,
            Some(rgb) => r matches Some(m) && m.rgb == rgb && m.mode == u32_or(
                kv_or(text_of(text), "LED_MODE"@, "1"@),
                1,
            ) && m.period_ms == u32_or(kv_or(text_of(text), "LED_PERIOD"@, "3000"@), 3000)
                && m.intensity == u32_or(kv_or(text_of(text), "LED_INTENSITY"@, "100"@), 100),
        },
{
    let mode = u32_or_default(kv_or_of(text, "LED_MODE", "1").as_str(), 1);
    let color = kv_or_of(text, "LED_COLOR", "0x00c8ff");
    let rgb = match parse_hex_color(color.as_str()) {
        Some(c) => c,
        None => {
            return None;
        },
    };
    let period_ms = u32_or_default(kv_or_of(text, "LED_PERIOD", "3000").as_str(), 3000);
    let intensity = u32_or_default(kv_or_of(text, "LED_INTENSITY", "100").as_str(), 100);
    Some(MouseLed { mode, rgb, period_ms, intensity })
}

// ───────────────────────── keyboard lighting ─────────────────────────

/// What `rgb.conf` holds: mode, colour, speed and brightness.
pub struct RgbConf {
    pub mode: String,
    pub r: u8,
    pub g: u8,
    pub b: u8,
    pub speed: String,
    pub brightness: u8,
}

pub open spec fn u8_or(s: Seq<char>, d: u8) -> u8 {
    match parse_u8_spec(s) {
        Some(v) => v,
        None => d,
    }
}

fn u8_or_default(s: &str, d: u8) -> (r: u8)
    ensures
        r == u8_or(s@, d),
{
    match parse_u8(&chars_of(s)) {
        Some(v) => v,
        None => d,
    }
}

/// The keyboard lighting settings from the text of `rgb.conf` (`None` when
/// the file cannot be read), with their defaults.
pub fn rgb_conf(text: Option<&str>) -> (c: RgbConf)
    ensures
        c.mode@ == kv_or(text_of(text), "MODE"@, "0"@),
        c.r == u8_or(kv_or(text_of(text), "RED"@, "0"@), 0),
        c.g == u8_or(kv_or(text_of(text), "GREEN"@, "200"@), 200),
        c.b == u8_or(kv_or(text_of(text), "BLUE"@, "255"@), 255),
        c.speed@ == kv_or(text_of(text), "SPEED"@, "1"@),
        c.brightness == u8_or(kv_or(text_of(text), "BRIGHTNESS"@, "3"@), 3),
{
    RgbConf {
        mode: kv_or_of(text, "MODE", "0"),
        r: u8_or_default(kv_or_of(text, "RED", "0").as_str(), 0),
        g: u8_or_default(kv_or_of(text, "GREEN", "200").as_str(), 200),
        b: u8_or_default(kv_or_of(text, "BLUE", "255").as_str(), 255),
        speed: kv_or_of(text, "SPEED", "1"),
        brightness: u8_or_default(kv_or_of(text, "BRIGHTNESS", "3").as_str(), 3),
    }
}

// ───────────────────────── what a button press leads to ─────────────────────────

/// Pressing a GPU mode button saves a mode that, read back, lights that same
/// button.
pub proof fn lemma_gpu_button_roundtrip(i: usize)
    requires
        i < 3,
    ensures
        gpu_mode_spec(crate::commands::gpu_mode_arg_spec(i)).0 == i,
{
    reveal_strlit("hybrid");
    reveal_strlit("integrated");
    reveal_strlit("dedicated");
    reveal_strlit("1");
    reveal_strlit("2");
    assert("hybrid"@[0] != "integrated"@[0]);
    assert("hybrid"@.len() != "1"@.len());
    assert("hybrid"@[0] != "dedicated"@[0]);
    assert("hybrid"@.len() != "2"@.len());
    assert("dedicated"@[0] != "integrated"@[0]);
    assert("dedicated"@.len() != "1"@.len());
}

/// Pressing a fan button sets a thermal policy that, read back, lights that
/// same button.
pub proof fn lemma_fan_button_roundtrip(i: usize)
    requires
        i < 3,
    ensures
        fan_policy_spec(crate::commands::fan_policy_arg_spec(i)).0 == i,
{
    reveal_strlit("0");
    reveal_strlit("1");
    reveal_strlit("2");
    assert("0"@[0] != "1"@[0]);
    assert("0"@[0] != "2"@[0]);
    assert("1"@[0] != "2"@[0]);
}

/// Switching the charge limit sets a threshold that, read back, puts the
/// switch in the same position.
pub proof fn lemma_threshold_switch_roundtrip(active: bool)
    ensures
        ((if active {
            "80"@
        } else {
            "100"@
        }) == "80"@) == active,
{
    reveal_strlit("80");
    reveal_strlit("100");
    if !active {
        assert("100"@.len() != "80"@.len());
    }
}

/// Whether the threshold switch shows on for a reported threshold.
pub fn threshold_switch_on(threshold: &str) -> (b: bool)
    ensures
        b == (threshold@ == "80"@),
{
    str_eq(&chars_of(threshold), "80")
}

/// Signature of all hardware pages together (GPUs, fans, network, drives,
/// batteries): the pages are rebuilt only when it changes.
pub fn dynamic_signature(gpu: &str, fan: &str, net: &str, drive: &str, bat: &str) -> (r: String)
    ensures
        r@ == gpu@ + "#"@ + fan@ + "#"@ + net@ + "#"@ + drive@ + "#"@ + bat@,
{
    let mut out = chars_of(gpu);
    out.push('#');
    crate::text::push_all(&mut out, &chars_of(fan));
    out.push('#');
    crate::text::push_all(&mut out, &chars_of(net));
    out.push('#');
    crate::text::push_all(&mut out, &chars_of(drive));
    out.push('#');
    crate::text::push_all(&mut out, &chars_of(bat));
    proof {
        reveal_strlit("#");
    }
    assert(out@ =~= gpu@ + "#"@ + fan@ + "#"@ + net@ + "#"@ + drive@ + "#"@ + bat@);
    crate::text::string_of(&out)
}

} // verus!
