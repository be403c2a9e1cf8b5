//! Command lines the application runs: service control, SSH sessions,
//! desktop notifications, and where the helper scripts are found.
use vstd::prelude::*;
use crate::colors::{hex2, hex_rgb_conf};
use crate::controls::{MouseLed, RgbConf};
use crate::text::{chars_of, dec, dec_string, lemma_deep_view_push, push_all, string_of};

verus! {

fn push_str(v: &mut Vec<String>, s: &str)
    ensures
        final(v).deep_view() == old(v).deep_view().push(s@),
{
    let ghost old_v = v@;
    let x = s.to_owned();
    let ghost xv = x;
    v.push(x);
    proof {
        lemma_deep_view_push(*v, old_v, xv);
    }
}

/// Start, stop or restart a unit: directly for a user unit, through
/// `pkexec` (a graphical polkit prompt) for a system unit.
pub open spec fn svc_action_spec(action: Seq<char>, unit: Seq<char>, is_user: bool) -> Seq<Seq<char>> {
    if is_user {
        seq!["systemctl"@, "--user"@, action, unit]
    } else {
        seq!["pkexec"@, "systemctl"@, action, unit]
    }
}

pub fn svc_action_argv(action: &str, unit: &str, is_user: bool) -> (r: Vec<String>)
    ensures
        r.deep_view() == svc_action_spec(action@, unit@, is_user),
{
    let mut r: Vec<String> = Vec::new();
    if is_user {
        push_str(&mut r, "systemctl");
        push_str(&mut r, "--user");
    } else {
        push_str(&mut r, "pkexec");
        push_str(&mut r, "systemctl");
    }
    push_str(&mut r, action);
    push_str(&mut r, unit);
    assert(r.deep_view() =~= svc_action_spec(action@, unit@, is_user));
    r
}

/// Opens a terminal with an SSH session to `alias`.
pub fn ssh_connect_argv(alias: &str) -> (r: Vec<String>)
    ensures
        r.deep_view() == seq!["ghostty"@, "-e"@, "ssh"@, alias@],
{
    let mut r: Vec<String> = Vec::new();
    push_str(&mut r, "ghostty");
    push_str(&mut r, "-e");
    push_str(&mut r, "ssh");
    push_str(&mut r, alias);
    assert(r.deep_view() =~= seq!["ghostty"@, "-e"@, "ssh"@, alias@]);
    r
}

/// A critical desktop notification.
pub fn notify_argv(title: &str, body: &str) -> (r: Vec<String>)
    ensures
        r.deep_view() == seq![
            "notify-send"@,
            "-a"@,
            "Tweaks ASUS TUF"@,
            "-i"@,
            "com.rezkycodes.AsusTufCpu"@,
            "-u"@,
            "critical"@,
            title@,
            body@,
        ],
{
    let mut r: Vec<String> = Vec::new();
    push_str(&mut r, "notify-send");
    push_str(&mut r, "-a");
    push_str(&mut r, "Tweaks ASUS TUF");
    push_str(&mut r, "-i");
    push_str(&mut r, "com.rezkycodes.AsusTufCpu");
    push_str(&mut r, "-u");
    push_str(&mut r, "critical");
    push_str(&mut r, title);
    push_str(&mut r, body);
    assert(r.deep_view() =~= seq![
        "notify-send"@,
        "-a"@,
        "Tweaks ASUS TUF"@,
        "-i"@,
        "com.rezkycodes.AsusTufCpu"@,
        "-u"@,
        "critical"@,
        title@,
        body@,
    ]);
    r
}

/// Where helper script `name` may be installed, in order of preference: the
/// system location, then `bin` in the home directory (`/root` when `HOME`
/// is unset).
pub open spec fn script_candidates_spec(home: Option<Seq<char>>, name: Seq<char>) -> Seq<Seq<char>> {
    seq![
        "/usr/libexec/asus-power-manager/scripts/"@ + name,
        (match home {
            Some(h) => h,
            None => "/root"@,
        }) + "/bin/"@ + name,
    ]
}

pub fn script_candidates(home: Option<&str>, name: &str) -> (r: Vec<String>)
    ensures
        r.deep_view() == script_candidates_spec(
            match home {
                Some(h) => Some(h@),
                None => None,
            },
            name@,
        ),
{
    let mut a = chars_of("/usr/libexec/asus-power-manager/scripts/");
    push_all(&mut a, &chars_of(name));
    let mut b = match home {
        Some(h) => chars_of(h),
        None => chars_of("/root"),
    };
    push_all(&mut b, &chars_of("/bin/"));
    push_all(&mut b, &chars_of(name));
    let sa = string_of(&a);
    let sb = string_of(&b);
    let mut r: Vec<String> = Vec::new();
    push_str(&mut r, sa.as_str());
    push_str(&mut r, sb.as_str());
    assert(r.deep_view() =~= script_candidates_spec(
        match home {
            Some(h) => Some(h@),
            None => None,
        },
        name@,
    ));
    r
}

/// The first candidate that exists, else the bare name (left to `PATH`).
pub open spec fn script_choice_spec(name: Seq<char>, c: Seq<(Seq<char>, bool)>) -> Seq<char>
    decreases c.len(),
{
    if c.len() == 0 {
        name
    } else if c[0].1 {
        c[0].0
    } else {
        script_choice_spec(name, c.drop_first())
    }
}

/// `candidates` pairs each candidate path with whether it exists.
pub fn script_choice(name: &str, candidates: &Vec<(String, bool)>) -> (r: String)
    ensures
        r@ == script_choice_spec(name@, candidates.deep_view()),
{
    let ghost cv = candidates.deep_view();
    let mut i: usize = 0;
    assert(cv.skip(0) =~= cv);
    while i < candidates.len()
        invariant
            i <= candidates@.len(),
            cv == candidates.deep_view(),
            script_choice_spec(name@, cv.skip(i as int)) == script_choice_spec(name@, cv),
        decreases candidates@.len() - i,
    {
        proof {
            assert(cv.skip(i as int)[0] == (candidates@[i as int].0@, candidates@[i as int].1));
            assert(cv.skip(i as int).drop_first() =~= cv.skip(i + 1));
        }
        if candidates[i].1 {
            return candidates[i].0.clone();
        }
        i += 1;
    }
    proof {
        assert(cv.skip(i as int) =~= Seq::<(Seq<char>, bool)>::empty());
    }
    name.to_owned()
}

/// Start, stop or restart from a unit's detail window: user units directly,
/// system units through `sudo -n` (the second element says whether the
/// command needs it).
pub open spec fn detail_action_spec(is_user: bool, action: Seq<char>, unit: Seq<char>) -> (bool, Seq<
    Seq<char>,
>) {
    if is_user {
        (false, seq!["systemctl"@, "--user"@, action, unit])
    } else {
        (true, seq!["systemctl"@, action, unit])
    }
}

pub fn detail_action_argv(is_user: bool, action: &str, unit: &str) -> (r: (bool, Vec<String>))
    ensures
        (r.0, r.1.deep_view()) == detail_action_spec(is_user, action@, unit@),
{
    let mut v: Vec<String> = Vec::new();
    push_str(&mut v, "systemctl");
    if is_user {
        push_str(&mut v, "--user");
    }
    push_str(&mut v, action);
    push_str(&mut v, unit);
    assert(v.deep_view() =~= detail_action_spec(is_user, action@, unit@).1);
    (!is_user, v)
}

/// Ends process `pid`, forcibly (`-9`) or not.
pub fn kill_argv(pid: u32, force: bool) -> (r: Vec<String>)
    ensures
        r.deep_view() == (if force {
            seq!["kill"@, "-9"@, dec(pid as nat)]
        } else {
            seq!["kill"@, dec(pid as nat)]
        }),
{
    let mut v: Vec<String> = Vec::new();
    push_str(&mut v, "kill");
    if force {
        push_str(&mut v, "-9");
    }
    let d = dec_string(pid as u64);
    push_str(&mut v, d.as_str());
    assert(v.deep_view() =~= (if force {
        seq!["kill"@, "-9"@, dec(pid as nat)]
    } else {
        seq!["kill"@, dec(pid as nat)]
    }));
    v
}

/// The argument that the GPU mode button at `i` (hybrid, AMD only, NVIDIA)
/// hands to the mode script.
pub open spec fn gpu_mode_arg_spec(i: usize) -> Seq<char> {
    if i == 1 {
        "integrated"@
    } else if i == 2 {
        "dedicated"@
    } else {
        "hybrid"@
    }
}

pub fn gpu_mode_arg(i: usize) -> (r: &'static str)
    requires
        i < 3,
    ensures
        r@ == gpu_mode_arg_spec(i),
{
    if i == 1 {
        "integrated"
    } else if i == 2 {
        "dedicated"
    } else {
        "hybrid"
    }
}

/// The thermal policy that the fan button at `i` (silent, normal, turbo)
/// sets.
pub open spec fn fan_policy_arg_spec(i: usize) -> Seq<char> {
    if i == 0 {
        "2"@
    } else if i == 2 {
        "1"@
    } else {
        "0"@
    }
}

pub fn fan_policy_arg(i: usize) -> (r: &'static str)
    requires
        i < 3,
    ensures
        r@ == fan_policy_arg_spec(i),
{
    if i == 0 {
        "2"
    } else if i == 2 {
        "1"
    } else {
        "0"
    }
}

/// The script that the CPU power mode button at `i` (saver, performance,
/// auto) runs.
pub fn power_mode_script(i: usize) -> (r: &'static str)
    requires
        i < 3,
    ensures
        r@ == (if i == 0 {
            "battery-save.sh"@
        } else if i == 1 {
            "battery-on-ac.sh"@
        } else {
            "battery-udev-handler.sh"@
        }),
{
    if i == 0 {
        "battery-save.sh"
    } else if i == 1 {
        "battery-on-ac.sh"
    } else {
        "battery-udev-handler.sh"
    }
}

/// The charge limit that the threshold switch sets.
pub fn threshold_arg(active: bool) -> (r: &'static str)
    ensures
        r@ == (if active {
            "80"@
        } else {
            "100"@
        }),
{
    if active {
        "80"
    } else {
        "100"
    }
}

/// Applies the keyboard lighting: the script, then mode, red, green, blue,
/// speed and brightness.
pub fn rgb_apply_argv(script: &str, c: &RgbConf) -> (r: Vec<String>)
    ensures
        r.deep_view() == seq![
            script@,
            c.mode@,
            dec(c.r as nat),
            dec(c.g as nat),
            dec(c.b as nat),
            c.speed@,
            dec(c.brightness as nat),
        ],
{
    let mut v: Vec<String> = Vec::new();
    push_str(&mut v, script);
    push_str(&mut v, c.mode.as_str());
    push_str(&mut v, dec_string(c.r as u64).as_str());
    push_str(&mut v, dec_string(c.g as u64).as_str());
    push_str(&mut v, dec_string(c.b as u64).as_str());
    push_str(&mut v, c.speed.as_str());
    push_str(&mut v, dec_string(c.brightness as u64).as_str());
    assert(v.deep_view() =~= seq![
        script@,
        c.mode@,
        dec(c.r as nat),
        dec(c.g as nat),
        dec(c.b as nat),
        c.speed@,
        dec(c.brightness as nat),
    ]);
    v
}

/// Applies the mouse lighting: the script, `led`, mode, colour as
/// `0xrrggbb`, period and brightness.
pub fn mouse_led_argv(script: &str, m: &MouseLed) -> (r: Vec<String>)
    ensures
        r.deep_view() == seq![
            script@,
            "led"@,
            dec(m.mode as nat),
            "0x"@ + hex2(m.rgb.0) + hex2(m.rgb.1) + hex2(m.rgb.2),
            dec(m.period_ms as nat),
            dec(m.intensity as nat),
        ],
{
    let mut v: Vec<String> = Vec::new();
    push_str(&mut v, script);
    push_str(&mut v, "led");
    push_str(&mut v, dec_string(m.mode as u64).as_str());
    push_str(&mut v, hex_rgb_conf(m.rgb.0, m.rgb.1, m.rgb.2).as_str());
    push_str(&mut v, dec_string(m.period_ms as u64).as_str());
    push_str(&mut v, dec_string(m.intensity as u64).as_str());
    assert(v.deep_view() =~= seq![
        script@,
        "led"@,
        dec(m.mode as nat),
        "0x"@ + hex2(m.rgb.0) + hex2(m.rgb.1) + hex2(m.rgb.2),
        dec(m.period_ms as nat),
        dec(m.intensity as nat),
    ]);
    v
}

/// Sets one mouse setting (`hz`, `dpi` or `onboard`) through the script.
pub fn mouse_setting_argv(script: &str, what: &str, value: &str) -> (r: Vec<String>)
    ensures
        r.deep_view() == seq![script@, what@, value@],
{
    let mut v: Vec<String> = Vec::new();
    push_str(&mut v, script);
    push_str(&mut v, what);
    push_str(&mut v, value);
    assert(v.deep_view() =~= seq![script@, what@, value@]);
    v
}

} // verus!
