//! The once-a-second sampler: which collections run on a given tick, and the
//! small readings it turns into display text.
use vstd::prelude::*;
use crate::text::{chars_of, concat, slice_of, str_eq, string_of, to_uppercase, uppercase};

verus! {

/// What happens to one of the heavy, tab-bound collections on a tick.
#[derive(PartialEq, Eq, Structural, Clone, Copy)]
pub enum Collect {
    /// Collect it afresh.
    Sample,
    /// Its tab is hidden: drop what was collected to free the memory.
    Release,
    /// Keep what was collected last time.
    Keep,
}

/// The sampler's work for one tick.
#[derive(PartialEq, Eq, Structural, Clone, Copy)]
pub struct TickPlan {
    /// The every-third-second work: process and thread counts, service
    /// states, battery and NVIDIA telemetry, NVIDIA sampling, the device
    /// list rescans, network extras, partition usage and the temperature
    /// alerts.
    pub heavy: bool,
    /// The process table.
    pub procs: Collect,
    /// The full systemd unit list.
    pub units: Collect,
    /// The drives' S.M.A.R.T. data.
    pub smart: bool,
}

pub open spec fn collect_spec(wanted: bool, due: bool) -> Collect {
    if wanted && due {
        Collect::Sample
    } else if !wanted {
        Collect::Release
    } else {
        Collect::Keep
    }
}

/// The plan of tick `tick`. A collection is wanted when hidden tabs are not
/// paused or its tab is the visible one; a wanted collection runs on its
/// turn (every third tick for processes, ticks 1 and 2 modulo 6 for units
/// and S.M.A.R.T.) or when a refresh was forced.
pub open spec fn tick_plan_spec(tick: u64, pause_hidden: bool, tab: Seq<char>, force: bool) -> TickPlan {
    let want_procs = !pause_hidden || tab == "apps"@;
    let want_units = !pause_hidden || tab == "svcall"@;
    let want_smart = !pause_hidden || tab == "drive"@;
    TickPlan {
        heavy: tick % 3 == 0,
        procs: collect_spec(want_procs, tick % 3 == 0 || force),
        units: collect_spec(want_units, tick % 6 == 1 || force),
        smart: want_smart && (tick % 6 == 2 || force),
    }
}

fn collect_of(wanted: bool, due: bool) -> (c: Collect)
    ensures
        c == collect_spec(wanted, due),
{
    if wanted && due {
        Collect::Sample
    } else if !wanted {
        Collect::Release
    } else {
        Collect::Keep
    }
}

pub fn tick_plan(tick: u64, pause_hidden: bool, visible_tab: &str, force: bool) -> (p: TickPlan)
    ensures
        p == tick_plan_spec(tick, pause_hidden, visible_tab@, force),
{
    let tab = chars_of(visible_tab);
    let want_procs = !pause_hidden || str_eq(&tab, "apps");
    let want_units = !pause_hidden || str_eq(&tab, "svcall");
    let want_smart = !pause_hidden || str_eq(&tab, "drive");
    TickPlan {
        heavy: tick % 3 == 0,
        procs: collect_of(want_procs, tick % 3 == 0 || force),
        units: collect_of(want_units, tick % 6 == 1 || force),
        smart: want_smart && (tick % 6 == 2 || force),
    }
}

/// A heavy collection whose tab stays hidden is released on every tick and
/// never collected, whatever the tick and however often a refresh is forced.
pub proof fn lemma_hidden_tab_never_sampled(tick: u64, tab: Seq<char>, force: bool)
    requires
        tab != "apps"@,
        tab != "svcall"@,
        tab != "drive"@,
    ensures
        tick_plan_spec(tick, true, tab, force).procs == Collect::Release,
        tick_plan_spec(tick, true, tab, force).units == Collect::Release,
        !tick_plan_spec(tick, true, tab, force).smart,
{
}

/// Without pausing, every collection runs at least once in any six
/// consecutive ticks.
pub proof fn lemma_unpaused_sampled_within_six(tick: u64, tab: Seq<char>)
    requires
        tick <= u64::MAX - 5,
    ensures
        exists|d: u64| d < 6 && #[trigger] tick_plan_spec((tick + d) as u64, false, tab, false).procs
            == Collect::Sample,
        exists|d: u64| d < 6 && #[trigger] tick_plan_spec((tick + d) as u64, false, tab, false).units
            == Collect::Sample,
        exists|d: u64| d < 6 && #[trigger] tick_plan_spec((tick + d) as u64, false, tab, false).smart,
{
    let r = tick % 6;
    let dp: u64 = ((6 - r) % 3) as u64;
    let du: u64 = ((7 - r) % 6) as u64;
    let ds: u64 = ((8 - r) % 6) as u64;
    assert(((tick + dp) as u64) % 3 == 0);
    assert(((tick + du) as u64) % 6 == 1);
    assert(((tick + ds) as u64) % 6 == 2);
    assert(tick_plan_spec((tick + dp) as u64, false, tab, false).procs == Collect::Sample);
    assert(tick_plan_spec((tick + du) as u64, false, tab, false).units == Collect::Sample);
    assert(tick_plan_spec((tick + ds) as u64, false, tab, false).smart);
}

// ───────────────────────── readings as text ─────────────────────────

/// Turbo state from `cpufreq/boost`: `Active` when it reads `1`.
pub fn boost_text(boost: Option<&str>) -> (r: &'static str)
    ensures
        r@ == (match boost {
            Some(b) => if b@ == "1"@ {
                "Active"@
            } else {
                "Inactive"@
            },
            None => "Inactive"@,
        }),
{
    match boost {
        Some(b) => {
            if str_eq(&chars_of(b), "1") {
                "Active"
            } else {
                "Inactive"
            }
        },
        None => "Inactive",
    }
}

/// The CPU power mode when no mode was saved: `powersave` when the governor
/// is `powersave` and turbo is off, `performance` under the `performance`
/// governor, else `auto`.
pub open spec fn power_mode_guess(gov: Seq<char>, boost: Option<Seq<char>>) -> Seq<char> {
    if gov == "powersave"@ && boost == Some("0"@) {
        "powersave"@
    } else if gov == "performance"@ {
        "performance"@
    } else {
        "auto"@
    }
}

pub fn power_mode_fallback(gov: &str, boost: Option<&str>) -> (r: &'static str)
    ensures
        r@ == power_mode_guess(
            gov@,
            match boost {
                Some(b) => Some(b@),
                None => None,
            },
        ),
{
    let g = chars_of(gov);
    let boost_off = match boost {
        Some(b) => str_eq(&chars_of(b), "0"),
        None => false,
    };
    if str_eq(&g, "powersave") && boost_off {
        "powersave"
    } else if str_eq(&g, "performance") {
        "performance"
    } else {
        "auto"
    }
}

/// `s` with its first character upper-cased (full Unicode mapping, so one
/// character may become several).
pub open spec fn capitalized(s: Seq<char>) -> Seq<char> {
    if s.len() == 0 {
        s
    } else {
        uppercase(seq![s[0]]) + s.skip(1)
    }
}

/// `s` with its first character replaced by `head`, the upper-cased form of
/// that character.
pub open spec fn with_head(s: Seq<char>, head: Seq<char>) -> Seq<char> {
    if s.len() == 0 {
        s
    } else {
        head + s.skip(1)
    }
}

/// Joins the upper-cased first character `head` to the rest of `s`.
pub fn join_head(s: &str, head: &[char]) -> (r: String)
    ensures
        r@ == with_head(s@, head@),
{
    let c = chars_of(s);
    if c.len() == 0 {
        s.to_owned()
    } else {
        string_of(&concat(head, &slice_of(&c, 1, c.len())))
    }
}

/// The platform profile and PCI power state as shown: first letter upper-cased.
pub fn capitalize_first(s: &str) -> (r: String)
    ensures
        r@ == capitalized(s@),
{
    let c = chars_of(s);
    if c.len() == 0 {
        s.to_owned()
    } else {
        let first = slice_of(&c, 0, 1);
        assert(first@ =~= seq![s@[0]]);
        let head = to_uppercase(&first);
        join_head(s, &head)
    }
}

} // verus!
