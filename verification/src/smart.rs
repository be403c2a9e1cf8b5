//! Drive health: what the S.M.A.R.T. helper script prints, and how the drive
//! page shows it.
use vstd::prelude::*;
use crate::text::{
    chars_of, contains_seq, lines, lines_of, push_all, split_once, split_once_chars, str_contains,
    str_eq, string_of, trim, trim_chars,
};

verus! {

/// The S.M.A.R.T. report of one drive.
pub struct SmartInfo {
    pub dev: String,
    /// `smartctl` is not installed.
    pub smartctl_missing: bool,
    pub health: String,
    pub temp: String,
    pub power_on_hours: String,
    pub power_cycles: String,
    pub reallocated: String,
    pub percent_used: String,
    pub data_written: String,
    pub model: String,
}

pub ghost struct SmartSpec {
    pub dev: Seq<char>,
    pub smartctl_missing: bool,
    pub health: Seq<char>,
    pub temp: Seq<char>,
    pub power_on_hours: Seq<char>,
    pub power_cycles: Seq<char>,
    pub reallocated: Seq<char>,
    pub percent_used: Seq<char>,
    pub data_written: Seq<char>,
    pub model: Seq<char>,
}

impl View for SmartInfo {
    type V = SmartSpec;

    open spec fn view(&self) -> SmartSpec {
        SmartSpec {
            dev: self.dev@,
            smartctl_missing: self.smartctl_missing,
            health: self.health@,
            temp: self.temp@,
            power_on_hours: self.power_on_hours@,
            power_cycles: self.power_cycles@,
            reallocated: self.reallocated@,
            percent_used: self.percent_used@,
            data_written: self.data_written@,
            model: self.model@,
        }
    }
}

pub open spec fn empty_report(dev: Seq<char>) -> SmartSpec {
    SmartSpec {
        dev,
        smartctl_missing: false,
        health: Seq::empty(),
        temp: Seq::empty(),
        power_on_hours: Seq::empty(),
        power_cycles: Seq::empty(),
        reallocated: Seq::empty(),
        percent_used: Seq::empty(),
        data_written: Seq::empty(),
        model: Seq::empty(),
    }
}

/// The report after one more line of the script: a `KEY=value` line sets
/// the field of its (trimmed) key to the trimmed value.
pub open spec fn smart_step(p: SmartSpec, line: Seq<char>) -> SmartSpec {
    match split_once(line, '=') {
        Some((k0, v0)) => {
            let k = trim(k0);
            let v = trim(v0);
            if k == "SMARTCTL_MISSING"@ {
                SmartSpec { smartctl_missing: v == "1"@, ..p }
            } else if k == "HEALTH"@ {
                SmartSpec { health: v, ..p }
            } else if k == "TEMP"@ {
                SmartSpec { temp: v, ..p }
            } else if k == "POWER_ON_HOURS"@ {
                SmartSpec { power_on_hours: v, ..p }
            } else if k == "POWER_CYCLES"@ {
                SmartSpec { power_cycles: v, ..p }
            } else if k == "REALLOCATED"@ {
                SmartSpec { reallocated: v, ..p }
            } else if k == "PERCENT_USED"@ {
                SmartSpec { percent_used: v, ..p }
            } else if k == "DATA_WRITTEN"@ {
                SmartSpec { data_written: v, ..p }
            } else if k == "MODEL"@ {
                SmartSpec { model: v, ..p }
            } else {
                p
            }
        },
        None => p,
    }
}

/// The report after the script's lines `ls` (later lines win).
pub open spec fn smart_after(dev: Seq<char>, ls: Seq<Seq<char>>) -> SmartSpec
    decreases ls.len(),
{
    if ls.len() == 0 {
        empty_report(dev)
    } else {
        smart_step(smart_after(dev, ls.drop_last()), ls.last())
    }
}

fn apply_line(info: &mut SmartInfo, line: &[char])
    ensures
        final(info)@ == smart_step(old(info)@, line@),
{
    match split_once_chars(line, '=') {
        Some((k0, v0)) => {
            assert(split_once(line@, '=') == Some((k0@, v0@)));
            let k = trim_chars(&k0);
            let vc = trim_chars(&v0);
            let v = string_of(&vc);
            if str_eq(&k, "SMARTCTL_MISSING") {
                info.smartctl_missing = str_eq(&vc, "1");
            } else if str_eq(&k, "HEALTH") {
                info.health = v;
            } else if str_eq(&k, "TEMP") {
                info.temp = v;
            } else if str_eq(&k, "POWER_ON_HOURS") {
                info.power_on_hours = v;
            } else if str_eq(&k, "POWER_CYCLES") {
                info.power_cycles = v;
            } else if str_eq(&k, "REALLOCATED") {
                info.reallocated = v;
            } else if str_eq(&k, "PERCENT_USED") {
                info.percent_used = v;
            } else if str_eq(&k, "DATA_WRITTEN") {
                info.data_written = v;
            } else if str_eq(&k, "MODEL") {
                info.model = v;
            }
        },
        None => {},
    }
}

/// The report of drive `dev` from the helper's output (empty output when the
/// helper could not run).
pub fn parse_smart(dev: &str, out: &str) -> (r: SmartInfo)
    ensures
        r@ == smart_after(dev@, lines(out@)),
{
    let ls = lines_of(&chars_of(out));
    let ghost lv = ls.deep_view();
    let mut info = SmartInfo {
        dev: dev.to_owned(),
        smartctl_missing: false,
        health: String::new(),
        temp: String::new(),
        power_on_hours: String::new(),
        power_cycles: String::new(),
        reallocated: String::new(),
        percent_used: String::new(),
        data_written: String::new(),
        model: String::new(),
    };
    let mut i: usize = 0;
    while i < ls.len()
        invariant
            i <= ls@.len(),
            lv == ls.deep_view(),
            info@ == smart_after(dev@, lv.take(i as int)),
        decreases ls@.len() - i,
    {
        proof {
            assert(lv.take(i + 1).drop_last() =~= lv.take(i as int));
            assert(lv.take(i + 1).last() == ls@[i as int]@);
        }
        apply_line(&mut info, &ls[i]);
        i += 1;
    }
    assert(lv.take(ls@.len() as int) =~= lv);
    info
}

/// Which report belongs to the drive shown at position `idx`: the first one
/// for its device, else the one at the same position.
pub fn smart_report_for(reports: &Vec<SmartInfo>, dev: &str, idx: usize) -> (r: Option<usize>)
    ensures
        match r {
            Some(i) => {
                &&& i < reports@.len()
                &&& {
                    ||| (reports@[i as int].dev@ == dev@ && forall|j: int|
                        0 <= j < i ==> reports@[j].dev@ != dev@)
                    ||| (i == idx && forall|j: int|
                        0 <= j < reports@.len() ==> reports@[j].dev@ != dev@)
                }
            },
            None => idx >= reports@.len() && forall|j: int|
                0 <= j < reports@.len() ==> reports@[j].dev@ != dev@,
        },
{
    let d = chars_of(dev);
    let mut i: usize = 0;
    while i < reports.len()
        invariant
            i <= reports@.len(),
            d@ == dev@,
            forall|j: int| 0 <= j < i ==> reports@[j].dev@ != dev@,
        decreases reports@.len() - i,
    {
        if crate::text::chars_eq(&chars_of(reports[i].dev.as_str()), &d) {
            return Some(i);
        }
        i += 1;
    }
    if idx < reports.len() {
        Some(idx)
    } else {
        None
    }
}

/// A reading as shown: `—` when it is empty, `Unknown` or `N/A`.
pub open spec fn dash_spec(s: Seq<char>) -> Seq<char> {
    if s.len() == 0 || s == "Unknown"@ || s == "N/A"@ {
        "—"@
    } else {
        s
    }
}

pub fn dash(s: &str) -> (r: String)
    ensures
        r@ == dash_spec(s@),
{
    let c = chars_of(s);
    if c.len() == 0 || str_eq(&c, "Unknown") || str_eq(&c, "N/A") {
        "—".to_owned()
    } else {
        s.to_owned()
    }
}

/// The temperature row: a note when `smartctl` is missing, `—` when the
/// temperature is unknown, else the reading in °C.
pub open spec fn temp_row_spec(r: SmartSpec) -> Seq<char> {
    if r.smartctl_missing {
        "smartmontools not installed"@
    } else if r.temp.len() == 0 || r.temp == "Unknown"@ {
        "—"@
    } else {
        r.temp + "°C"@
    }
}

pub fn smart_temp_row(r: &SmartInfo) -> (s: String)
    ensures
        s@ == temp_row_spec(r@),
{
    if r.smartctl_missing {
        return "smartmontools not installed".to_owned();
    }
    let t = chars_of(r.temp.as_str());
    if t.len() == 0 || str_eq(&t, "Unknown") {
        "—".to_owned()
    } else {
        let mut out = t;
        push_all(&mut out, &chars_of("°C"));
        string_of(&out)
    }
}

/// The wear row: `—` when unknown, else the percentage used.
pub fn smart_wear_row(percent_used: &str) -> (s: String)
    ensures
        s@ == (if percent_used@.len() == 0 || percent_used@ == "N/A"@ {
            "—"@
        } else {
            percent_used@ + "%"@
        }),
{
    let p = chars_of(percent_used);
    if p.len() == 0 || str_eq(&p, "N/A") {
        "—".to_owned()
    } else {
        let mut out = p;
        out.push('%');
        proof {
            reveal_strlit("%");
        }
        assert(out@ =~= percent_used@ + "%"@);
        string_of(&out)
    }
}

/// The drive's health badge.
#[derive(PartialEq, Eq, Structural, Clone, Copy)]
pub enum HealthBadge {
    /// `smartctl` is missing: suggest installing smartmontools.
    NotInstalled,
    Passed,
    Failed,
    /// Any other verdict, shown as reported.
    Other,
}

pub open spec fn health_spec(r: SmartSpec) -> HealthBadge {
    if r.smartctl_missing {
        HealthBadge::NotInstalled
    } else if contains_seq(r.health, "PASSED"@) {
        HealthBadge::Passed
    } else if contains_seq(r.health, "FAILED"@) {
        HealthBadge::Failed
    } else {
        HealthBadge::Other
    }
}

pub fn health_badge(r: &SmartInfo) -> (b: HealthBadge)
    ensures
        b == health_spec(r@),
{
    let h = chars_of(r.health.as_str());
    if r.smartctl_missing {
        HealthBadge::NotInstalled
    } else if str_contains(&h, "PASSED") {
        HealthBadge::Passed
    } else if str_contains(&h, "FAILED") {
        HealthBadge::Failed
    } else {
        HealthBadge::Other
    }
}

} // verus!
