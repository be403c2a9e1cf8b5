//! Power supplies: whether the charger is in, which batteries the machine
//! and its devices have, in what order, and how their sysfs readings read.
use vstd::prelude::*;
use crate::order::{key_of, lex_less, sort_by_key, sort_ranked, Ranked, SortKey};
use crate::text::{
    ascii_lower_of, ascii_lower_seq, chars_of, push_all, starts_with, str_eq, str_starts_with,
    string_of, trim, trim_chars,
};

verus! {

/// Whether the charger is plugged in: the first supply whose trimmed `type`
/// is `Mains` and whose `online` file could be read decides, by reading `1`;
/// with none, it is not.
pub open spec fn ac_online_spec(s: Seq<(Seq<char>, Option<Seq<char>>)>) -> bool
    decreases s.len(),
{
    if s.len() == 0 {
        false
    } else if trim(s[0].0) == "Mains"@ && s[0].1 is Some {
        trim(s[0].1->0) == "1"@
    } else {
        ac_online_spec(s.drop_first())
    }
}

/// `supplies` holds, in directory order, each supply's `type` text (empty
/// when unreadable) and its `online` text.
pub fn ac_online_from(supplies: &Vec<(String, Option<String>)>) -> (b: bool)
    ensures
        b == ac_online_spec(supplies.deep_view()),
{
    let ghost sv = supplies.deep_view();
    let mut i: usize = 0;
    assert(sv.skip(0) =~= sv);
    while i < supplies.len()
        invariant
            i <= supplies@.len(),
            sv == supplies.deep_view(),
            ac_online_spec(sv.skip(i as int)) == ac_online_spec(sv),
        decreases supplies@.len() - i,
    {
        proof {
            assert(sv.skip(i as int)[0] == sv[i as int]);
            assert(sv.skip(i as int).drop_first() =~= sv.skip(i + 1));
        }
        let t = trim_chars(&chars_of(supplies[i].0.as_str()));
        if str_eq(&t, "Mains") {
            match &supplies[i].1 {
                Some(o) => {
                    return str_eq(&trim_chars(&chars_of(o.as_str())), "1");
                },
                None => {},
            }
        }
        i += 1;
    }
    proof {
        assert(sv.skip(i as int) =~= Seq::<(Seq<char>, Option<Seq<char>>)>::empty());
    }
    false
}

/// Position of the first supply named `BAT…`.
pub open spec fn first_bat(names: Seq<Seq<char>>) -> Option<int>
    decreases names.len(),
{
    if names.len() == 0 {
        None
    } else if starts_with(names[0], "BAT"@) {
        Some(0)
    } else {
        match first_bat(names.drop_first()) {
            Some(i) => Some(i + 1),
            None => None,
        }
    }
}

pub fn first_battery(names: &Vec<String>) -> (r: Option<usize>)
    ensures
        match r {
            Some(i) => first_bat(names.deep_view()) == Some(i as int),
            None => first_bat(names.deep_view()) is None,
        },
{
    let ghost nv = names.deep_view();
    let mut i: usize = 0;
    assert(nv.skip(0) =~= nv);
    while i < names.len()
        invariant
            i <= names@.len(),
            nv == names.deep_view(),
            match first_bat(nv.skip(i as int)) {
                Some(j) => first_bat(nv) == Some(j + i),
                None => first_bat(nv) is None,
            },
        decreases names@.len() - i,
    {
        proof {
            assert(nv.skip(i as int)[0] == names@[i as int]@);
            assert(nv.skip(i as int).drop_first() =~= nv.skip(i + 1));
        }
        if str_starts_with(&chars_of(names[i].as_str()), "BAT") {
            return Some(i);
        }
        i += 1;
    }
    proof {
        assert(nv.skip(i as int) =~= Seq::<Seq<char>>::empty());
    }
    None
}

/// A battery, of the machine (`is_system`) or of a connected device.
pub struct BatEntry {
    pub name: String,
    pub model: String,
    pub path: String,
    pub is_system: bool,
}

pub ghost struct BatSpec {
    pub name: Seq<char>,
    pub model: Seq<char>,
    pub path: Seq<char>,
    pub is_system: bool,
}

impl View for BatEntry {
    type V = BatSpec;

    open spec fn view(&self) -> BatSpec {
        BatSpec { name: self.name@, model: self.model@, path: self.path@, is_system: self.is_system }
    }
}

pub open spec fn bat_views(bs: Seq<BatEntry>) -> Seq<BatSpec> {
    bs.map_values(|b: BatEntry| b@)
}

/// The supply `name` is a battery when its trimmed `type` is `Battery`; it
/// belongs to the machine unless its trimmed `scope` is `Device`.
pub fn battery_entry(name: &str, type_text: &str, scope_text: &str, model_text: &str) -> (r: Option<
    BatEntry,
>)
    ensures
        trim(type_text@) != "Battery"@ ==> r is None,
        trim(type_text@) == "Battery"@ ==> (r matches Some(b) && b@ == (BatSpec {
            name: name@,
            model: trim(model_text@),
            path: "/sys/class/power_supply/"@ + name@,
            is_system: trim(scope_text@) != "Device"@,
        })),
{
    if !str_eq(&trim_chars(&chars_of(type_text)), "Battery") {
        return None;
    }
    let is_system = !str_eq(&trim_chars(&chars_of(scope_text)), "Device");
    let mut path = chars_of("/sys/class/power_supply/");
    push_all(&mut path, &chars_of(name));
    Some(
        BatEntry {
            name: name.to_owned(),
            model: string_of(&trim_chars(&chars_of(model_text))),
            path: string_of(&path),
            is_system,
        },
    )
}

impl Ranked for BatEntry {
    open spec fn sort_key(&self) -> SortKey {
        (if self.is_system {
            0nat
        } else {
            1nat
        }, self.name@)
    }

    fn goes_after(&self, other: &Self) -> (b: bool) {
        let ra: u8 = if self.is_system {
            0
        } else {
            1
        };
        let rb: u8 = if other.is_system {
            0
        } else {
            1
        };
        if ra != rb {
            ra > rb
        } else {
            lex_less(&chars_of(other.name.as_str()), &chars_of(self.name.as_str()))
        }
    }
}

/// The machine's batteries first, then the devices', each by name.
pub fn sort_bats(v: &mut Vec<BatEntry>)
    ensures
        final(v)@ == sort_by_key(old(v)@, key_of::<BatEntry>()),
{
    sort_ranked(v);
}

/// Structural signature of the battery list.
pub open spec fn bat_sig(bs: Seq<BatSpec>) -> Seq<char>
    decreases bs.len(),
{
    if bs.len() == 0 {
        Seq::empty()
    } else {
        bat_sig(bs.drop_last()) + bs.last().name + seq![
            if bs.last().is_system {
                'S'
            } else {
                'D'
            },
            ';',
        ]
    }
}

pub fn bat_signature(bats: &Vec<BatEntry>) -> (s: String)
    ensures
        s@ == bat_sig(bat_views(bats@)),
{
    let ghost bv = bat_views(bats@);
    let mut out: Vec<char> = Vec::new();
    let mut i: usize = 0;
    while i < bats.len()
        invariant
            i <= bats@.len(),
            bv == bat_views(bats@),
            out@ == bat_sig(bv.take(i as int)),
        decreases bats@.len() - i,
    {
        push_all(&mut out, &chars_of(bats[i].name.as_str()));
        out.push(
            if bats[i].is_system {
                'S'
            } else {
                'D'
            },
        );
        out.push(';');
        proof {
            assert(bv.take(i + 1).drop_last() =~= bv.take(i as int));
            assert(bv.take(i + 1).last() == bats@[i as int]@);
            assert(out@ =~= bat_sig(bv.take(i + 1)));
        }
        i += 1;
    }
    assert(bv.take(bats@.len() as int) =~= bv);
    string_of(&out)
}

/// The charge a `capacity_level` word stands for, for batteries that report
/// no percentage.
pub open spec fn level_percent_spec(level: Seq<char>) -> Option<u8> {
    if level == "Full"@ {
        Some(100)
    } else if level == "High"@ {
        Some(80)
    } else if level == "Normal"@ || level == "Good"@ {
        Some(55)
    } else if level == "Low"@ {
        Some(20)
    } else if level == "Critical"@ {
        Some(5)
    } else {
        None
    }
}

pub fn level_percent(level: &str) -> (r: Option<u8>)
    ensures
        r == level_percent_spec(level@),
{
    let l = chars_of(level);
    if str_eq(&l, "Full") {
        Some(100)
    } else if str_eq(&l, "High") {
        Some(80)
    } else if str_eq(&l, "Normal") || str_eq(&l, "Good") {
        Some(55)
    } else if str_eq(&l, "Low") {
        Some(20)
    } else if str_eq(&l, "Critical") {
        Some(5)
    } else {
        None
    }
}

/// The battery state shown for a trimmed `status`: as reported, or
/// `Unknown` when empty.
pub fn battery_state(status: &str) -> (r: String)
    ensures
        r@ == (if status@.len() == 0 {
            "Unknown"@
        } else {
            status@
        }),
{
    if chars_of(status).len() == 0 {
        "Unknown".to_owned()
    } else {
        status.to_owned()
    }
}

/// The cell chemistry shown for a `technology` code.
pub open spec fn technology_spec(t: Seq<char>) -> Seq<char> {
    if t == "Li-ion"@ || t == "Li-Ion"@ {
        "Lithium Ion"@
    } else if t == "Li-poly"@ {
        "Lithium Polymer"@
    } else {
        t
    }
}

pub fn technology_name(t: &str) -> (r: String)
    ensures
        r@ == technology_spec(t@),
{
    let c = chars_of(t);
    if str_eq(&c, "Li-ion") || str_eq(&c, "Li-Ion") {
        "Lithium Ion".to_owned()
    } else if str_eq(&c, "Li-poly") {
        "Lithium Polymer".to_owned()
    } else {
        t.to_owned()
    }
}

/// What the power page says about the charger and the battery: the battery
/// row, the drain row and the health row. `near_limit` says whether the
/// charge reads at least 79%; `energy_rate`, `health` and `time_left` are
/// what `upower` reported (empty when unknown).
pub open spec fn battery_rows_spec(
    ac: bool,
    near_limit: bool,
    status: Seq<char>,
    threshold: Seq<char>,
    energy_rate: Seq<char>,
    health: Seq<char>,
    time_left: Seq<char>,
) -> (Seq<char>, Seq<char>, Seq<char>) {
    let rate = if energy_rate.len() == 0 {
        "Active"@
    } else {
        energy_rate
    };
    let (bat, drain) = if ac {
        if threshold == "80"@ && near_limit {
            ("🔌 Charger Connected — Standby (80% Limit)"@, "Powered by Adapter (Battery standby)"@)
        } else if ascii_lower_seq(status) == "charging"@ {
            (
                "⚡ Charging"@ + (if threshold != "100"@ {
                    " (Target "@ + threshold + "%)"@
                } else {
                    Seq::empty()
                }),
                rate + " (Charging)"@,
            )
        } else {
            ("🔌 Charger Connected ("@ + status + ")"@, "Adapter Active"@)
        }
    } else {
        ("🔋 Battery Mode (Not Charging)"@, rate + " (Load Draw)"@)
    };
    let est = if time_left.len() > 0 && !ac {
        " | Estimate: "@ + time_left
    } else {
        Seq::empty()
    };
    (bat, drain, "Cell Health: "@ + (if health.len() == 0 {
        "Normal"@
    } else {
        health
    }) + est)
}

pub fn battery_rows(
    ac: bool,
    near_limit: bool,
    status: &str,
    threshold: &str,
    energy_rate: &str,
    health: &str,
    time_left: &str,
) -> (r: (String, String, String))
    ensures
        (r.0@, r.1@, r.2@) == battery_rows_spec(
            ac,
            near_limit,
            status@,
            threshold@,
            energy_rate@,
            health@,
            time_left@,
        ),
{
    let rate = if chars_of(energy_rate).len() == 0 {
        chars_of("Active")
    } else {
        chars_of(energy_rate)
    };
    let th = chars_of(threshold);
    let (bat, drain) = if ac {
        if str_eq(&th, "80") && near_limit {
            (
                chars_of("🔌 Charger Connected — Standby (80% Limit)"),
                chars_of("Powered by Adapter (Battery standby)"),
            )
        } else if str_eq(&ascii_lower_of(&chars_of(status)), "charging") {
            let mut b = chars_of("⚡ Charging");
            if !str_eq(&th, "100") {
                push_all(&mut b, &chars_of(" (Target "));
                push_all(&mut b, &th);
                push_all(&mut b, &chars_of("%)"));
            }
            let mut d = rate;
            push_all(&mut d, &chars_of(" (Charging)"));
            (b, d)
        } else {
            let mut b = chars_of("🔌 Charger Connected (");
            push_all(&mut b, &chars_of(status));
            push_all(&mut b, &chars_of(")"));
            (b, chars_of("Adapter Active"))
        }
    } else {
        let mut d = rate;
        push_all(&mut d, &chars_of(" (Load Draw)"));
        (chars_of("🔋 Battery Mode (Not Charging)"), d)
    };
    let mut h = chars_of("Cell Health: ");
    if chars_of(health).len() == 0 {
        push_all(&mut h, &chars_of("Normal"));
    } else {
        push_all(&mut h, &chars_of(health));
    }
    if chars_of(time_left).len() > 0 && !ac {
        push_all(&mut h, &chars_of(" | Estimate: "));
        push_all(&mut h, &chars_of(time_left));
    }
    (string_of(&bat), string_of(&drain), string_of(&h))
}

} // verus!
