//! Hardware monitors: which one carries the CPU temperature, and the fans
//! with their labels and stable keys.
use vstd::prelude::*;
use crate::order::{key_of, sort_by_key, sort_names};
use crate::procs::{strip_all_suffix, strip_all_suffix_of};
use crate::text::{
    chars_of, ends_with, lemma_chars_deep_view, lemma_deep_view_push, push_all, split_char,
    split_char_of, starts_with, str_ends_with, str_eq, str_starts_with, string_of, trim, trim_chars,
};

verus! {

broadcast use lemma_chars_deep_view;

/// Monitor drivers that report the CPU package temperature.
pub open spec fn cpu_sensor_spec(name: Seq<char>) -> bool {
    let n = trim(name);
    n == "k10temp"@ || n == "coretemp"@ || n == "zenpower"@
}

pub fn is_cpu_sensor(name_text: &str) -> (b: bool)
    ensures
        b == cpu_sensor_spec(name_text@),
{
    let n = trim_chars(&chars_of(name_text));
    str_eq(&n, "k10temp") || str_eq(&n, "coretemp") || str_eq(&n, "zenpower")
}

/// Position of the first monitor, in directory order, that is a CPU sensor
/// and has a `temp1_input`.
pub open spec fn first_cpu_sensor(m: Seq<(Seq<char>, bool)>) -> Option<int>
    decreases m.len(),
{
    if m.len() == 0 {
        None
    } else if cpu_sensor_spec(m[0].0) && m[0].1 {
        Some(0)
    } else {
        match first_cpu_sensor(m.drop_first()) {
            Some(i) => Some(i + 1),
            None => None,
        }
    }
}

/// `monitors` holds each monitor's `name` text and whether it has a
/// `temp1_input`.
pub fn cpu_sensor_index(monitors: &Vec<(String, bool)>) -> (r: Option<usize>)
    ensures
        match r {
            Some(i) => first_cpu_sensor(monitors.deep_view()) == Some(i as int),
            None => first_cpu_sensor(monitors.deep_view()) is None,
        },
{
    let ghost mv = monitors.deep_view();
    let mut i: usize = 0;
    assert(mv.skip(0) =~= mv);
    while i < monitors.len()
        invariant
            i <= monitors@.len(),
            mv == monitors.deep_view(),
            match first_cpu_sensor(mv.skip(i as int)) {
                Some(j) => first_cpu_sensor(mv) == Some(j + i),
                None => first_cpu_sensor(mv) is None,
            },
        decreases monitors@.len() - i,
    {
        proof {
            assert(mv.skip(i as int)[0] == (monitors@[i as int].0@, monitors@[i as int].1));
            assert(mv.skip(i as int).drop_first() =~= mv.skip(i + 1));
        }
        if is_cpu_sensor(monitors[i].0.as_str()) && monitors[i].1 {
            return Some(i);
        }
        i += 1;
    }
    proof {
        assert(mv.skip(i as int) =~= Seq::<(Seq<char>, bool)>::empty());
    }
    None
}

// ───────────────────────── fans ─────────────────────────

/// Names in `str::cmp` order.
pub open spec fn name_key() -> spec_fn(Seq<char>) -> crate::order::SortKey {
    |s: Seq<char>| (0nat, s)
}

/// `fanN_input` files.
pub open spec fn is_fan_input(n: Seq<char>) -> bool {
    starts_with(n, "fan"@) && ends_with(n, "_input"@)
}

pub open spec fn fan_inputs_of(names: Seq<Seq<char>>) -> Seq<Seq<char>>
    decreases names.len(),
{
    if names.len() == 0 {
        Seq::empty()
    } else if is_fan_input(names.last()) {
        fan_inputs_of(names.drop_last()).push(names.last())
    } else {
        fan_inputs_of(names.drop_last())
    }
}

/// The fan input files among a monitor's `names`, sorted.
pub fn fan_inputs(names: &Vec<String>) -> (r: Vec<String>)
    ensures
        r.deep_view() == sort_by_key(fan_inputs_of(names.deep_view()), name_key()),
{
    let ghost nv = names.deep_view();
    let mut r: Vec<String> = Vec::new();
    let mut i: usize = 0;
    while i < names.len()
        invariant
            i <= names@.len(),
            nv == names.deep_view(),
            r.deep_view() == fan_inputs_of(nv.take(i as int)),
        decreases names@.len() - i,
    {
        proof {
            assert(nv.take(i + 1).drop_last() =~= nv.take(i as int));
            assert(nv.take(i + 1).last() == names@[i as int]@);
        }
        let c = chars_of(names[i].as_str());
        if str_starts_with(&c, "fan") && str_ends_with(&c, "_input") {
            let s = names[i].clone();
            let ghost old_v = r@;
            let ghost sv = s;
            r.push(s);
            proof {
                lemma_deep_view_push(r, old_v, sv);
            }
        }
        i += 1;
    }
    assert(nv.take(names@.len() as int) =~= nv);
    let ghost before = r@;
    sort_names(&mut r);
    proof {
        crate::order::lemma_sort_map::<String, Seq<char>>(
            before,
            |s: String| s@,
            key_of::<String>(),
            name_key(),
        );
        assert(before.map_values(|s: String| s@) =~= fan_inputs_of(nv));
        assert(r@.map_values(|s: String| s@) =~= r.deep_view());
    }
    r
}

/// A fan: its label, the file its speed is read from, and a key that stays
/// the same across rescans (`hwmonN:fanM`).
pub struct FanEntry {
    pub label: String,
    pub path: String,
    pub key: String,
}

pub ghost struct FanSpec {
    pub label: Seq<char>,
    pub path: Seq<char>,
    pub key: Seq<char>,
}

impl View for FanEntry {
    type V = FanSpec;

    open spec fn view(&self) -> FanSpec {
        FanSpec { label: self.label@, path: self.path@, key: self.key@ }
    }
}

pub open spec fn fan_views(fs: Seq<FanEntry>) -> Seq<FanSpec> {
    fs.map_values(|f: FanEntry| f@)
}

/// The last `/`-separated piece of a path (`str::rsplit('/').next()`).
pub open spec fn last_piece(p: Seq<char>) -> Seq<char> {
    split_char(p, '/').last()
}

/// The fan behind input file `input` of monitor directory `dir`: labelled
/// by its trimmed `_label` file when that reads non-empty, else by the file
/// name without `_input`.
pub open spec fn fan_spec(dir: Seq<char>, input: Seq<char>, label_text: Option<Seq<char>>) -> FanSpec {
    let base = strip_all_suffix(input, "_input"@);
    FanSpec {
        label: match label_text {
            Some(t) => if trim(t).len() > 0 {
                trim(t)
            } else {
                base
            },
            None => base,
        },
        path: dir + "/"@ + input,
        key: last_piece(dir) + ":"@ + base,
    }
}

pub fn fan_entry(dir: &str, input: &str, label_text: Option<&str>) -> (f: FanEntry)
    ensures
        f@ == fan_spec(
            dir@,
            input@,
            match label_text {
                Some(t) => Some(t@),
                None => None,
            },
        ),
{
    let d = chars_of(dir);
    let base = strip_all_suffix_of(&chars_of(input), "_input");
    let label = match label_text {
        Some(t) => {
            let tt = trim_chars(&chars_of(t));
            if tt.len() > 0 {
                tt
            } else {
                crate::text::copy_of(&base)
            }
        },
        None => crate::text::copy_of(&base),
    };
    let mut path = crate::text::copy_of(&d);
    path.push('/');
    push_all(&mut path, &chars_of(input));
    let pieces = split_char_of(&d, '/');
    let last = pieces.len() - 1;
    proof {
        assert(pieces.deep_view()[last as int] == pieces@[last as int]@);
    }
    let mut key = crate::text::copy_of(&pieces[last]);
    key.push(':');
    push_all(&mut key, &base);
    proof {
        reveal_strlit("/");
        reveal_strlit(":");
        assert(path@ =~= d@ + "/"@ + input@);
        assert(key@ =~= last_piece(dir@) + ":"@ + base@);
    }
    FanEntry { label: string_of(&label), path: string_of(&path), key: string_of(&key) }
}

/// Structural signature of the fan list.
pub open spec fn fan_sig(fs: Seq<FanSpec>) -> Seq<char>
    decreases fs.len(),
{
    if fs.len() == 0 {
        Seq::empty()
    } else {
        fan_sig(fs.drop_last()) + fs.last().key + seq![';']
    }
}

pub fn fan_signature(fans: &Vec<FanEntry>) -> (s: String)
    ensures
        s@ == fan_sig(fan_views(fans@)),
{
    let ghost fv = fan_views(fans@);
    let mut out: Vec<char> = Vec::new();
    let mut i: usize = 0;
    while i < fans.len()
        invariant
            i <= fans@.len(),
            fv == fan_views(fans@),
            out@ == fan_sig(fv.take(i as int)),
        decreases fans@.len() - i,
    {
        push_all(&mut out, &chars_of(fans[i].key.as_str()));
        out.push(';');
        proof {
            assert(fv.take(i + 1).drop_last() =~= fv.take(i as int));
            assert(fv.take(i + 1).last() == fans@[i as int]@);
            assert(out@ =~= fan_sig(fv.take(i + 1)));
        }
        i += 1;
    }
    assert(fv.take(fans@.len() as int) =~= fv);
    string_of(&out)
}

} // verus!
