//! Text that the kernel and small system tools print about the CPU:
//! `KEY=value` files, `/proc/stat`, `/proc/cpuinfo`, `lscpu`, the DIMM helper
//! and `upower`, plus the uptime clock.
use vstd::prelude::*;
use crate::text::{
    chars_of, dec_pad, dec_pad_u64, lemma_chars_deep_view, lines, lines_of, lowered_rows,
    lowered_rows_of, parse_u64, parse_u64_spec, push_all, split_once, split_once_chars, starts_with,
    str_eq, str_starts_with, strip_prefix, strip_prefix_str, str_contains, contains_seq, string_of,
    trim, trim_chars, words, words_of,
};

verus! {

broadcast use lemma_chars_deep_view;

// ───────────────────────── KEY=value files ─────────────────────────

/// The trimmed value of the first line `KEY=value` whose trimmed key is `key`.
pub open spec fn kv_value(ls: Seq<Seq<char>>, key: Seq<char>) -> Option<Seq<char>>
    decreases ls.len(),
{
    if ls.len() == 0 {
        None
    } else {
        match split_once(ls[0], '=') {
            Some((k, v)) => {
                if trim(k) == key {
                    Some(trim(v))
                } else {
                    kv_value(ls.drop_first(), key)
                }
            },
            None => kv_value(ls.drop_first(), key),
        }
    }
}

/// The value that a `KEY=value` configuration text gives `key`.
pub fn read_kv(text: &str, key: &str) -> (r: Option<String>)
    ensures
        r.deep_view() == kv_value(lines(text@), key@),
{
    let t = chars_of(text);
    let kc = chars_of(key);
    let ls = lines_of(&t);
    let ghost lv = ls.deep_view();
    let mut i: usize = 0;
    assert(lv.skip(0) =~= lv);
    while i < ls.len()
        invariant
            i <= ls@.len(),
            lv == ls.deep_view(),
            lv == lines(text@),
            kc@ == key@,
            kv_value(lv.skip(i as int), key@) == kv_value(lv, key@),
        decreases ls@.len() - i,
    {
        proof {
            assert(lv.skip(i as int)[0] == ls@[i as int]@);
            assert(lv.skip(i as int).drop_first() =~= lv.skip(i + 1));
        }
        match split_once_chars(&ls[i], '=') {
            Some((k, v)) => {
                let tk = trim_chars(&k);
                if crate::text::chars_eq(&tk, &kc) {
                    let tv = trim_chars(&v);
                    return Some(string_of(&tv));
                }
            },
            None => {},
        }
        i += 1;
    }
    None
}

// ───────────────────────── single readings ─────────────────────────

/// A sysfs number: the file's trimmed text read as `u64`.
pub fn reading_u64(text: &str) -> (r: Option<u64>)
    ensures
        r == parse_u64_spec(trim(text@)),
{
    parse_u64(&trim_chars(&chars_of(text)))
}

// ───────────────────────── /proc/stat ─────────────────────────

/// The tokens of `ws` that parse as `u64`, in order.
pub open spec fn parsed_nums(ws: Seq<Seq<char>>) -> Seq<u64>
    decreases ws.len(),
{
    if ws.len() == 0 {
        Seq::empty()
    } else {
        match parse_u64_spec(ws.last()) {
            Some(n) => parsed_nums(ws.drop_last()).push(n),
            None => parsed_nums(ws.drop_last()),
        }
    }
}

pub open spec fn sum_nat(s: Seq<u64>) -> nat
    decreases s.len(),
{
    if s.len() == 0 {
        0
    } else {
        sum_nat(s.drop_last()) + s.last() as nat
    }
}

/// The numbers of a `cpu` line of `/proc/stat`, when it has at least four.
pub open spec fn cpu_line_nums(line: Seq<char>) -> Option<Seq<u64>> {
    let w = words(line);
    if !starts_with(line, "cpu"@) || w.len() == 0 {
        None
    } else {
        let v = parsed_nums(w.drop_first());
        if v.len() < 4 {
            None
        } else {
            Some(v)
        }
    }
}

/// Idle time of a `cpu` line: idle plus iowait (the fifth number, 0 when
/// absent).
pub open spec fn idle_of(v: Seq<u64>) -> nat {
    v[3] as nat + if v.len() > 4 {
        v[4] as nat
    } else {
        0
    }
}

/// A `cpu` line whose idle time or total does not fit in `u64`.
pub open spec fn cpu_line_overflows(line: Seq<char>) -> bool {
    match cpu_line_nums(line) {
        Some(v) => idle_of(v) > u64::MAX || sum_nat(v) > u64::MAX,
        None => false,
    }
}

/// `(idle, total)` of the aggregate `cpu` line and of each `cpuN` line in
/// order, after the lines `ls`.
pub open spec fn stat_after(ls: Seq<Seq<char>>) -> ((nat, nat), Seq<(nat, nat)>)
    decreases ls.len(),
{
    if ls.len() == 0 {
        ((0, 0), Seq::empty())
    } else {
        let prev = stat_after(ls.drop_last());
        let line = ls.last();
        match cpu_line_nums(line) {
            Some(v) => {
                if words(line)[0] == "cpu"@ {
                    ((idle_of(v), sum_nat(v)), prev.1)
                } else {
                    (prev.0, prev.1.push((idle_of(v), sum_nat(v))))
                }
            },
            None => prev,
        }
    }
}

/// A per-CPU line of `/proc/stat`: a `cpuN` line (not the aggregate `cpu`
/// line) with at least four numbers.
pub open spec fn is_core_line(l: Seq<char>) -> bool {
    cpu_line_nums(l) is Some && words(l)[0] != "cpu"@
}

/// `(idle, total)` of one `cpu` line: idle plus iowait, and the sum of all
/// its numbers.
pub open spec fn core_entry(l: Seq<char>) -> (nat, nat) {
    match cpu_line_nums(l) {
        Some(v) => (idle_of(v), sum_nat(v)),
        None => (0, 0),
    }
}

/// Each logical CPU's reading comes from its own line, in file order: there
/// is one entry per `cpuN` line, and entry `i` is the `(idle, total)` of the
/// `i`-th `cpuN` line of the text.
pub proof fn lemma_stat_cores_in_order(ls: Seq<Seq<char>>)
    ensures
        stat_after(ls).1.len() == ls.filter(|l: Seq<char>| is_core_line(l)).len(),
        forall|i: int|
            0 <= i < stat_after(ls).1.len() ==> #[trigger] stat_after(ls).1[i] == core_entry(
                ls.filter(|l: Seq<char>| is_core_line(l))[i],
            ),
    decreases ls.len(),
{
    let p = |l: Seq<char>| is_core_line(l);
    if ls.len() == 0 {
        reveal(Seq::filter);
    } else {
        lemma_stat_cores_in_order(ls.drop_last());
        ls.drop_last().lemma_filter_push(ls.last(), p);
        assert(ls.drop_last().push(ls.last()) =~= ls);
    }
}

pub open spec fn stat_overflows(ls: Seq<Seq<char>>) -> bool {
    exists|i: int| 0 <= i < ls.len() && #[trigger] cpu_line_overflows(ls[i])
}

fn parsed_nums_of(ws: &Vec<Vec<char>>, from: usize) -> (r: Vec<u64>)
    requires
        from <= ws@.len(),
    ensures
        r@ == parsed_nums(ws.deep_view().skip(from as int)),
{
    let mut r: Vec<u64> = Vec::new();
    let mut i = from;
    let ghost wv = ws.deep_view();
    assert(wv.skip(from as int).take(0) =~= Seq::<Seq<char>>::empty());
    while i < ws.len()
        invariant
            from <= i <= ws@.len(),
            wv == ws.deep_view(),
            r@ == parsed_nums(wv.skip(from as int).take(i - from)),
        decreases ws@.len() - i,
    {
        proof {
            let t = wv.skip(from as int);
            assert(t.take(i - from + 1).drop_last() =~= t.take(i - from));
            assert(t.take(i - from + 1).last() == ws@[i as int]@);
        }
        match parse_u64(&ws[i]) {
            Some(n) => r.push(n),
            None => {},
        }
        i += 1;
    }
    assert(wv.skip(from as int).take(ws@.len() - from) =~= wv.skip(from as int));
    r
}

fn sum_checked(v: &Vec<u64>) -> (r: Option<u64>)
    ensures
        match r {
            Some(s) => s == sum_nat(v@),
            None => sum_nat(v@) > u64::MAX,
        },
{
    let mut s: u64 = 0;
    let mut i: usize = 0;
    while i < v.len()
        invariant
            i <= v@.len(),
            s == sum_nat(v@.take(i as int)),
        decreases v@.len() - i,
    {
        proof {
            assert(v@.take(i + 1).drop_last() =~= v@.take(i as int));
        }
        match s.checked_add(v[i]) {
            Some(t) => s = t,
            None => {
                proof {
                    lemma_sum_prefix_le(v@, i + 1);
                }
                return None;
            },
        }
        i += 1;
    }
    assert(v@.take(v@.len() as int) =~= v@);
    Some(s)
}

proof fn lemma_sum_prefix_le(s: Seq<u64>, k: int)
    requires
        0 <= k <= s.len(),
    ensures
        sum_nat(s.take(k)) <= sum_nat(s),
    decreases s.len() - k,
{
    if k < s.len() {
        lemma_sum_prefix_le(s, k + 1);
        assert(s.take(k + 1).drop_last() =~= s.take(k));
    } else {
        assert(s.take(k) =~= s);
    }
}

/// `(idle, total)` jiffies of the whole CPU and of each logical CPU, from
/// `/proc/stat`; `None` where a line's idle time or total passes `u64::MAX`.
pub fn parse_stat(content: &str) -> (r: Option<((u64, u64), Vec<(u64, u64)>)>)
    ensures
        match r {
            Some((o, per)) => {
                &&& !stat_overflows(lines(content@))
                &&& stat_after(lines(content@)).0 == (o.0 as nat, o.1 as nat)
                &&& stat_after(lines(content@)).1 == per@.map_values(
                    |p: (u64, u64)| (p.0 as nat, p.1 as nat),
                )
            },
            None => stat_overflows(lines(content@)),
        },
{
    let t = chars_of(content);
    let ls = lines_of(&t);
    let ghost lv = ls.deep_view();
    let mut overall: (u64, u64) = (0, 0);
    let mut per: Vec<(u64, u64)> = Vec::new();
    let mut i: usize = 0;
    assert(per@.map_values(|p: (u64, u64)| (p.0 as nat, p.1 as nat)) =~= Seq::<(nat, nat)>::empty());
    while i < ls.len()
        invariant
            i <= ls@.len(),
            lv == ls.deep_view(),
            lv == lines(content@),
            stat_after(lv.take(i as int)).0 == (overall.0 as nat, overall.1 as nat),
            stat_after(lv.take(i as int)).1 == per@.map_values(
                |p: (u64, u64)| (p.0 as nat, p.1 as nat),
            ),
            forall|k: int| 0 <= k < i ==> !cpu_line_overflows(#[trigger] lv[k]),
        decreases ls@.len() - i,
    {
        let line = &ls[i];
        proof {
            assert(lv.take(i + 1).drop_last() =~= lv.take(i as int));
            assert(lv.take(i + 1).last() == line@);
            assert(lv[i as int] == line@);
        }
        if str_starts_with(line, "cpu") {
            let w = words_of(line);
            if w.len() > 0 {
                let vals = parsed_nums_of(&w, 1);
                proof {
                    assert(w.deep_view().skip(1) =~= w.deep_view().drop_first());
                }
                if vals.len() >= 4 {
                    let extra: u64 = if vals.len() > 4 {
                        vals[4]
                    } else {
                        0
                    };
                    let idle = vals[3].checked_add(extra);
                    let total = sum_checked(&vals);
                    match (idle, total) {
                        (Some(idle), Some(total)) => {
                            let ghost old_per = per@;
                            proof {
                                assert(w.deep_view()[0] == w@[0]@);
                            }
                            if str_eq(&w[0], "cpu") {
                                overall = (idle, total);
                            } else {
                                per.push((idle, total));
                                assert(per@.map_values(|p: (u64, u64)| (p.0 as nat, p.1 as nat))
                                    =~= old_per.map_values(
                                    |p: (u64, u64)| (p.0 as nat, p.1 as nat),
                                ).push((idle as nat, total as nat)));
                            }
                        },
                        _ => {
                            proof {
                                assert(cpu_line_overflows(lv[i as int]));
                                assert(stat_overflows(lv));
                            }
                            return None;
                        },
                    }
                }
            }
        }
        i += 1;
    }
    assert(lv.take(ls@.len() as int) =~= lv);
    assert(!stat_overflows(lv));
    Some((overall, per))
}

// ───────────────────────── uptime ─────────────────────────

/// `DD:HH:MM:SS` for a number of seconds (days are not capped at two digits).
pub open spec fn uptime_text(secs: nat) -> Seq<char> {
    dec_pad(secs / 86400, 2) + seq![':'] + dec_pad((secs % 86400) / 3600, 2) + seq![':']
        + dec_pad((secs % 3600) / 60, 2) + seq![':'] + dec_pad(secs % 60, 2)
}

pub fn fmt_uptime(secs: u64) -> (r: String)
    ensures
        r@ == uptime_text(secs as nat),
{
    let mut v = dec_pad_u64(secs / 86400, 2);
    v.push(':');
    push_all(&mut v, &dec_pad_u64((secs % 86400) / 3600, 2));
    v.push(':');
    push_all(&mut v, &dec_pad_u64((secs % 3600) / 60, 2));
    v.push(':');
    push_all(&mut v, &dec_pad_u64(secs % 60, 2));
    string_of(&v)
}

// ───────────────────────── process ids ─────────────────────────

/// A `/proc` entry name made of ASCII digits only (a process id).
pub open spec fn is_pid_name(s: Seq<char>) -> bool {
    s.len() > 0 && crate::text::all_digits(s)
}

pub fn pid_name(name: &str) -> (b: bool)
    ensures
        b == is_pid_name(name@),
{
    let c = chars_of(name);
    c.len() > 0 && crate::text::all_digits_of(&c)
}

/// The first whitespace-separated token of `s`, or the empty string.
pub open spec fn first_word(s: Seq<char>) -> Seq<char> {
    if words(s).len() > 0 {
        words(s)[0]
    } else {
        Seq::empty()
    }
}

pub fn first_token(s: &str) -> (r: String)
    ensures
        r@ == first_word(s@),
{
    let w = words_of(&chars_of(s));
    if w.len() > 0 {
        proof {
            assert(w.deep_view()[0] == w@[0]@);
        }
        string_of(&w[0])
    } else {
        String::new()
    }
}

// ───────────────────────── upower ─────────────────────────

/// `(energy rate, capacity, time estimate)` from `upower -i` output: the last
/// `energy-rate:` and `capacity:` lines, and the last line that mentions
/// `time to` (its text after the first `:`), each trimmed.
pub open spec fn upower_after(ls: Seq<Seq<char>>) -> (Seq<char>, Seq<char>, Seq<char>)
    decreases ls.len(),
{
    if ls.len() == 0 {
        (Seq::empty(), Seq::empty(), Seq::empty())
    } else {
        let prev = upower_after(ls.drop_last());
        let l = trim(ls.last());
        match strip_prefix(l, "energy-rate:"@) {
            Some(v) => (trim(v), prev.1, prev.2),
            None => match strip_prefix(l, "capacity:"@) {
                Some(v) => (prev.0, trim(v), prev.2),
                None => {
                    if contains_seq(l, "time to"@) {
                        match split_once(l, ':') {
                            Some((_, v)) => (prev.0, prev.1, trim(v)),
                            None => prev,
                        }
                    } else {
                        prev
                    }
                },
            },
        }
    }
}

pub fn parse_upower(info: &str) -> (r: (String, String, String))
    ensures
        (r.0@, r.1@, r.2@) == upower_after(lines(info@)),
{
    let t = chars_of(info);
    let ls = lines_of(&t);
    let ghost lv = ls.deep_view();
    let mut er: Vec<char> = Vec::new();
    let mut cap: Vec<char> = Vec::new();
    let mut ts: Vec<char> = Vec::new();
    let mut i: usize = 0;
    while i < ls.len()
        invariant
            i <= ls@.len(),
            lv == ls.deep_view(),
            (er@, cap@, ts@) == upower_after(lv.take(i as int)),
        decreases ls@.len() - i,
    {
        proof {
            assert(lv.take(i + 1).drop_last() =~= lv.take(i as int));
            assert(lv.take(i + 1).last() == ls@[i as int]@);
        }
        let l = trim_chars(&ls[i]);
        match strip_prefix_str(&l, "energy-rate:") {
            Some(v) => {
                er = trim_chars(&v);
            },
            None => match strip_prefix_str(&l, "capacity:") {
                Some(v) => {
                    cap = trim_chars(&v);
                },
                None => {
                    if str_contains(&l, "time to") {
                        match split_once_chars(&l, ':') {
                            Some((_, v)) => {
                                ts = trim_chars(&v);
                            },
                            None => {},
                        }
                    }
                },
            },
        }
        i += 1;
    }
    assert(lv.take(ls@.len() as int) =~= lv);
    (string_of(&er), string_of(&cap), string_of(&ts))
}

// ───────────────────────── CPU model and caches ─────────────────────────

/// The CPU model from the lines of `/proc/cpuinfo`, each paired with its
/// lower-cased form: the first line whose lower-cased form starts with
/// `model name` decides; its text after `:`, trimmed, or nothing when it has
/// no `:`.
pub open spec fn cpuinfo_model(rows: Seq<(Seq<char>, Seq<char>)>) -> Seq<char>
    decreases rows.len(),
{
    if rows.len() == 0 {
        Seq::empty()
    } else if starts_with(rows[0].1, "model name"@) {
        match split_once(rows[0].0, ':') {
            Some((_, v)) => trim(v),
            None => Seq::empty(),
        }
    } else {
        cpuinfo_model(rows.drop_first())
    }
}

/// `cpuinfo_model` of lines given with their lower-cased forms.
pub fn cpu_model_from_rows(rows: &Vec<(String, String)>) -> (r: String)
    ensures
        r@ == cpuinfo_model(rows.deep_view()),
{
    let ghost rv = rows.deep_view();
    let mut i: usize = 0;
    assert(rv.skip(0) =~= rv);
    while i < rows.len()
        invariant
            i <= rows@.len(),
            rv == rows.deep_view(),
            cpuinfo_model(rv.skip(i as int)) == cpuinfo_model(rv),
        decreases rows@.len() - i,
    {
        proof {
            assert(rv.skip(i as int)[0] == (rows@[i as int].0@, rows@[i as int].1@));
            assert(rv.skip(i as int).drop_first() =~= rv.skip(i + 1));
        }
        if str_starts_with(&chars_of(rows[i].1.as_str()), "model name") {
            match split_once_chars(&chars_of(rows[i].0.as_str()), ':') {
                Some((_, v)) => {
                    return string_of(&trim_chars(&v));
                },
                None => {
                    return String::new();
                },
            }
        }
        i += 1;
    }
    proof {
        assert(rv.skip(i as int) =~= Seq::<(Seq<char>, Seq<char>)>::empty());
    }
    String::new()
}

/// The CPU model named in `/proc/cpuinfo`.
pub fn parse_cpuinfo_model(cpuinfo: &str) -> (r: String)
    ensures
        r@ == cpuinfo_model(lowered_rows(lines(cpuinfo@))),
{
    let rows = lowered_rows_of(cpuinfo);
    cpu_model_from_rows(&rows)
}

/// What `lscpu` reports about the processor.
pub struct CpuTopology {
    pub model: String,
    pub sockets: String,
    pub virt: String,
    pub vm: String,
    pub l1: String,
    pub l2: String,
    pub l3: String,
}

/// Fields gathered from `lscpu` lines: model, sockets, virtualization,
/// virtual machine, L1d, L1i, L2 and L3.
pub ghost struct LscpuFields {
    pub model: Seq<char>,
    pub sockets: Seq<char>,
    pub virt: Seq<char>,
    pub vm: Seq<char>,
    pub l1d: Seq<char>,
    pub l1i: Seq<char>,
    pub l2: Seq<char>,
    pub l3: Seq<char>,
}

/// The fields after the `lscpu` lines `ls`, starting from the model found in
/// `/proc/cpuinfo`: every `key: value` line sets its field (the model only
/// while it is still empty; a `Hypervisor vendor` line makes the machine a
/// virtual one).
pub open spec fn lscpu_after(ls: Seq<Seq<char>>, model: Seq<char>) -> LscpuFields
    decreases ls.len(),
{
    if ls.len() == 0 {
        LscpuFields {
            model: model,
            sockets: "1"@,
            virt: "—"@,
            vm: "No"@,
            l1d: Seq::empty(),
            l1i: Seq::empty(),
            l2: Seq::empty(),
            l3: Seq::empty(),
        }
    } else {
        let p = lscpu_after(ls.drop_last(), model);
        match split_once(ls.last(), ':') {
            Some((k0, v0)) => {
                let k = trim(k0);
                let v = trim(v0);
                if k == "Model name"@ && p.model.len() == 0 {
                    LscpuFields { model: v, ..p }
                } else if k == "Socket(s)"@ {
                    LscpuFields { sockets: v, ..p }
                } else if k == "Virtualization"@ {
                    LscpuFields { virt: v, ..p }
                } else if k == "Hypervisor vendor"@ {
                    LscpuFields { vm: "Yes"@, ..p }
                } else if k == "L1d cache"@ {
                    LscpuFields { l1d: v, ..p }
                } else if k == "L1i cache"@ {
                    LscpuFields { l1i: v, ..p }
                } else if k == "L2 cache"@ {
                    LscpuFields { l2: v, ..p }
                } else if k == "L3 cache"@ {
                    LscpuFields { l3: v, ..p }
                } else {
                    p
                }
            },
            None => p,
        }
    }
}

/// `s`, or `—` when it is empty.
pub open spec fn or_dash(s: Seq<char>) -> Seq<char> {
    if s.len() == 0 {
        "—"@
    } else {
        s
    }
}

pub fn or_dash_of(s: &[char]) -> (r: Vec<char>)
    ensures
        r@ == or_dash(s@),
{
    if s.len() == 0 {
        chars_of("—")
    } else {
        crate::text::copy_of(s)
    }
}

/// The processor description from the `/proc/cpuinfo` model and `lscpu`
/// output: a missing model reads `CPU`, a missing cache `—`, and L1 is
/// `data / instruction`.
pub open spec fn topology(cpuinfo_model: Seq<char>, lscpu: Seq<char>) -> (
    Seq<char>,
    Seq<char>,
    Seq<char>,
    Seq<char>,
    Seq<char>,
    Seq<char>,
    Seq<char>,
) {
    let f = lscpu_after(lines(lscpu), cpuinfo_model);
    (
        if f.model.len() == 0 {
            "CPU"@
        } else {
            f.model
        },
        f.sockets,
        f.virt,
        f.vm,
        or_dash(f.l1d) + " / "@ + or_dash(f.l1i),
        or_dash(f.l2),
        or_dash(f.l3),
    )
}

pub fn cpu_topology(cpuinfo_model: &str, lscpu_out: &str) -> (r: CpuTopology)
    ensures
        (r.model@, r.sockets@, r.virt@, r.vm@, r.l1@, r.l2@, r.l3@) == topology(
            cpuinfo_model@,
            lscpu_out@,
        ),
{
    let t = chars_of(lscpu_out);
    let ls = lines_of(&t);
    let ghost lv = ls.deep_view();
    let mut model = chars_of(cpuinfo_model);
    let mut sockets = chars_of("1");
    let mut virt = chars_of("—");
    let mut vm = chars_of("No");
    let mut l1d: Vec<char> = Vec::new();
    let mut l1i: Vec<char> = Vec::new();
    let mut l2: Vec<char> = Vec::new();
    let mut l3: Vec<char> = Vec::new();
    let mut i: usize = 0;
    while i < ls.len()
        invariant
            i <= ls@.len(),
            lv == ls.deep_view(),
            lv == lines(lscpu_out@),
            lscpu_after(lv.take(i as int), cpuinfo_model@) == (LscpuFields {
                model: model@,
                sockets: sockets@,
                virt: virt@,
                vm: vm@,
                l1d: l1d@,
                l1i: l1i@,
                l2: l2@,
                l3: l3@,
            }),
        decreases ls@.len() - i,
    {
        proof {
            assert(lv.take(i + 1).drop_last() =~= lv.take(i as int));
            assert(lv.take(i + 1).last() == ls@[i as int]@);
        }
        match split_once_chars(&ls[i], ':') {
            Some((k0, v0)) => {
                let k = trim_chars(&k0);
                let v = trim_chars(&v0);
                if str_eq(&k, "Model name") && model.len() == 0 {
                    model = v;
                } else if str_eq(&k, "Socket(s)") {
                    sockets = v;
                } else if str_eq(&k, "Virtualization") {
                    virt = v;
                } else if str_eq(&k, "Hypervisor vendor") {
                    vm = chars_of("Yes");
                } else if str_eq(&k, "L1d cache") {
                    l1d = v;
                } else if str_eq(&k, "L1i cache") {
                    l1i = v;
                } else if str_eq(&k, "L2 cache") {
                    l2 = v;
                } else if str_eq(&k, "L3 cache") {
                    l3 = v;
                }
            },
            None => {},
        }
        i += 1;
    }
    assert(lv.take(ls@.len() as int) =~= lv);
    let model_out = if model.len() == 0 {
        chars_of("CPU")
    } else {
        model
    };
    let mut l1 = or_dash_of(&l1d);
    push_all(&mut l1, &chars_of(" / "));
    push_all(&mut l1, &or_dash_of(&l1i));
    CpuTopology {
        model: string_of(&model_out),
        sockets: string_of(&sockets),
        virt: string_of(&virt),
        vm: string_of(&vm),
        l1: string_of(&l1),
        l2: string_of(&or_dash_of(&l2)),
        l3: string_of(&or_dash_of(&l3)),
    }
}

// ───────────────────────── memory modules ─────────────────────────

/// DIMM facts from the privileged helper's `TYPE=`, `FORM=`, `SPEED=` and
/// `SLOTS=` lines (the last of each wins; values trimmed; `—` when absent).
pub struct DimmInfo {
    pub dimm_type: String,
    pub form: String,
    pub speed: String,
    pub slots: String,
}

pub open spec fn dimm_after(ls: Seq<Seq<char>>) -> (Seq<char>, Seq<char>, Seq<char>, Seq<char>)
    decreases ls.len(),
{
    if ls.len() == 0 {
        (Seq::empty(), Seq::empty(), Seq::empty(), Seq::empty())
    } else {
        let p = dimm_after(ls.drop_last());
        match split_once(ls.last(), '=') {
            Some((k, v)) => {
                if k == "TYPE"@ {
                    (trim(v), p.1, p.2, p.3)
                } else if k == "FORM"@ {
                    (p.0, trim(v), p.2, p.3)
                } else if k == "SPEED"@ {
                    (p.0, p.1, trim(v), p.3)
                } else if k == "SLOTS"@ {
                    (p.0, p.1, p.2, trim(v))
                } else {
                    p
                }
            },
            None => p,
        }
    }
}

pub fn parse_dimm(out: &str) -> (r: DimmInfo)
    ensures
        ({
            let d = dimm_after(lines(out@));
            &&& r.dimm_type@ == or_dash(d.0)
            &&& r.form@ == or_dash(d.1)
            &&& r.speed@ == or_dash(d.2)
            &&& r.slots@ == or_dash(d.3)
        }),
{
    let t = chars_of(out);
    let ls = lines_of(&t);
    let ghost lv = ls.deep_view();
    let mut a: Vec<char> = Vec::new();
    let mut b: Vec<char> = Vec::new();
    let mut c: Vec<char> = Vec::new();
    let mut d: Vec<char> = Vec::new();
    let mut i: usize = 0;
    while i < ls.len()
        invariant
            i <= ls@.len(),
            lv == ls.deep_view(),
            (a@, b@, c@, d@) == dimm_after(lv.take(i as int)),
        decreases ls@.len() - i,
    {
        proof {
            assert(lv.take(i + 1).drop_last() =~= lv.take(i as int));
            assert(lv.take(i + 1).last() == ls@[i as int]@);
        }
        match split_once_chars(&ls[i], '=') {
            Some((k, v)) => {
                if str_eq(&k, "TYPE") {
                    a = trim_chars(&v);
                } else if str_eq(&k, "FORM") {
                    b = trim_chars(&v);
                } else if str_eq(&k, "SPEED") {
                    c = trim_chars(&v);
                } else if str_eq(&k, "SLOTS") {
                    d = trim_chars(&v);
                }
            },
            None => {},
        }
        i += 1;
    }
    assert(lv.take(ls@.len() as int) =~= lv);
    DimmInfo {
        dimm_type: string_of(&or_dash_of(&a)),
        form: string_of(&or_dash_of(&b)),
        speed: string_of(&or_dash_of(&c)),
        slots: string_of(&or_dash_of(&d)),
    }
}

// ───────────────────────── totals and averages ─────────────────────────

/// All jiffies so far: the sum of the numbers on the first line of
/// `/proc/stat` after its label (0 when the file is empty).
pub open spec fn total_jiffies_spec(content: Seq<char>) -> nat {
    let ls = lines(content);
    if ls.len() == 0 {
        0
    } else {
        let w = words(ls[0]);
        if w.len() == 0 {
            0
        } else {
            sum_nat(parsed_nums(w.drop_first()))
        }
    }
}

/// `total_jiffies_spec`; `None` when the sum passes `u64::MAX`.
pub fn total_jiffies(content: &str) -> (r: Option<u64>)
    ensures
        match r {
            Some(t) => t == total_jiffies_spec(content@),
            None => total_jiffies_spec(content@) > u64::MAX,
        },
{
    let ls = lines_of(&chars_of(content));
    if ls.len() == 0 {
        return Some(0);
    }
    let w = words_of(&ls[0]);
    proof {
        assert(ls.deep_view()[0] == ls@[0]@);
    }
    if w.len() == 0 {
        return Some(0);
    }
    let nums = parsed_nums_of(&w, 1);
    proof {
        assert(w.deep_view().skip(1) =~= w.deep_view().drop_first());
    }
    sum_checked(&nums)
}

/// The mean of the cores' current frequencies (kHz) that could be read, and
/// the same in whole MHz; `None` when none could be read.
pub fn avg_freq(khz: &Vec<u64>) -> (r: Option<(u64, u64)>)
    requires
        sum_nat(khz@) <= u64::MAX,
    ensures
        khz@.len() == 0 ==> r is None,
        khz@.len() > 0 ==> r == Some((
            (sum_nat(khz@) / khz@.len() as nat) as u64,
            (sum_nat(khz@) / khz@.len() as nat / 1000) as u64,
        )),
{
    if khz.len() == 0 {
        return None;
    }
    let mut sum: u64 = 0;
    let mut i: usize = 0;
    while i < khz.len()
        invariant
            i <= khz@.len(),
            sum_nat(khz@) <= u64::MAX,
            sum == sum_nat(khz@.take(i as int)),
        decreases khz@.len() - i,
    {
        proof {
            assert(khz@.take(i + 1).drop_last() =~= khz@.take(i as int));
            lemma_sum_prefix_le(khz@, i + 1);
        }
        sum = sum + khz[i];
        i += 1;
    }
    assert(khz@.take(khz@.len() as int) =~= khz@);
    let n = khz.len() as u64;
    let avg = sum / n;
    Some((avg, avg / 1000))
}

} // verus!
