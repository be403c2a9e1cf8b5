//! systemd units: `systemctl list-units` and `systemctl show` output, the
//! state badges of the services page, and the text of the detail window.
use vstd::prelude::*;
use crate::order::{key_of, lemma_sort_map, lex_less, sort_by_key, sort_ranked, Ranked, SortKey};
use crate::text::{
    chars_of, concat, dec, dec_u64, lemma_chars_deep_view, lemma_deep_view_push, lines, lines_of,
    parse_u64, parse_u64_spec, push_all, str_eq, strip_prefix, strip_prefix_str, string_of, trim,
    trim_chars, trim_end, trim_end_chars, trims_to_empty, words, words_of,
};

verus! {

broadcast use lemma_chars_deep_view;

/// One systemd unit of the system or of the user manager.
pub struct SvcUnit {
    pub unit: String,
    pub is_user: bool,
    /// `active`, `inactive`, `failed`, ...
    pub active: String,
    /// `running`, `dead`, `exited`, `failed`, `listening`, `mounted`, ...
    pub sub: String,
    /// Bytes of memory in use.
    pub mem: u64,
}

pub ghost struct SvcSpec {
    pub unit: Seq<char>,
    pub is_user: bool,
    pub active: Seq<char>,
    pub sub: Seq<char>,
    pub mem: u64,
}

impl View for SvcUnit {
    type V = SvcSpec;

    open spec fn view(&self) -> SvcSpec {
        SvcSpec {
            unit: self.unit@,
            is_user: self.is_user,
            active: self.active@,
            sub: self.sub@,
            mem: self.mem,
        }
    }
}

pub open spec fn svc_views(v: Seq<SvcUnit>) -> Seq<SvcSpec> {
    v.map_values(|u: SvcUnit| u@)
}

/// The units of `systemctl list-units --all --plain --no-legend`: every line
/// with at least four fields gives a unit (first field), its active state
/// (third) and its sub-state (fourth); memory is not known yet.
pub open spec fn units_after(ls: Seq<Seq<char>>, is_user: bool) -> Seq<SvcSpec>
    decreases ls.len(),
{
    if ls.len() == 0 {
        Seq::empty()
    } else {
        let rest = units_after(ls.drop_last(), is_user);
        let f = words(ls.last());
        if f.len() < 4 {
            rest
        } else {
            rest.push(SvcSpec { unit: f[0], is_user: is_user, active: f[2], sub: f[3], mem: 0 })
        }
    }
}

pub fn parse_unit_list(text: &str, is_user: bool) -> (r: Vec<SvcUnit>)
    ensures
        svc_views(r@) == units_after(lines(text@), is_user),
{
    let t = chars_of(text);
    let ls = lines_of(&t);
    let ghost lv = ls.deep_view();
    let mut r: Vec<SvcUnit> = Vec::new();
    let mut i: usize = 0;
    assert(svc_views(r@) =~= Seq::<SvcSpec>::empty());
    while i < ls.len()
        invariant
            i <= ls@.len(),
            lv == ls.deep_view(),
            svc_views(r@) == units_after(lv.take(i as int), is_user),
        decreases ls@.len() - i,
    {
        proof {
            assert(lv.take(i + 1).drop_last() =~= lv.take(i as int));
            assert(lv.take(i + 1).last() == ls@[i as int]@);
        }
        let f = words_of(&ls[i]);
        if f.len() >= 4 {
            let u = SvcUnit {
                unit: string_of(&f[0]),
                is_user,
                active: string_of(&f[2]),
                sub: string_of(&f[3]),
                mem: 0,
            };
            let ghost before = svc_views(r@);
            proof {
                assert(f.deep_view()[0] == f@[0]@);
                assert(f.deep_view()[2] == f@[2]@);
                assert(f.deep_view()[3] == f@[3]@);
            }
            r.push(u);
            assert(svc_views(r@) =~= before.push(u@));
        }
        i += 1;
    }
    assert(lv.take(ls@.len() as int) =~= lv);
    r
}

/// Memory figure of a `MemoryCurrent=` line: the number, where `u64::MAX`
/// (systemd's "not set") and text that does not parse read as 0.
pub open spec fn mem_current(v: Seq<char>) -> u64 {
    match parse_u64_spec(v) {
        Some(n) => {
            if n == u64::MAX {
                0
            } else {
                n
            }
        },
        None => 0,
    }
}

/// Reading `systemctl show -p Id -p MemoryCurrent`: the current block's id
/// and memory, and the `(id, memory)` pairs of the blocks closed so far
/// (an empty line closes a block that has an id).
pub ghost struct ShowState {
    pub id: Seq<char>,
    pub mem: u64,
    pub done: Seq<(Seq<char>, u64)>,
}

pub open spec fn show_after(ls: Seq<Seq<char>>) -> ShowState
    decreases ls.len(),
{
    if ls.len() == 0 {
        ShowState { id: Seq::empty(), mem: 0, done: Seq::empty() }
    } else {
        let p = show_after(ls.drop_last());
        let line = ls.last();
        if line.len() == 0 {
            if p.id.len() > 0 {
                ShowState { id: Seq::empty(), mem: 0, done: p.done.push((p.id, p.mem)) }
            } else {
                ShowState { mem: 0, ..p }
            }
        } else {
            match strip_prefix(line, "Id="@) {
                Some(v) => ShowState { id: v, ..p },
                None => match strip_prefix(line, "MemoryCurrent="@) {
                    Some(v) => ShowState { mem: mem_current(v), ..p },
                    None => p,
                },
            }
        }
    }
}

/// All `(id, memory)` pairs of the output, the last open block included.
pub open spec fn show_pairs(text: Seq<char>) -> Seq<(Seq<char>, u64)> {
    let st = show_after(lines(text));
    if st.id.len() > 0 {
        st.done.push((st.id, st.mem))
    } else {
        st.done
    }
}

/// The memory a map built from `ps` holds for `id` (a later block wins).
pub open spec fn mem_for(ps: Seq<(Seq<char>, u64)>, id: Seq<char>) -> Option<u64>
    decreases ps.len(),
{
    if ps.len() == 0 {
        None
    } else if ps.last().0 == id {
        Some(ps.last().1)
    } else {
        mem_for(ps.drop_last(), id)
    }
}

fn show_pairs_of(text: &str) -> (r: Vec<(Vec<char>, u64)>)
    ensures
        r.deep_view() == show_pairs(text@),
{
    let t = chars_of(text);
    let ls = lines_of(&t);
    let ghost lv = ls.deep_view();
    let mut id: Vec<char> = Vec::new();
    let mut mem: u64 = 0;
    let mut done: Vec<(Vec<char>, u64)> = Vec::new();
    let mut i: usize = 0;
    assert(lv.take(0) =~= Seq::<Seq<char>>::empty());
    assert(done.deep_view() =~= Seq::<(Seq<char>, u64)>::empty());
    assert(id@ =~= Seq::<char>::empty());
    while i < ls.len()
        invariant
            i <= ls@.len(),
            lv == ls.deep_view(),
            lv == lines(text@),
            show_after(lv.take(i as int)) == (ShowState { id: id@, mem: mem, done: done.deep_view() }),
        decreases ls@.len() - i,
    {
        let line = &ls[i];
        proof {
            assert(lv.take(i + 1).drop_last() =~= lv.take(i as int));
            assert(lv.take(i + 1).last() == line@);
        }
        if line.len() == 0 {
            if id.len() > 0 {
                let ghost old_d = done.deep_view();
                let ghost old_v = done@;
                let entry = (id, mem);
                let ghost ev = entry;
                done.push(entry);
                proof {
                    lemma_deep_view_push(done, old_v, ev);
                }
                id = Vec::new();
            }
            mem = 0;
        } else {
            match strip_prefix_str(line, "Id=") {
                Some(v) => {
                    id = v;
                },
                None => match strip_prefix_str(line, "MemoryCurrent=") {
                    Some(v) => {
                        mem = match parse_u64(&v) {
                            Some(n) => {
                                if n == u64::MAX {
                                    0
                                } else {
                                    n
                                }
                            },
                            None => 0,
                        };
                    },
                    None => {},
                },
            }
        }
        i += 1;
    }
    assert(lv.take(ls@.len() as int) =~= lv);
    if id.len() > 0 {
        let ghost old_v = done@;
        let entry = (id, mem);
        let ghost ev = entry;
        done.push(entry);
        proof {
            lemma_deep_view_push(done, old_v, ev);
        }
    }
    done
}

fn mem_for_of(ps: &Vec<(Vec<char>, u64)>, id: &[char]) -> (r: Option<u64>)
    ensures
        r == mem_for(ps.deep_view(), id@),
{
    let mut i = ps.len();
    assert(ps.deep_view().take(i as int) =~= ps.deep_view());
    while i > 0
        invariant
            i <= ps@.len(),
            mem_for(ps.deep_view().take(i as int), id@) == mem_for(ps.deep_view(), id@),
        decreases i,
    {
        let ghost t = ps.deep_view().take(i as int);
        proof {
            assert(t.last() == (ps@[i - 1].0@, ps@[i - 1].1));
            assert(t.drop_last() =~= ps.deep_view().take(i - 1));
        }
        if crate::text::chars_eq(&ps[i - 1].0, id) {
            return Some(ps[i - 1].1);
        }
        i -= 1;
    }
    None
}

/// Memory of a unit after reading the `systemctl show` output: the figure
/// found for its id, else what it had.
pub open spec fn unit_mem(u: SvcSpec, ps: Seq<(Seq<char>, u64)>) -> u64 {
    match mem_for(ps, u.unit) {
        Some(m) => m,
        None => u.mem,
    }
}

/// Fills in each unit's memory from `systemctl show -p Id -p MemoryCurrent`
/// output.
pub fn apply_unit_memory(units: &mut Vec<SvcUnit>, show_out: &str)
    ensures
        final(units)@.len() == old(units)@.len(),
        forall|k: int|
            0 <= k < old(units)@.len() ==> #[trigger] final(units)@[k]@ == (SvcSpec {
                mem: unit_mem(old(units)@[k]@, show_pairs(show_out@)),
                ..old(units)@[k]@
            }),
{
    let ps = show_pairs_of(show_out);
    let ghost orig = units@;
    let mut k: usize = 0;
    while k < units.len()
        invariant
            k <= units@.len(),
            units@.len() == orig.len(),
            ps.deep_view() == show_pairs(show_out@),
            forall|j: int|
                0 <= j < k ==> #[trigger] units@[j]@ == (SvcSpec {
                    mem: unit_mem(orig[j]@, ps.deep_view()),
                    ..orig[j]@
                }),
            forall|j: int| k <= j < units@.len() ==> #[trigger] units@[j] == orig[j],
        decreases units@.len() - k,
    {
        let name = chars_of(units[k].unit.as_str());
        match mem_for_of(&ps, &name) {
            Some(m) => {
                units[k].mem = m;
            },
            None => {},
        }
        k += 1;
    }
}

// ───────────────────────── command output texts ─────────────────────────

/// The state `systemctl is-active` printed, or `inactive` when it printed
/// nothing.
pub open spec fn active_text(out: Seq<char>) -> Seq<char> {
    if trim(out).len() == 0 {
        "inactive"@
    } else {
        trim(out)
    }
}

pub fn active_state(stdout: &str) -> (r: String)
    ensures
        r@ == active_text(stdout@),
{
    let t = trim_chars(&chars_of(stdout));
    if t.len() == 0 {
        "inactive".to_owned()
    } else {
        string_of(&t)
    }
}

/// What `systemctl status|cat` printed, standard error appended when it is
/// not blank, without trailing whitespace; `(empty)` when nothing is left.
pub open spec fn capture_text(out: Seq<char>, err: Seq<char>) -> Seq<char> {
    let s = if trim(err).len() == 0 {
        out
    } else {
        out + err
    };
    if trim_end(s).len() == 0 {
        "(empty)"@
    } else {
        trim_end(s)
    }
}

pub fn command_capture(stdout: &str, stderr: &str) -> (r: String)
    ensures
        r@ == capture_text(stdout@, stderr@),
{
    let o = chars_of(stdout);
    let e = chars_of(stderr);
    let s = if trims_to_empty(&e) {
        o
    } else {
        concat(&o, &e)
    };
    let t = trim_end_chars(&s);
    if t.len() == 0 {
        "(empty)".to_owned()
    } else {
        string_of(&t)
    }
}

/// What `journalctl -u <unit>` printed without trailing whitespace, or
/// `(no log entries yet)`.
pub open spec fn journal_text(out: Seq<char>) -> Seq<char> {
    if trim_end(out).len() == 0 {
        "(no log entries yet)"@
    } else {
        trim_end(out)
    }
}

pub fn journal_capture(stdout: &str) -> (r: String)
    ensures
        r@ == journal_text(stdout@),
{
    let t = trim_end_chars(&chars_of(stdout));
    if t.len() == 0 {
        "(no log entries yet)".to_owned()
    } else {
        string_of(&t)
    }
}

/// Key of a watched service: `user:<unit>` or `sys:<unit>`.
pub open spec fn service_key_text(is_user: bool, unit: Seq<char>) -> Seq<char> {
    (if is_user {
        "user"@
    } else {
        "sys"@
    }) + seq![':'] + unit
}

pub fn service_key(is_user: bool, unit: &str) -> (r: String)
    ensures
        r@ == service_key_text(is_user, unit@),
{
    let mut v = if is_user {
        chars_of("user")
    } else {
        chars_of("sys")
    };
    v.push(':');
    push_all(&mut v, &chars_of(unit));
    string_of(&v)
}

// ───────────────────────── states on the services pages ─────────────────────────

/// How a watched service shows its state.
pub struct ServiceBadge {
    pub text: String,
    pub badge_class: String,
    pub dot_class: String,
    pub toggle_label: String,
    /// Style of the Start/Stop button, if any.
    pub toggle_class: Option<String>,
}

pub open spec fn badge_spec(state: Seq<char>) -> (Seq<char>, Seq<char>, Seq<char>, Seq<char>, Option<Seq<char>>) {
    if state == "active"@ {
        ("Active"@, "badge-run"@, "dot-run"@, "Stop"@, Some("destructive-action"@))
    } else if state == "failed"@ {
        ("Failed"@, "badge-fail"@, "dot-fail"@, "Start"@, Some("suggested-action"@))
    } else if state == "unknown"@ {
        ("Unknown"@, "badge-stop"@, "dot-stop"@, "Start"@, None)
    } else {
        ("Off"@, "badge-stop"@, "dot-stop"@, "Start"@, Some("suggested-action"@))
    }
}

pub fn service_badge(state: &str) -> (b: ServiceBadge)
    ensures
        (b.text@, b.badge_class@, b.dot_class@, b.toggle_label@, b.toggle_class.deep_view())
            == badge_spec(state@),
{
    let s = chars_of(state);
    if str_eq(&s, "active") {
        ServiceBadge {
            text: "Active".to_owned(),
            badge_class: "badge-run".to_owned(),
            dot_class: "dot-run".to_owned(),
            toggle_label: "Stop".to_owned(),
            toggle_class: Some("destructive-action".to_owned()),
        }
    } else if str_eq(&s, "failed") {
        ServiceBadge {
            text: "Failed".to_owned(),
            badge_class: "badge-fail".to_owned(),
            dot_class: "dot-fail".to_owned(),
            toggle_label: "Start".to_owned(),
            toggle_class: Some("suggested-action".to_owned()),
        }
    } else if str_eq(&s, "unknown") {
        ServiceBadge {
            text: "Unknown".to_owned(),
            badge_class: "badge-stop".to_owned(),
            dot_class: "dot-stop".to_owned(),
            toggle_label: "Start".to_owned(),
            toggle_class: None,
        }
    } else {
        ServiceBadge {
            text: "Off".to_owned(),
            badge_class: "badge-stop".to_owned(),
            dot_class: "dot-stop".to_owned(),
            toggle_label: "Start".to_owned(),
            toggle_class: Some("suggested-action".to_owned()),
        }
    }
}

/// What the Start/Stop button of a watched service does: `stop` when it is
/// known to be active, else `start`.
pub open spec fn toggle_action_text(state: Option<Seq<char>>) -> Seq<char> {
    if state == Some("active"@) {
        "stop"@
    } else {
        "start"@
    }
}

pub fn toggle_action(state: Option<&str>) -> (r: &'static str)
    ensures
        r@ == toggle_action_text(
            match state {
                Some(s) => Some(s@),
                None => None,
            },
        ),
{
    match state {
        Some(s) => {
            if str_eq(&chars_of(s), "active") {
                "stop"
            } else {
                "start"
            }
        },
        None => "start",
    }
}

pub open spec fn unit_running(u: SvcSpec) -> bool {
    u.sub == "running"@
}

pub open spec fn unit_failed(u: SvcSpec) -> bool {
    u.active == "failed"@ || u.sub == "failed"@
}

/// Whether a unit shows under the filter of the full services page
/// (1: running, 2: failed, anything else: all).
pub open spec fn filter_passes(filter: u8, u: SvcSpec) -> bool {
    if filter == 1 {
        unit_running(u)
    } else if filter == 2 {
        unit_failed(u)
    } else {
        true
    }
}

pub fn unit_passes(filter: u8, u: &SvcUnit) -> (b: bool)
    ensures
        b == filter_passes(filter, u@),
{
    let sub = chars_of(u.sub.as_str());
    let act = chars_of(u.active.as_str());
    if filter == 1 {
        str_eq(&sub, "running")
    } else if filter == 2 {
        str_eq(&act, "failed") || str_eq(&sub, "failed")
    } else {
        true
    }
}

pub open spec fn count_where(s: Seq<SvcSpec>, p: spec_fn(SvcSpec) -> bool) -> nat
    decreases s.len(),
{
    if s.len() == 0 {
        0
    } else {
        count_where(s.drop_last(), p) + if p(s.last()) {
            1nat
        } else {
            0
        }
    }
}

/// `(units, running, failed)` of the full services page header.
pub fn unit_counts(units: &Vec<SvcUnit>) -> (r: (usize, usize, usize))
    ensures
        r.0 == units@.len(),
        r.1 == count_where(svc_views(units@), |u: SvcSpec| unit_running(u)),
        r.2 == count_where(svc_views(units@), |u: SvcSpec| unit_failed(u)),
{
    let mut run: usize = 0;
    let mut fail: usize = 0;
    let mut i: usize = 0;
    while i < units.len()
        invariant
            i <= units@.len(),
            run <= i,
            fail <= i,
            run == count_where(svc_views(units@).take(i as int), |u: SvcSpec| unit_running(u)),
            fail == count_where(svc_views(units@).take(i as int), |u: SvcSpec| unit_failed(u)),
        decreases units@.len() - i,
    {
        proof {
            let v = svc_views(units@);
            assert(v.take(i + 1).drop_last() =~= v.take(i as int));
            assert(v.take(i + 1).last() == units@[i as int]@);
        }
        if unit_passes(1, &units[i]) {
            run += 1;
        }
        if unit_passes(2, &units[i]) {
            fail += 1;
        }
        i += 1;
    }
    assert(svc_views(units@).take(units@.len() as int) =~= svc_views(units@));
    (units.len(), run, fail)
}

/// Colour class of a unit's dot: running first, then failed, else idle.
pub open spec fn dot_class_text(u: SvcSpec) -> Seq<char> {
    if unit_running(u) {
        "svc-run"@
    } else if unit_failed(u) {
        "svc-fail"@
    } else {
        "svc-idle"@
    }
}

pub fn unit_dot_class(u: &SvcUnit) -> (r: &'static str)
    ensures
        r@ == dot_class_text(u@),
{
    if unit_passes(1, u) {
        "svc-run"
    } else if unit_passes(2, u) {
        "svc-fail"
    } else {
        "svc-idle"
    }
}

/// A line of `systemctl list-units` naming a unit whose sub-state (its
/// fourth field) is `running`.
pub open spec fn line_runs(l: Seq<char>) -> bool {
    words(l).len() >= 4 && words(l)[3] == "running"@
}

proof fn lemma_running_count(ls: Seq<Seq<char>>, is_user: bool)
    ensures
        count_where(units_after(ls, is_user), |v: SvcSpec| unit_running(v)) == ls.filter(
            |l: Seq<char>| line_runs(l),
        ).len(),
    decreases ls.len(),
{
    if ls.len() > 0 {
        lemma_running_count(ls.drop_last(), is_user);
        let rest = units_after(ls.drop_last(), is_user);
        let f = words(ls.last());
        let p = |l: Seq<char>| line_runs(l);
        let q = |v: SvcSpec| unit_running(v);
        assert(ls.filter(p).len() == ls.drop_last().filter(p).len() + if p(ls.last()) {
            1nat
        } else {
            0
        }) by {
            ls.drop_last().lemma_filter_len_push(p, ls.last());
            assert(ls.drop_last().push(ls.last()) =~= ls);
        }
        if f.len() >= 4 {
            let u = SvcSpec { unit: f[0], is_user: is_user, active: f[2], sub: f[3], mem: 0 };
            assert(units_after(ls, is_user) == rest.push(u));
            assert(rest.push(u).drop_last() =~= rest);
            assert(count_where(rest.push(u), q) == count_where(rest, q) + if q(u) {
                1nat
            } else {
                0
            });
        } else {
            assert(units_after(ls, is_user) == rest);
            assert(!p(ls.last()));
        }
    }
}

/// The running filter, the running count and the running dot go by the
/// sub-state alone: a unit passes the running filter, and gets the running
/// dot, exactly when its sub-state is `running`, whatever its active state
/// (an active socket that is `listening` or a oneshot that has `exited` is
/// not running); the running count of a parsed unit list is the number of
/// its lines whose fourth field is `running`.
pub proof fn lemma_running_is_sub_state(u: SvcSpec, ls: Seq<Seq<char>>, is_user: bool)
    ensures
        filter_passes(1, u) <==> u.sub == "running"@,
        (dot_class_text(u) == "svc-run"@) <==> u.sub == "running"@,
        count_where(units_after(ls, is_user), |v: SvcSpec| unit_running(v)) == ls.filter(
            |l: Seq<char>| line_runs(l),
        ).len(),
{
    reveal_strlit("svc-run");
    reveal_strlit("svc-fail");
    reveal_strlit("svc-idle");
    assert("svc-fail"@[4] != "svc-run"@[4]);
    assert("svc-idle"@[4] != "svc-run"@[4]);
    lemma_running_count(ls, is_user);
}

/// Signature of what the full services page lists under filter `filter`:
/// it is rebuilt only when this changes.
pub open spec fn units_sig(filter: u8, v: Seq<SvcSpec>) -> Seq<char>
    decreases v.len(),
{
    if v.len() == 0 {
        "f"@ + dec(filter as nat) + ";"@
    } else if filter_passes(filter, v.last()) {
        units_sig(filter, v.drop_last()) + v.last().unit + ":"@ + v.last().sub + ";"@
    } else {
        units_sig(filter, v.drop_last())
    }
}

pub fn units_signature(filter: u8, units: &Vec<SvcUnit>) -> (s: String)
    ensures
        s@ == units_sig(filter, svc_views(units@)),
{
    let ghost v = svc_views(units@);
    let mut out = chars_of("f");
    push_all(&mut out, &dec_u64(filter as u64));
    out.push(';');
    proof {
        reveal_strlit(";");
        assert(out@ =~= units_sig(filter, v.take(0)));
    }
    let mut i: usize = 0;
    while i < units.len()
        invariant
            i <= units@.len(),
            v == svc_views(units@),
            out@ == units_sig(filter, v.take(i as int)),
        decreases units@.len() - i,
    {
        proof {
            assert(v.take(i + 1).drop_last() =~= v.take(i as int));
            assert(v.take(i + 1).last() == units@[i as int]@);
        }
        if unit_passes(filter, &units[i]) {
            push_all(&mut out, &chars_of(units[i].unit.as_str()));
            out.push(':');
            push_all(&mut out, &chars_of(units[i].sub.as_str()));
            out.push(';');
            proof {
                reveal_strlit(":");
                reveal_strlit(";");
                assert(out@ =~= units_sig(filter, v.take(i + 1)));
            }
        }
        i += 1;
    }
    assert(v.take(units@.len() as int) =~= v);
    string_of(&out)
}

/// A unit of a page section, with its position in the full list.
pub struct GroupItem {
    pub unit: String,
    pub index: usize,
}

impl Ranked for GroupItem {
    open spec fn sort_key(&self) -> SortKey {
        (0, self.unit@)
    }

    fn goes_after(&self, other: &Self) -> (b: bool) {
        lex_less(&chars_of(other.unit.as_str()), &chars_of(self.unit.as_str()))
    }
}

/// `(unit, position)` of the units of one manager that pass the filter.
pub open spec fn group_items(v: Seq<SvcSpec>, is_user: bool, filter: u8) -> Seq<(Seq<char>, int)>
    decreases v.len(),
{
    if v.len() == 0 {
        Seq::empty()
    } else if v.last().is_user == is_user && filter_passes(filter, v.last()) {
        group_items(v.drop_last(), is_user, filter).push((v.last().unit, v.len() - 1))
    } else {
        group_items(v.drop_last(), is_user, filter)
    }
}

pub open spec fn item_key() -> spec_fn((Seq<char>, int)) -> SortKey {
    |p: (Seq<char>, int)| (0nat, p.0)
}

/// The positions of the units of one section (user or system) of the full
/// services page that pass the filter, in unit-name order.
pub fn unit_group(units: &Vec<SvcUnit>, is_user: bool, filter: u8) -> (r: Vec<usize>)
    ensures
        r@.map_values(|i: usize| i as int) == sort_by_key(
            group_items(svc_views(units@), is_user, filter),
            item_key(),
        ).map_values(|p: (Seq<char>, int)| p.1),
{
    let ghost v = svc_views(units@);
    let mut items: Vec<GroupItem> = Vec::new();
    let mut i: usize = 0;
    let ghost f = |g: GroupItem| (g.unit@, g.index as int);
    while i < units.len()
        invariant
            i <= units@.len(),
            v == svc_views(units@),
            f == (|g: GroupItem| (g.unit@, g.index as int)),
            items@.map_values(f) == group_items(v.take(i as int), is_user, filter),
        decreases units@.len() - i,
    {
        proof {
            assert(v.take(i + 1).drop_last() =~= v.take(i as int));
            assert(v.take(i + 1).last() == units@[i as int]@);
        }
        if units[i].is_user == is_user && unit_passes(filter, &units[i]) {
            let ghost before = items@;
            items.push(GroupItem { unit: units[i].unit.clone(), index: i });
            proof {
                assert(items@.map_values(f) =~= before.map_values(f).push((units@[i as int].unit@, i as int)));
            }
        }
        i += 1;
    }
    assert(v.take(units@.len() as int) =~= v);
    let ghost unsorted = items@;
    sort_ranked(&mut items);
    proof {
        lemma_sort_map::<GroupItem, (Seq<char>, int)>(unsorted, f, key_of::<GroupItem>(), item_key());
    }
    let mut r: Vec<usize> = Vec::new();
    let mut k: usize = 0;
    while k < items.len()
        invariant
            k <= items@.len(),
            f == (|g: GroupItem| (g.unit@, g.index as int)),
            r@.map_values(|i: usize| i as int) =~= items@.take(k as int).map_values(f).map_values(
                |p: (Seq<char>, int)| p.1,
            ),
        decreases items@.len() - k,
    {
        let ghost before = r@;
        r.push(items[k].index);
        proof {
            assert(items@.take(k + 1) =~= items@.take(k as int).push(items@[k as int]));
            assert(r@.map_values(|i: usize| i as int) =~= before.map_values(|i: usize| i as int).push(
                items@[k as int].index as int,
            ));
            assert(items@.take(k + 1).map_values(f).map_values(|p: (Seq<char>, int)| p.1)
                =~= items@.take(k as int).map_values(f).map_values(|p: (Seq<char>, int)| p.1).push(
                items@[k as int].index as int,
            ));
        }
        k += 1;
    }
    assert(items@.take(items@.len() as int) =~= items@);
    r
}

/// The list row name of a unit: `U:` or `S:` for its manager, then the unit.
pub fn unit_row_name(u: &SvcUnit) -> (r: String)
    ensures
        r@ == (if u.is_user {
            "U:"@
        } else {
            "S:"@
        }) + u.unit@,
{
    let mut out = if u.is_user {
        chars_of("U:")
    } else {
        chars_of("S:")
    };
    push_all(&mut out, &chars_of(u.unit.as_str()));
    string_of(&out)
}

} // verus!
