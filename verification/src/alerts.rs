//! Temperature alerts: which warnings go out, and the per-source cooldown
//! that keeps one overheating part from flooding the desktop with
//! notifications.
use vstd::prelude::*;
use crate::procs::{strip_all_suffix, strip_all_suffix_of};
use crate::text::{chars_of, concat, string_of, trim, trim_chars};

verus! {

/// A source that warned is quiet for five minutes (in milliseconds).
pub const ALERT_COOLDOWN_MS: u64 = 300000;

/// Whether a warning of source `k` goes out at `now`: the source never warned,
/// or its last warning is at least the cooldown old. A last warning that lies
/// in the future counts as just now.
pub open spec fn alert_due(m: Map<Seq<char>, u64>, k: Seq<char>, now: u64) -> bool {
    !m.dom().contains(k) || now - m[k] >= ALERT_COOLDOWN_MS
}

/// The warnings `keys` offered at `now`, in order, against the last-warning
/// times `m`: the times after them, and for each whether it went out.
pub open spec fn alert_run(m: Map<Seq<char>, u64>, keys: Seq<Seq<char>>, now: u64) -> (
    Map<Seq<char>, u64>,
    Seq<bool>,
)
    decreases keys.len(),
{
    if keys.len() == 0 {
        (m, Seq::empty())
    } else {
        let p = alert_run(m, keys.drop_last(), now);
        let k = keys.last();
        if alert_due(p.0, k, now) {
            (p.0.insert(k, now), p.1.push(true))
        } else {
            (p.0, p.1.push(false))
        }
    }
}

/// The map that a list of `(source, time)` records stands for.
pub open spec fn record_map(s: Seq<(Seq<char>, u64)>) -> Map<Seq<char>, u64>
    decreases s.len(),
{
    if s.len() == 0 {
        Map::empty()
    } else {
        record_map(s.drop_last()).insert(s.last().0, s.last().1)
    }
}

pub open spec fn sources_distinct(s: Seq<(Seq<char>, u64)>) -> bool {
    forall|i: int, j: int| 0 <= i < j < s.len() ==> s[i].0 != s[j].0
}

proof fn lemma_record_map_absent(s: Seq<(Seq<char>, u64)>, k: Seq<char>)
    requires
        forall|i: int| 0 <= i < s.len() ==> s[i].0 != k,
    ensures
        !record_map(s).dom().contains(k),
    decreases s.len(),
{
    if s.len() > 0 {
        lemma_record_map_absent(s.drop_last(), k);
    }
}

proof fn lemma_record_map_at(s: Seq<(Seq<char>, u64)>, i: int)
    requires
        sources_distinct(s),
        0 <= i < s.len(),
    ensures
        record_map(s).dom().contains(s[i].0),
        record_map(s)[s[i].0] == s[i].1,
    decreases s.len(),
{
    if i < s.len() - 1 {
        lemma_record_map_at(s.drop_last(), i);
    }
}

proof fn lemma_record_map_update(s: Seq<(Seq<char>, u64)>, i: int, v: u64)
    requires
        sources_distinct(s),
        0 <= i < s.len(),
    ensures
        record_map(s.update(i, (s[i].0, v))) == record_map(s).insert(s[i].0, v),
    decreases s.len(),
{
    let t = s.update(i, (s[i].0, v));
    if i == s.len() - 1 {
        assert(t.drop_last() =~= s.drop_last());
        assert(record_map(t) =~= record_map(s).insert(s[i].0, v));
    } else {
        lemma_record_map_update(s.drop_last(), i, v);
        assert(t.drop_last() =~= s.drop_last().update(i, (s[i].0, v)));
        assert(s.last().0 != s[i].0);
        assert(record_map(t) =~= record_map(s).insert(s[i].0, v));
    }
}

/// When each alert source last warned.
pub struct AlertCooldown {
    records: Vec<(String, u64)>,
}

impl View for AlertCooldown {
    type V = Map<Seq<char>, u64>;

    closed spec fn view(&self) -> Map<Seq<char>, u64> {
        record_map(self.records.deep_view())
    }
}

impl AlertCooldown {
    /// No source appears twice among the last warnings.
    pub closed spec fn wf(&self) -> bool {
        sources_distinct(self.records.deep_view())
    }

    /// Last warnings before any source has warned.
    pub fn new() -> (g: AlertCooldown)
        ensures
            g.wf(),
            g@ == Map::<Seq<char>, u64>::empty(),
    {
        let g = AlertCooldown { records: Vec::new() };
        assert(g.records.deep_view() =~= Seq::<(Seq<char>, u64)>::empty());
        g
    }

    /// Offers the warning of source `key` at `now` (milliseconds on a
    /// monotonic clock): says whether it goes out, and if so records `now` as
    /// the source's last warning.
    pub fn offer(&mut self, key: &str, now: u64) -> (fire: bool)
        requires
            old(self).wf(),
        ensures
            final(self).wf(),
            fire == alert_due(old(self)@, key@, now),
            final(self)@ == (if fire {
                old(self)@.insert(key@, now)
            } else {
                old(self)@
            }),
    {
        let k = chars_of(key);
        let ghost s = self.records.deep_view();
        let mut i: usize = 0;
        while i < self.records.len()
            invariant
                i <= self.records@.len(),
                s == self.records.deep_view(),
                k@ == key@,
                sources_distinct(s),
                record_map(s) == old(self)@,
                forall|j: int| 0 <= j < i ==> s[j].0 != key@,
            decreases self.records@.len() - i,
        {
            proof {
                assert(s[i as int] == (self.records@[i as int].0@, self.records@[i as int].1));
            }
            if crate::text::chars_eq(&chars_of(self.records[i].0.as_str()), &k) {
                proof {
                    lemma_record_map_at(s, i as int);
                }
                let last = self.records[i].1;
                let due = now >= last && now - last >= ALERT_COOLDOWN_MS;
                if due {
                    self.records[i].1 = now;
                    proof {
                        assert(self.records.deep_view() =~= s.update(i as int, (s[i as int].0, now)));
                        lemma_record_map_update(s, i as int, now);
                        assert(sources_distinct(self.records.deep_view()));
                    }
                }
                return due;
            }
            i += 1;
        }
        proof {
            lemma_record_map_absent(s, key@);
        }
        self.records.push((key.to_owned(), now));
        proof {
            assert(self.records.deep_view() =~= s.push((key@, now)));
            assert(s.push((key@, now)).drop_last() =~= s);
        }
        true
    }

    /// Offers the warnings `keys` at `now`, in order; says for each whether it
    /// went out.
    pub fn offer_all(&mut self, keys: &Vec<String>, now: u64) -> (fired: Vec<bool>)
        requires
            old(self).wf(),
        ensures
            final(self).wf(),
            (final(self)@, fired@) == alert_run(old(self)@, keys.deep_view(), now),
    {
        let ghost m0 = self@;
        let ghost kv = keys.deep_view();
        let mut fired: Vec<bool> = Vec::new();
        let mut i: usize = 0;
        while i < keys.len()
            invariant
                i <= keys@.len(),
                self.wf(),
                kv == keys.deep_view(),
                (self@, fired@) == alert_run(m0, kv.take(i as int), now),
            decreases keys@.len() - i,
        {
            proof {
                assert(kv.take(i + 1).drop_last() =~= kv.take(i as int));
                assert(kv.take(i + 1).last() == keys@[i as int]@);
            }
            let f = self.offer(keys[i].as_str(), now);
            fired.push(f);
            i += 1;
        }
        assert(kv.take(keys@.len() as int) =~= kv);
        fired
    }
}

proof fn lemma_run_keeps_quiet(m: Map<Seq<char>, u64>, keys: Seq<Seq<char>>, now: u64, k: Seq<char>, t: u64)
    requires
        m.dom().contains(k),
        m[k] == t,
        now - t < ALERT_COOLDOWN_MS,
    ensures
        alert_run(m, keys, now).0.dom().contains(k),
        alert_run(m, keys, now).0[k] == t,
        forall|j: int| 0 <= j < keys.len() && keys[j] == k ==> !alert_run(m, keys, now).1[j],
    decreases keys.len(),
{
    if keys.len() > 0 {
        lemma_run_keeps_quiet(m, keys.drop_last(), now, k, t);
        lemma_run_len(m, keys.drop_last(), now);
        let p = alert_run(m, keys.drop_last(), now);
        assert forall|j: int| 0 <= j < keys.len() && keys[j] == k implies !alert_run(
            m,
            keys,
            now,
        ).1[j] by {
            if j < keys.len() - 1 {
                assert(keys.drop_last()[j] == k);
                assert(alert_run(m, keys, now).1[j] == p.1[j]);
            }
        }
    }
}

proof fn lemma_run_len(m: Map<Seq<char>, u64>, keys: Seq<Seq<char>>, now: u64)
    ensures
        alert_run(m, keys, now).1.len() == keys.len(),
    decreases keys.len(),
{
    if keys.len() > 0 {
        lemma_run_len(m, keys.drop_last(), now);
    }
}

proof fn lemma_run_records_fire(m: Map<Seq<char>, u64>, keys: Seq<Seq<char>>, now: u64, i: int)
    requires
        0 <= i < keys.len(),
    ensures
        alert_run(m, keys, now).1[i] ==> alert_run(m, keys, now).0.dom().contains(keys[i])
            && alert_run(m, keys, now).0[keys[i]] == now,
    decreases keys.len(),
{
    lemma_run_len(m, keys, now);
    lemma_run_len(m, keys.drop_last(), now);
    if i < keys.len() - 1 {
        lemma_run_records_fire(m, keys.drop_last(), now, i);
        let p = alert_run(m, keys.drop_last(), now);
        if p.1[i] {
            assert(p.0[keys[i]] == now);
        }
    }
}

/// A source that warned is not warned about again within the cooldown: after
/// a run at `now1` in which `keys1[i]` went out, a later run at `now2`, less
/// than the cooldown after, lets no warning of that source through.
pub proof fn lemma_alert_cooldown(
    m: Map<Seq<char>, u64>,
    keys1: Seq<Seq<char>>,
    now1: u64,
    i: int,
    keys2: Seq<Seq<char>>,
    now2: u64,
)
    requires
        0 <= i < keys1.len(),
        alert_run(m, keys1, now1).1[i],
        now1 <= now2,
        now2 - now1 < ALERT_COOLDOWN_MS,
    ensures
        forall|j: int|
            0 <= j < keys2.len() && keys2[j] == keys1[i] ==> !#[trigger] alert_run(
                alert_run(m, keys1, now1).0,
                keys2,
                now2,
            ).1[j],
{
    lemma_run_records_fire(m, keys1, now1, i);
    lemma_run_keeps_quiet(alert_run(m, keys1, now1).0, keys2, now2, keys1[i], now1);
}

/// A source that never warned warns the first time it is offered.
pub proof fn lemma_alert_first_fires(m: Map<Seq<char>, u64>, keys: Seq<Seq<char>>, now: u64, i: int)
    requires
        0 <= i < keys.len(),
        !m.dom().contains(keys[i]),
        forall|j: int| 0 <= j < i ==> keys[j] != keys[i],
    ensures
        alert_run(m, keys, now).1[i],
    decreases keys.len(),
{
    lemma_run_len(m, keys, now);
    if i < keys.len() - 1 {
        lemma_alert_first_fires(m, keys.drop_last(), now, i);
    } else {
        lemma_run_absent(m, keys.drop_last(), now, keys[i]);
    }
}

proof fn lemma_run_absent(m: Map<Seq<char>, u64>, keys: Seq<Seq<char>>, now: u64, k: Seq<char>)
    requires
        !m.dom().contains(k),
        forall|j: int| 0 <= j < keys.len() ==> keys[j] != k,
    ensures
        !alert_run(m, keys, now).0.dom().contains(k),
    decreases keys.len(),
{
    if keys.len() > 0 {
        lemma_run_absent(m, keys.drop_last(), now, k);
    }
}

// ───────────────────────── warning sources ─────────────────────────

/// The alert source of a GPU.
pub fn gpu_alert_key(bus: &str) -> (r: String)
    ensures
        r@ == "gpu:"@ + bus@,
{
    string_of(&concat(&chars_of("gpu:"), &chars_of(bus)))
}

/// The alert source of a drive.
pub fn disk_alert_key(dev: &str) -> (r: String)
    ensures
        r@ == "disk:"@ + dev@,
{
    string_of(&concat(&chars_of("disk:"), &chars_of(dev)))
}

/// How a drive is named in its warning: its model, or its device name when
/// the model is unknown.
pub fn disk_alert_label(model: &str, dev: &str) -> (r: String)
    ensures
        r@ == (if model@.len() == 0 {
            dev@
        } else {
            model@
        }),
{
    if chars_of(model).len() == 0 {
        dev.to_owned()
    } else {
        model.to_owned()
    }
}

/// The number part of a S.M.A.R.T. temperature such as `41°C`.
pub fn disk_temp_digits(temp: &str) -> (r: String)
    ensures
        r@ == trim(strip_all_suffix(temp@, "°C"@)),
{
    string_of(&trim_chars(&strip_all_suffix_of(&chars_of(temp), "°C")))
}

} // verus!
