//! Rolling sample histories, and how a fresh enumeration of devices takes
//! over the live state of the devices that were already known.
use vstd::prelude::*;
use std::collections::VecDeque;
use crate::text::chars_of;

verus! {

// ───────────────────────── rolling history ─────────────────────────

/// `s` cut down to its last `cap` elements.
pub open spec fn keep_last<T>(s: Seq<T>, cap: nat) -> Seq<T> {
    if s.len() > cap {
        s.skip(s.len() - cap)
    } else {
        s
    }
}

/// Appends `x` to the history `h` and drops its oldest samples until at most
/// `cap` remain.
pub fn push_history<T>(h: &mut VecDeque<T>, x: T, cap: usize)
    ensures
        final(h)@ == keep_last(old(h)@.push(x), cap as nat),
{
    let ghost s = old(h)@.push(x);
    h.push_back(x);
    assert(s.skip(0) =~= s);
    let ghost mut dropped: int = 0;
    while h.len() > cap
        invariant
            0 <= dropped <= s.len(),
            h@ == s.skip(dropped),
            dropped > 0 ==> s.len() - dropped >= cap,
        decreases h@.len(),
    {
        let _ = h.pop_front();
        proof {
            assert(s.skip(dropped).subrange(1, s.skip(dropped).len() as int) =~= s.skip(dropped + 1));
            dropped = dropped + 1;
        }
    }
    proof {
        if s.len() > cap {
            assert(s.len() - dropped == cap);
        } else {
            assert(dropped == 0);
        }
    }
}

// ───────────────────────── carrying live state over ─────────────────────────

/// Last position of `k` in `keys`.
pub open spec fn last_index(keys: Seq<Seq<char>>, k: Seq<char>) -> Option<nat>
    decreases keys.len(),
{
    if keys.len() == 0 {
        None
    } else if keys.last() == k {
        Some((keys.len() - 1) as nat)
    } else {
        last_index(keys.drop_last(), k)
    }
}

/// Whether `fresh[j]` repeats a key that comes earlier in `fresh`.
pub open spec fn seen_before(fresh: Seq<Seq<char>>, j: int) -> bool {
    exists|i: int| 0 <= i < j && fresh[i] == fresh[j]
}

/// For each freshly enumerated device, the known device whose live state it
/// takes over, as a map keyed by device keys gives it: the known devices go
/// into the map in order (a later duplicate key replaces an earlier one) and
/// each fresh device removes its entry, so a repeated fresh key finds none.
pub open spec fn carry_plan(old: Seq<Seq<char>>, fresh: Seq<Seq<char>>) -> Seq<Option<nat>> {
    Seq::new(
        fresh.len(),
        |j: int|
            if seen_before(fresh, j) {
                None
            } else {
                last_index(old, fresh[j])
            },
    )
}

proof fn lemma_last_index(keys: Seq<Seq<char>>, k: Seq<char>)
    ensures
        last_index(keys, k) matches Some(i) ==> i < keys.len() && keys[i as int] == k,
        last_index(keys, k) is None ==> forall|i: int| 0 <= i < keys.len() ==> keys[i] != k,
    decreases keys.len(),
{
    if keys.len() > 0 && keys.last() != k {
        lemma_last_index(keys.drop_last(), k);
        if last_index(keys, k) is None {
            assert forall|i: int| 0 <= i < keys.len() implies keys[i] != k by {
                if i < keys.len() - 1 {
                    assert(keys[i] == keys.drop_last()[i]);
                }
            }
        }
    }
}

fn last_index_of(keys: &Vec<Vec<char>>, k: &[char]) -> (r: Option<usize>)
    ensures
        match r {
            Some(i) => last_index(keys.deep_view(), k@) == Some(i as nat),
            None => last_index(keys.deep_view(), k@) is None,
        },
{
    let mut i = keys.len();
    assert(keys.deep_view().take(i as int) =~= keys.deep_view());
    while i > 0
        invariant
            i <= keys@.len(),
            last_index(keys.deep_view().take(i as int), k@) == last_index(keys.deep_view(), k@),
        decreases i,
    {
        let ghost t = keys.deep_view().take(i as int);
        proof {
            assert(t.last() == keys@[i - 1]@);
            assert(t.drop_last() =~= keys.deep_view().take(i - 1));
        }
        if crate::text::chars_eq(&keys[i - 1], k) {
            return Some(i - 1);
        }
        i -= 1;
    }
    None
}

fn keys_of(v: &Vec<String>) -> (r: Vec<Vec<char>>)
    ensures
        r.deep_view() == v.deep_view(),
{
    let mut r: Vec<Vec<char>> = Vec::new();
    let mut i: usize = 0;
    while i < v.len()
        invariant
            i <= v@.len(),
            r.deep_view() == v.deep_view().take(i as int),
        decreases v@.len() - i,
    {
        let c = chars_of(v[i].as_str());
        let ghost old_r = r.deep_view();
        let ghost old_v = r@;
        let ghost cv = c;
        r.push(c);
        proof {
            crate::text::lemma_deep_view_push(r, old_v, cv);
            crate::text::lemma_chars_deep_view(cv);
            assert(r.deep_view() =~= v.deep_view().take(i + 1));
        }
        i += 1;
    }
    assert(v.deep_view().take(v@.len() as int) =~= v.deep_view());
    r
}

/// `carry_plan` of the keys of the known and of the fresh devices.
pub fn carry_over_plan(old_keys: &Vec<String>, fresh_keys: &Vec<String>) -> (r: Vec<Option<usize>>)
    ensures
        r@.len() == fresh_keys@.len(),
        forall|j: int|
            0 <= j < r@.len() ==> match #[trigger] r@[j] {
                Some(i) => carry_plan(old_keys.deep_view(), fresh_keys.deep_view())[j] == Some(
                    i as nat,
                ),
                None => carry_plan(old_keys.deep_view(), fresh_keys.deep_view())[j] is None,
            },
{
    let old = keys_of(old_keys);
    let fresh = keys_of(fresh_keys);
    let ghost ov = old_keys.deep_view();
    let ghost fv = fresh_keys.deep_view();
    let mut r: Vec<Option<usize>> = Vec::new();
    let mut j: usize = 0;
    while j < fresh.len()
        invariant
            j <= fresh@.len(),
            fresh.deep_view() == fv,
            old.deep_view() == ov,
            fv.len() == fresh_keys@.len(),
            r@.len() == j,
            forall|k: int|
                0 <= k < j ==> match #[trigger] r@[k] {
                    Some(i) => carry_plan(ov, fv)[k] == Some(i as nat),
                    None => carry_plan(ov, fv)[k] is None,
                },
        decreases fresh@.len() - j,
    {
        let mut dup = false;
        let mut i: usize = 0;
        while i < j
            invariant
                i <= j < fresh@.len(),
                fresh.deep_view() == fv,
                dup == exists|x: int| 0 <= x < i && fv[x] == fv[j as int],
            decreases j - i,
        {
            proof {
                assert(fv[i as int] == fresh@[i as int]@);
                assert(fv[j as int] == fresh@[j as int]@);
            }
            if crate::text::chars_eq(&fresh[i], &fresh[j]) {
                dup = true;
            }
            i += 1;
        }
        let e = if dup {
            None
        } else {
            proof {
                assert(fv[j as int] == fresh@[j as int]@);
            }
            last_index_of(&old, &fresh[j])
        };
        r.push(e);
        j += 1;
    }
    r
}

/// No known device hands its state to two fresh ones, and a device only
/// takes over the state of a known device with the same key.
pub proof fn lemma_carry_plan_sound(old: Seq<Seq<char>>, fresh: Seq<Seq<char>>)
    ensures
        forall|j: int|
            0 <= j < fresh.len() ==> (#[trigger] carry_plan(old, fresh)[j] matches Some(i) ==> i
                < old.len() && old[i as int] == fresh[j]),
        forall|j1: int, j2: int|
            0 <= j1 < j2 < fresh.len() && carry_plan(old, fresh)[j1] is Some ==> #[trigger] carry_plan(
                old,
                fresh,
            )[j1] != #[trigger] carry_plan(old, fresh)[j2],
{
    let p = carry_plan(old, fresh);
    assert forall|j: int| 0 <= j < fresh.len() implies (#[trigger] p[j] matches Some(i) ==> i
        < old.len() && old[i as int] == fresh[j]) by {
        lemma_last_index(old, fresh[j]);
    }
    assert forall|j1: int, j2: int|
        0 <= j1 < j2 < fresh.len() && p[j1] is Some implies #[trigger] p[j1] != #[trigger] p[j2] by {
        lemma_last_index(old, fresh[j1]);
        lemma_last_index(old, fresh[j2]);
        if p[j2] is Some && p[j1] == p[j2] {
            let i = p[j1]->0;
            assert(old[i as int] == fresh[j1]);
            assert(old[i as int] == fresh[j2]);
            assert(seen_before(fresh, j2));
        }
    }
}

/// A rescan resets no surviving device: the first fresh device with the key
/// of a known device takes over the live state of a known device with that
/// key, and a fresh device whose key was unknown starts afresh.
pub proof fn lemma_carry_plan_complete(old: Seq<Seq<char>>, fresh: Seq<Seq<char>>)
    ensures
        forall|j: int|
            0 <= j < fresh.len() && !seen_before(fresh, j) && old.contains(fresh[j]) ==> (
            #[trigger] carry_plan(old, fresh)[j]) is Some,
        forall|j: int|
            0 <= j < fresh.len() && !old.contains(fresh[j]) ==> (#[trigger] carry_plan(
                old,
                fresh,
            )[j]) is None,
{
    assert forall|j: int|
        0 <= j < fresh.len() && !seen_before(fresh, j) && old.contains(
            fresh[j],
        ) implies (#[trigger] carry_plan(old, fresh)[j]) is Some by {
        lemma_last_index(old, fresh[j]);
        let i = choose|i: int| 0 <= i < old.len() && old[i] == fresh[j];
        assert(old[i] == fresh[j]);
    }
    assert forall|j: int| 0 <= j < fresh.len() && !old.contains(fresh[j]) implies (
    #[trigger] carry_plan(old, fresh)[j]) is None by {
        lemma_last_index(old, fresh[j]);
        if last_index(old, fresh[j]) is Some {
            let i = last_index(old, fresh[j])->0;
            assert(old[i as int] == fresh[j]);
        }
    }
}

/// A rolling history never holds more than its capacity, and its newest
/// sample is the one just added.
pub proof fn lemma_history_window<T>(s: Seq<T>, x: T, cap: nat)
    requires
        cap > 0,
    ensures
        keep_last(s.push(x), cap).len() <= cap,
        keep_last(s.push(x), cap).last() == x,
        s.len() < cap ==> keep_last(s.push(x), cap) == s.push(x),
{
}

} // verus!
