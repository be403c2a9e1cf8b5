//! String order and the stable sort used for every device list.
use vstd::prelude::*;

verus! {

/// `a < b` in the order of `str::cmp` (character by character; a proper
/// prefix comes first).
pub open spec fn lex_lt(a: Seq<char>, b: Seq<char>) -> bool
    decreases a.len(),
{
    if a.len() == 0 {
        b.len() > 0
    } else if b.len() == 0 {
        false
    } else if a[0] < b[0] {
        true
    } else if a[0] > b[0] {
        false
    } else {
        lex_lt(a.drop_first(), b.drop_first())
    }
}

proof fn lemma_lex_lt_step(a: Seq<char>, b: Seq<char>, i: int)
    requires
        0 <= i <= a.len(),
        i <= b.len(),
        forall|k: int| 0 <= k < i ==> a[k] == b[k],
    ensures
        lex_lt(a, b) == lex_lt(a.skip(i), b.skip(i)),
    decreases i,
{
    if i > 0 {
        assert(a[0] == b[0]);
        lemma_lex_lt_step(a.drop_first(), b.drop_first(), i - 1);
        assert(a.drop_first().skip(i - 1) =~= a.skip(i));
        assert(b.drop_first().skip(i - 1) =~= b.skip(i));
    } else {
        assert(a.skip(0) =~= a);
        assert(b.skip(0) =~= b);
    }
}

/// `a < b` as `str::cmp` orders strings.
pub fn lex_less(a: &[char], b: &[char]) -> (r: bool)
    ensures
        r == lex_lt(a@, b@),
{
    let mut i: usize = 0;
    while i < a.len() && i < b.len()
        invariant
            i <= a@.len(),
            i <= b@.len(),
            forall|k: int| 0 <= k < i ==> a@[k] == b@[k],
        decreases a@.len() - i,
    {
        if a[i] != b[i] {
            proof {
                lemma_lex_lt_step(a@, b@, i as int);
                assert(a@.skip(i as int)[0] == a@[i as int]);
                assert(b@.skip(i as int)[0] == b@[i as int]);
            }
            return a[i] < b[i];
        }
        i += 1;
    }
    proof {
        lemma_lex_lt_step(a@, b@, i as int);
    }
    i < b.len()
}

/// Order of sort keys: first by rank, then by name.
pub open spec fn key_gt(r1: nat, n1: Seq<char>, r2: nat, n2: Seq<char>) -> bool {
    r1 > r2 || (r1 == r2 && lex_lt(n2, n1))
}

/// A sort key: a rank, then a name, both ascending.
pub type SortKey = (nat, Seq<char>);

pub open spec fn key_after(a: SortKey, b: SortKey) -> bool {
    key_gt(a.0, a.1, b.0, b.1)
}

/// Where a stable insertion puts `x` into `t`: before the first element
/// whose key is strictly greater.
pub open spec fn insert_pos<V>(t: Seq<V>, x: V, key: spec_fn(V) -> SortKey) -> nat
    decreases t.len(),
{
    if t.len() == 0 {
        0
    } else if key_after(key(t[0]), key(x)) {
        0
    } else {
        1 + insert_pos(t.drop_first(), x, key)
    }
}

pub open spec fn insert_sorted<V>(t: Seq<V>, x: V, key: spec_fn(V) -> SortKey) -> Seq<V> {
    let k = insert_pos(t, x, key) as int;
    t.take(k) + seq![x] + t.skip(k)
}

/// The stable sort of `s` by `key`: elements with equal keys keep their
/// relative order.
pub open spec fn sort_by_key<V>(s: Seq<V>, key: spec_fn(V) -> SortKey) -> Seq<V>
    decreases s.len(),
{
    if s.len() == 0 {
        Seq::empty()
    } else {
        insert_sorted(sort_by_key(s.drop_last(), key), s.last(), key)
    }
}

/// Items that sort by a rank and then by a name.
pub trait Ranked: Sized {
    spec fn sort_key(&self) -> SortKey;

    /// Whether `self` sorts strictly after `other`.
    fn goes_after(&self, other: &Self) -> (b: bool)
        ensures
            b == key_after(self.sort_key(), other.sort_key()),
    ;
}

pub open spec fn key_of<T: Ranked>() -> spec_fn(T) -> SortKey {
    |t: T| t.sort_key()
}

proof fn lemma_insert_pos_at<V>(t: Seq<V>, x: V, key: spec_fn(V) -> SortKey, k: int)
    requires
        0 <= k <= t.len(),
        forall|j: int| 0 <= j < k ==> !key_after(key(t[j]), key(x)),
        k == t.len() || key_after(key(t[k]), key(x)),
    ensures
        insert_pos(t, x, key) == k,
    decreases k,
{
    if k > 0 {
        lemma_insert_pos_at(t.drop_first(), x, key, k - 1);
    }
}

pub proof fn lemma_insert_pos_le<V>(t: Seq<V>, x: V, key: spec_fn(V) -> SortKey)
    ensures
        insert_pos(t, x, key) <= t.len(),
    decreases t.len(),
{
    if t.len() > 0 && !key_after(key(t[0]), key(x)) {
        lemma_insert_pos_le(t.drop_first(), x, key);
    }
}

pub proof fn lemma_sort_len<V>(s: Seq<V>, key: spec_fn(V) -> SortKey)
    ensures
        sort_by_key(s, key).len() == s.len(),
    decreases s.len(),
{
    if s.len() > 0 {
        lemma_sort_len(s.drop_last(), key);
        lemma_insert_pos_le(sort_by_key(s.drop_last(), key), s.last(), key);
    }
}

proof fn lemma_insert_pos_map<T, V>(
    t: Seq<T>,
    x: T,
    f: spec_fn(T) -> V,
    kt: spec_fn(T) -> SortKey,
    kv: spec_fn(V) -> SortKey,
)
    requires
        forall|a: T| #[trigger] kv(f(a)) == kt(a),
    ensures
        insert_pos(t, x, kt) == insert_pos(t.map_values(f), f(x), kv),
    decreases t.len(),
{
    if t.len() > 0 {
        assert(t.map_values(f)[0] == f(t[0]));
        assert(t.drop_first().map_values(f) =~= t.map_values(f).drop_first());
        lemma_insert_pos_map(t.drop_first(), x, f, kt, kv);
    }
}

/// Sorting and then mapping each element gives what mapping and then
/// sorting by the corresponding key gives.
pub proof fn lemma_sort_map<T, V>(
    s: Seq<T>,
    f: spec_fn(T) -> V,
    kt: spec_fn(T) -> SortKey,
    kv: spec_fn(V) -> SortKey,
)
    requires
        forall|a: T| #[trigger] kv(f(a)) == kt(a),
    ensures
        sort_by_key(s, kt).map_values(f) == sort_by_key(s.map_values(f), kv),
    decreases s.len(),
{
    if s.len() == 0 {
        assert(sort_by_key(s, kt).map_values(f) =~= sort_by_key(s.map_values(f), kv));
    } else {
        let t = sort_by_key(s.drop_last(), kt);
        lemma_sort_map(s.drop_last(), f, kt, kv);
        assert(s.drop_last().map_values(f) =~= s.map_values(f).drop_last());
        assert(s.map_values(f).last() == f(s.last()));
        lemma_insert_pos_map(t, s.last(), f, kt, kv);
        lemma_insert_pos_le(t, s.last(), kt);
        let k = insert_pos(t, s.last(), kt) as int;
        assert((t.take(k) + seq![s.last()] + t.skip(k)).map_values(f) =~= t.map_values(f).take(k)
            + seq![f(s.last())] + t.map_values(f).skip(k));
    }
}

/// Sorts `v` stably by rank and then by name.
pub fn sort_ranked<T: Ranked>(v: &mut Vec<T>)
    ensures
        final(v)@ == sort_by_key(old(v)@, key_of::<T>()),
{
    let ghost s = v@;
    let n = v.len();
    let mut i: usize = 0;
    proof {
        assert(s.take(0) =~= Seq::<T>::empty());
        assert(v@ =~= sort_by_key(s.take(0), key_of::<T>()) + s.skip(0));
    }
    while i < n
        invariant
            n == s.len(),
            i <= n,
            v@.len() == n,
            sort_by_key(s.take(i as int), key_of::<T>()).len() == i,
            v@ == sort_by_key(s.take(i as int), key_of::<T>()) + s.skip(i as int),
        decreases n - i,
    {
        let ghost sorted = sort_by_key(s.take(i as int), key_of::<T>());
        let x = v.remove(i);
        proof {
            assert(v@ =~= sorted + s.skip(i + 1));
            assert(x == s[i as int]);
        }
        let mut j: usize = 0;
        while j < i && !v[j].goes_after(&x)
            invariant
                j <= i,
                i < n,
                v@ == sorted + s.skip(i + 1),
                sorted.len() == i,
                forall|k: int| 0 <= k < j ==> !key_after(sorted[k].sort_key(), x.sort_key()),
            decreases i - j,
        {
            assert(v@[j as int] == sorted[j as int]);
            j += 1;
        }
        proof {
            if j < i {
                assert(v@[j as int] == sorted[j as int]);
            }
            lemma_insert_pos_at(sorted, x, key_of::<T>(), j as int);
            assert(s.take(i + 1).drop_last() =~= s.take(i as int));
            assert(s.take(i + 1).last() == x);
            assert(sort_by_key(s.take(i + 1), key_of::<T>()) == insert_sorted(sorted, x, key_of::<T>()));
        }
        v.insert(j, x);
        proof {
            assert(v@ =~= insert_sorted(sorted, x, key_of::<T>()) + s.skip(i + 1));
        }
        i += 1;
    }
    proof {
        assert(s.take(n as int) =~= s);
        assert(s.skip(n as int) =~= Seq::<T>::empty());
        assert(v@ =~= sort_by_key(s, key_of::<T>()));
    }
}

impl Ranked for String {
    open spec fn sort_key(&self) -> SortKey {
        (0, self@)
    }

    fn goes_after(&self, other: &Self) -> (b: bool) {
        let a: Vec<char> = crate::text::chars_of(self.as_str());
        let o: Vec<char> = crate::text::chars_of(other.as_str());
        lex_less(&o, &a)
    }
}

/// Sorts names as `Vec::<String>::sort` does.
pub fn sort_names(v: &mut Vec<String>)
    ensures
        final(v)@ == sort_by_key(old(v)@, key_of::<String>()),
{
    sort_ranked(v);
}

// ───────────────────────── the sort's laws ─────────────────────────

proof fn lemma_lex_irrefl(a: Seq<char>)
    ensures
        !lex_lt(a, a),
    decreases a.len(),
{
    if a.len() > 0 {
        lemma_lex_irrefl(a.drop_first());
    }
}

proof fn lemma_lex_asym(a: Seq<char>, b: Seq<char>)
    ensures
        lex_lt(a, b) ==> !lex_lt(b, a),
    decreases a.len(),
{
    if a.len() > 0 && b.len() > 0 && a[0] == b[0] {
        lemma_lex_asym(a.drop_first(), b.drop_first());
    }
}

proof fn lemma_lex_trans(a: Seq<char>, b: Seq<char>, c: Seq<char>)
    ensures
        lex_lt(a, b) && lex_lt(b, c) ==> lex_lt(a, c),
    decreases a.len(),
{
    if a.len() > 0 && b.len() > 0 && c.len() > 0 {
        lemma_lex_trans(a.drop_first(), b.drop_first(), c.drop_first());
    }
}

proof fn lemma_lex_total(a: Seq<char>, b: Seq<char>)
    ensures
        a != b ==> lex_lt(a, b) || lex_lt(b, a),
    decreases a.len(),
{
    if a.len() == 0 {
        if b.len() == 0 {
            assert(a =~= b);
        }
    } else if b.len() > 0 && a[0] == b[0] {
        lemma_lex_total(a.drop_first(), b.drop_first());
        if a.drop_first() == b.drop_first() {
            assert(a.drop_first().len() == b.drop_first().len());
            assert(a.len() == b.len());
            assert forall|i: int| 0 <= i < a.len() implies a[i] == b[i] by {
                if i > 0 {
                    assert(a[i] == a.drop_first()[i - 1]);
                    assert(b[i] == b.drop_first()[i - 1]);
                }
            }
            assert(a =~= b);
        }
    }
}

/// `key_after` is a strict total order on sort keys.
pub proof fn lemma_key_order(a: SortKey, b: SortKey, c: SortKey)
    ensures
        !key_after(a, a),
        key_after(a, b) ==> !key_after(b, a),
        key_after(a, b) && key_after(b, c) ==> key_after(a, c),
        a != b ==> key_after(a, b) || key_after(b, a),
{
    lemma_lex_irrefl(a.1);
    lemma_lex_asym(a.1, b.1);
    lemma_lex_asym(b.1, a.1);
    lemma_lex_trans(c.1, b.1, a.1);
    lemma_lex_total(a.1, b.1);
}

proof fn lemma_insert_pos_props<V>(t: Seq<V>, x: V, key: spec_fn(V) -> SortKey)
    ensures
        insert_pos(t, x, key) <= t.len(),
        forall|i: int| 0 <= i < insert_pos(t, x, key) ==> !key_after(key(#[trigger] t[i]), key(x)),
        insert_pos(t, x, key) < t.len() ==> key_after(key(t[insert_pos(t, x, key) as int]), key(x)),
    decreases t.len(),
{
    if t.len() > 0 && !key_after(key(t[0]), key(x)) {
        lemma_insert_pos_props(t.drop_first(), x, key);
        assert forall|i: int| 0 <= i < insert_pos(t, x, key) implies !key_after(
            key(#[trigger] t[i]),
            key(x),
        ) by {
            if i > 0 {
                assert(t[i] == t.drop_first()[i - 1]);
            }
        }
    }
}

/// Keys never decrease along `s`.
pub open spec fn sorted_by<V>(s: Seq<V>, key: spec_fn(V) -> SortKey) -> bool {
    forall|i: int, j: int| 0 <= i < j < s.len() ==> !key_after(key(#[trigger] s[i]), key(#[trigger] s[j]))
}

proof fn lemma_insert_sorted_sorted<V>(t: Seq<V>, x: V, key: spec_fn(V) -> SortKey)
    requires
        sorted_by(t, key),
    ensures
        sorted_by(insert_sorted(t, x, key), key),
        insert_sorted(t, x, key) == t.insert(insert_pos(t, x, key) as int, x),
{
    lemma_insert_pos_props(t, x, key);
    let k = insert_pos(t, x, key) as int;
    let r = insert_sorted(t, x, key);
    assert(r =~= t.insert(k, x));
    assert forall|i: int, j: int| 0 <= i < j < r.len() implies !key_after(
        key(#[trigger] r[i]),
        key(#[trigger] r[j]),
    ) by {
        if j < k {
            assert(r[i] == t[i] && r[j] == t[j]);
        } else if j == k {
            assert(r[i] == t[i] && r[j] == x);
        } else if i < k {
            assert(r[i] == t[i] && r[j] == t[j - 1]);
        } else if i == k {
            assert(r[i] == x && r[j] == t[j - 1]);
            lemma_key_order(key(t[k]), key(t[j - 1]), key(x));
            lemma_key_order(key(x), key(t[j - 1]), key(t[k]));
            lemma_key_order(key(t[j - 1]), key(t[k]), key(x));
            lemma_key_order(key(t[k]), key(x), key(t[j - 1]));
            lemma_key_order(key(x), key(t[k]), key(t[j - 1]));
        } else {
            assert(r[i] == t[i - 1] && r[j] == t[j - 1]);
        }
    }
}

/// The stable sort orders by key and keeps exactly the elements it was given.
pub proof fn lemma_sort_sorted<V>(s: Seq<V>, key: spec_fn(V) -> SortKey)
    ensures
        sorted_by(sort_by_key(s, key), key),
        sort_by_key(s, key).to_multiset() == s.to_multiset(),
    decreases s.len(),
{
    broadcast use vstd::seq_lib::to_multiset_build, vstd::seq_lib::to_multiset_insert;

    if s.len() > 0 {
        lemma_sort_sorted(s.drop_last(), key);
        lemma_insert_sorted_sorted(sort_by_key(s.drop_last(), key), s.last(), key);
        lemma_insert_pos_props(sort_by_key(s.drop_last(), key), s.last(), key);
        assert(s =~= s.drop_last().push(s.last()));
    } else {
        assert(sort_by_key(s, key) =~= s);
    }
}

} // verus!
