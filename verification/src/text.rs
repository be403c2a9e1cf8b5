//! Character-level text handling shared by every parser of the monitor:
//! trimming, line splitting, token splitting, prefix tests and decimal
//! numbers, each specified over `Seq<char>`.
use vstd::prelude::*;

verus! {

// ───────────────────────── conversions ─────────────────────────

/// A character vector seen deeply is its plain view.
pub broadcast proof fn lemma_chars_deep_view(v: Vec<char>)
    ensures
        #[trigger] v.deep_view() == v@,
{
    assert(v.deep_view() =~= v@);
}

/// Pushing onto a vector pushes the element's deep view.
pub proof fn lemma_deep_view_push<T: DeepView>(v: Vec<T>, before: Seq<T>, x: T)
    requires
        v@ == before.push(x),
    ensures
        v.deep_view() == Seq::new(before.len(), |i: int| before[i].deep_view()).push(
            x.deep_view(),
        ),
{
    assert(v.deep_view() =~= Seq::new(before.len(), |i: int| before[i].deep_view()).push(
        x.deep_view(),
    ));
}

/// The characters of `s`, in order.
pub fn chars_of(s: &str) -> (v: Vec<char>)
    ensures
        v@ == s@,
{
    let mut v: Vec<char> = Vec::new();
    for c in it: s.chars()
        invariant
            v@ == it.seq().take(it.index() as int),
    {
        v.push(c);
    }
    v
}

/// `String` made of the characters of `v`, through std's `FromIterator<char>`
/// for `String`; the contract claims that the string holds exactly those
/// characters in that order.
#[verifier::external_body]
pub(crate) fn string_of(v: &[char]) -> (s: String)
    ensures
        s@ == v@,
{
    v.iter().collect()
}

/// Copy of `s[a..b]`.
pub fn slice_of(s: &[char], a: usize, b: usize) -> (r: Vec<char>)
    requires
        a <= b <= s@.len(),
    ensures
        r@ == s@.subrange(a as int, b as int),
{
    let mut r: Vec<char> = Vec::new();
    let mut i = a;
    while i < b
        invariant
            a <= i <= b <= s@.len(),
            r@ == s@.subrange(a as int, i as int),
        decreases b - i,
    {
        r.push(s[i]);
        i += 1;
    }
    r
}

/// A copy of `s`.
pub fn copy_of(s: &[char]) -> (r: Vec<char>)
    ensures
        r@ == s@,
{
    let r = slice_of(s, 0, s.len());
    assert(s@.subrange(0, s@.len() as int) =~= s@);
    r
}

/// `a` followed by `b`.
pub fn concat(a: &[char], b: &[char]) -> (r: Vec<char>)
    ensures
        r@ == a@ + b@,
{
    let mut r = copy_of(a);
    let mut i: usize = 0;
    while i < b.len()
        invariant
            i <= b@.len(),
            r@ == a@ + b@.take(i as int),
        decreases b@.len() - i,
    {
        r.push(b[i]);
        i += 1;
        assert(b@.take(i as int) =~= b@.take((i - 1) as int).push(b@[i - 1]));
    }
    assert(b@.take(b@.len() as int) =~= b@);
    r
}

/// Appends all of `b` to `r`.
pub fn push_all(r: &mut Vec<char>, b: &[char])
    ensures
        final(r)@ == old(r)@ + b@,
{
    let mut i: usize = 0;
    while i < b.len()
        invariant
            i <= b@.len(),
            r@ == old(r)@ + b@.take(i as int),
        decreases b@.len() - i,
    {
        r.push(b[i]);
        i += 1;
        assert(b@.take(i as int) =~= b@.take((i - 1) as int).push(b@[i - 1]));
    }
    assert(b@.take(b@.len() as int) =~= b@);
}

/// Equality of two character sequences.
pub fn chars_eq(a: &[char], b: &[char]) -> (r: bool)
    ensures
        r == (a@ == b@),
{
    if a.len() != b.len() {
        return false;
    }
    let mut i: usize = 0;
    while i < a.len()
        invariant
            a@.len() == b@.len(),
            i <= a@.len(),
            forall|k: int| 0 <= k < i ==> a@[k] == b@[k],
        decreases a@.len() - i,
    {
        if a[i] != b[i] {
            return false;
        }
        i += 1;
    }
    assert(a@ =~= b@);
    true
}

// ───────────────────────── whitespace and trimming ─────────────────────────

/// Unicode `White_Space`, the set used by `char::is_whitespace`, `str::trim`
/// and `str::split_whitespace`.
pub open spec fn is_ws(c: char) -> bool {
    let u = c as u32;
    ||| 0x09 <= u <= 0x0D
    ||| u == 0x20
    ||| u == 0x85
    ||| u == 0xA0
    ||| u == 0x1680
    ||| 0x2000 <= u <= 0x200A
    ||| u == 0x2028
    ||| u == 0x2029
    ||| u == 0x202F
    ||| u == 0x205F
    ||| u == 0x3000
}

pub fn is_ws_char(c: char) -> (b: bool)
    ensures
        b == is_ws(c),
{
    let u = c as u32;
    (0x09 <= u && u <= 0x0D) || u == 0x20 || u == 0x85 || u == 0xA0 || u == 0x1680 || (0x2000
        <= u && u <= 0x200A) || u == 0x2028 || u == 0x2029 || u == 0x202F || u == 0x205F || u
        == 0x3000
}

/// `s` without its leading whitespace.
pub open spec fn trim_start(s: Seq<char>) -> Seq<char>
    decreases s.len(),
{
    if s.len() > 0 && is_ws(s[0]) {
        trim_start(s.drop_first())
    } else {
        s
    }
}

/// `s` without its trailing whitespace.
pub open spec fn trim_end(s: Seq<char>) -> Seq<char>
    decreases s.len(),
{
    if s.len() > 0 && is_ws(s.last()) {
        trim_end(s.drop_last())
    } else {
        s
    }
}

/// `s` without leading and trailing whitespace (`str::trim`).
pub open spec fn trim(s: Seq<char>) -> Seq<char> {
    trim_end(trim_start(s))
}

proof fn lemma_trim_start_skip(s: Seq<char>, k: int)
    requires
        0 <= k <= s.len(),
        forall|j: int| 0 <= j < k ==> is_ws(s[j]),
        k == s.len() || !is_ws(s[k]),
    ensures
        trim_start(s) == s.skip(k),
    decreases k,
{
    if k == 0 {
        assert(s.skip(0) =~= s);
    } else {
        lemma_trim_start_skip(s.drop_first(), k - 1);
        assert(s.drop_first().skip(k - 1) =~= s.skip(k));
    }
}

proof fn lemma_trim_end_take(s: Seq<char>, k: int)
    requires
        0 <= k <= s.len(),
        forall|j: int| k <= j < s.len() ==> is_ws(s[j]),
        k == 0 || !is_ws(s[k - 1]),
    ensures
        trim_end(s) == s.take(k),
    decreases s.len() - k,
{
    if k == s.len() {
        assert(s.take(k) =~= s);
    } else {
        lemma_trim_end_take(s.drop_last(), k);
        assert(s.drop_last().take(k) =~= s.take(k));
    }
}

/// Text without whitespace is its own trim.
pub proof fn lemma_trim_no_ws(s: Seq<char>)
    requires
        forall|i: int| 0 <= i < s.len() ==> !is_ws(#[trigger] s[i]),
    ensures
        trim(s) == s,
{
    lemma_trim_start_skip(s, 0);
    assert(s.skip(0) =~= s);
    lemma_trim_end_take(s, s.len() as int);
    assert(s.take(s.len() as int) =~= s);
}

/// Text without whitespace followed by one space trims to itself.
pub proof fn lemma_trim_space_after(s: Seq<char>)
    requires
        forall|i: int| 0 <= i < s.len() ==> !is_ws(#[trigger] s[i]),
    ensures
        trim(s + seq![' ']) == s,
{
    let t = s + seq![' '];
    assert(is_ws(' '));
    if s.len() == 0 {
        lemma_trim_start_skip(t, 1);
        assert(t.skip(1) =~= Seq::<char>::empty());
    } else {
        lemma_trim_start_skip(t, 0);
        assert(t.skip(0) =~= t);
        lemma_trim_end_take(t, s.len() as int);
        assert(t.take(s.len() as int) =~= s);
    }
}

/// Bounds `(a, b)` such that `s[a..b]` is `trim(s)`.
pub fn trim_bounds(s: &[char]) -> (r: (usize, usize))
    ensures
        r.0 <= r.1 <= s@.len(),
        s@.subrange(r.0 as int, r.1 as int) == trim(s@),
{
    let mut a: usize = 0;
    while a < s.len() && is_ws_char(s[a])
        invariant
            a <= s@.len(),
            forall|j: int| 0 <= j < a ==> is_ws(s@[j]),
        decreases s@.len() - a,
    {
        a += 1;
    }
    proof {
        lemma_trim_start_skip(s@, a as int);
    }
    let mut b: usize = s.len();
    while b > a && is_ws_char(s[b - 1])
        invariant
            a <= b <= s@.len(),
            forall|j: int| b <= j < s@.len() ==> is_ws(s@[j]),
        decreases b - a,
    {
        b -= 1;
    }
    proof {
        let t = s@.skip(a as int);
        assert forall|j: int| (b - a) <= j < t.len() implies is_ws(t[j]) by {
            assert(t[j] == s@[j + a]);
        }
        if b > a {
            assert(t[b - a - 1] == s@[b - 1]);
        }
        lemma_trim_end_take(t, b - a);
        assert(t.take(b - a) =~= s@.subrange(a as int, b as int));
    }
    (a, b)
}

/// `trim(s)` as a new vector.
pub fn trim_chars(s: &[char]) -> (r: Vec<char>)
    ensures
        r@ == trim(s@),
{
    let (a, b) = trim_bounds(s);
    slice_of(s, a, b)
}

/// `trim(s)` as a `String`.
pub fn trim_string(s: &[char]) -> (r: String)
    ensures
        r@ == trim(s@),
{
    let t = trim_chars(s);
    string_of(&t)
}

/// Whether `s` is empty once trimmed.
pub fn trims_to_empty(s: &[char]) -> (b: bool)
    ensures
        b == (trim(s@).len() == 0),
{
    let (a, b) = trim_bounds(s);
    a == b
}

/// `s` without its trailing whitespace (`str::trim_end`).
pub fn trim_end_chars(s: &[char]) -> (r: Vec<char>)
    ensures
        r@ == trim_end(s@),
{
    let mut b: usize = s.len();
    while b > 0 && is_ws_char(s[b - 1])
        invariant
            b <= s@.len(),
            forall|j: int| b <= j < s@.len() ==> is_ws(s@[j]),
        decreases b,
    {
        b -= 1;
    }
    proof {
        lemma_trim_end_take(s@, b as int);
    }
    slice_of(s, 0, b)
}

// ───────────────────────── searching ─────────────────────────

/// Index of the first `c` in `s`.
pub open spec fn find_char(s: Seq<char>, c: char) -> Option<int>
    decreases s.len(),
{
    if s.len() == 0 {
        None
    } else if s[0] == c {
        Some(0)
    } else {
        match find_char(s.drop_first(), c) {
            Some(i) => Some(i + 1),
            None => None,
        }
    }
}

pub proof fn lemma_find_char_at(s: Seq<char>, c: char, k: int)
    requires
        0 <= k <= s.len(),
        forall|j: int| 0 <= j < k ==> s[j] != c,
    ensures
        k < s.len() && s[k] == c ==> find_char(s, c) == Some(k),
        k == s.len() ==> find_char(s, c) is None,
    decreases k,
{
    if k > 0 {
        lemma_find_char_at(s.drop_first(), c, k - 1);
    }
}

pub proof fn lemma_find_char_props(s: Seq<char>, c: char)
    ensures
        find_char(s, c) matches Some(i) ==> 0 <= i < s.len() && s[i] == c && forall|j: int|
            0 <= j < i ==> s[j] != c,
        find_char(s, c) is None ==> forall|j: int| 0 <= j < s.len() ==> s[j] != c,
    decreases s.len(),
{
    if s.len() > 0 && s[0] != c {
        lemma_find_char_props(s.drop_first(), c);
        if let Some(i) = find_char(s, c) {
            assert forall|j: int| 0 <= j < i implies s[j] != c by {
                if j > 0 {
                    assert(s[j] == s.drop_first()[j - 1]);
                }
            }
        } else {
            assert forall|j: int| 0 <= j < s.len() implies s[j] != c by {
                if j > 0 {
                    assert(s[j] == s.drop_first()[j - 1]);
                }
            }
        }
    }
}

/// Index of the first `c` in `s[from..]`, counted from the start of `s`, or
/// `s.len()` when there is none.
pub fn find_from(s: &[char], c: char, from: usize) -> (j: usize)
    requires
        from <= s@.len(),
    ensures
        from <= j <= s@.len(),
        forall|k: int| from <= k < j ==> s@[k] != c,
        j < s@.len() ==> s@[j as int] == c,
        j < s@.len() ==> find_char(s@.skip(from as int), c) == Some(j - from),
        j == s@.len() ==> find_char(s@.skip(from as int), c) is None,
{
    let mut j = from;
    while j < s.len() && s[j] != c
        invariant
            from <= j <= s@.len(),
            forall|k: int| from <= k < j ==> s@[k] != c,
        decreases s@.len() - j,
    {
        j += 1;
    }
    proof {
        let t = s@.skip(from as int);
        assert forall|k: int| 0 <= k < j - from implies t[k] != c by {
            assert(t[k] == s@[k + from]);
        }
        if j < s@.len() {
            assert(t[j - from] == s@[j as int]);
        }
        lemma_find_char_at(t, c, j - from);
    }
    j
}

/// Whether `c` occurs in `s`.
pub fn has_char(s: &[char], c: char) -> (b: bool)
    ensures
        b == s@.contains(c),
{
    let j = find_from(s, c, 0);
    proof {
        assert(s@.skip(0) =~= s@);
        if j < s@.len() {
            assert(s@[j as int] == c);
        }
    }
    j < s.len()
}

/// `s` begins with `p` (`str::starts_with`).
pub open spec fn starts_with(s: Seq<char>, p: Seq<char>) -> bool {
    p.len() <= s.len() && s.take(p.len() as int) == p
}

/// `s` ends with `p` (`str::ends_with`).
pub open spec fn ends_with(s: Seq<char>, p: Seq<char>) -> bool {
    p.len() <= s.len() && s.skip(s.len() - p.len()) == p
}

/// `p` occurs somewhere in `s` (`str::contains`).
pub open spec fn contains_seq(s: Seq<char>, p: Seq<char>) -> bool {
    exists|i: int| 0 <= i && i + p.len() <= s.len() && #[trigger] s.subrange(i, i + p.len()) == p
}

/// Whether `p` occurs in `s` at position `at`.
pub fn occurs_at(s: &[char], p: &[char], at: usize) -> (b: bool)
    requires
        at <= s@.len(),
    ensures
        b == (at + p@.len() <= s@.len() && s@.subrange(at as int, at + p@.len()) == p@),
{
    if p.len() > s.len() - at {
        return false;
    }
    let mut i: usize = 0;
    while i < p.len()
        invariant
            at + p@.len() <= s@.len(),
            s@.len() <= usize::MAX,
            i <= p@.len(),
            forall|k: int| 0 <= k < i ==> s@[at + k] == p@[k],
        decreases p@.len() - i,
    {
        if s[at + i] != p[i] {
            assert(s@.subrange(at as int, at + p@.len())[i as int] == s@[at + i]);
            return false;
        }
        i += 1;
    }
    assert(s@.subrange(at as int, at + p@.len()) =~= p@);
    true
}

pub fn starts_with_chars(s: &[char], p: &[char]) -> (b: bool)
    ensures
        b == starts_with(s@, p@),
{
    let b = occurs_at(s, p, 0);
    proof {
        if p@.len() <= s@.len() {
            assert(s@.subrange(0, p@.len() as int) =~= s@.take(p@.len() as int));
        }
    }
    b
}

pub fn ends_with_chars(s: &[char], p: &[char]) -> (b: bool)
    ensures
        b == ends_with(s@, p@),
{
    if p.len() > s.len() {
        return false;
    }
    let b = occurs_at(s, p, s.len() - p.len());
    proof {
        assert(s@.subrange(s@.len() - p@.len(), s@.len() as int) =~= s@.skip(
            s@.len() - p@.len(),
        ));
    }
    b
}

/// `str::starts_with` on a string and a literal.
pub fn str_starts_with(s: &[char], p: &str) -> (b: bool)
    ensures
        b == starts_with(s@, p@),
{
    let pc = chars_of(p);
    starts_with_chars(s, &pc)
}

/// `str::ends_with` on a string and a literal.
pub fn str_ends_with(s: &[char], p: &str) -> (b: bool)
    ensures
        b == ends_with(s@, p@),
{
    let pc = chars_of(p);
    ends_with_chars(s, &pc)
}

/// Equality of a string and a literal.
pub fn str_eq(s: &[char], p: &str) -> (b: bool)
    ensures
        b == (s@ == p@),
{
    let pc = chars_of(p);
    chars_eq(s, &pc)
}

pub fn contains_chars(s: &[char], p: &[char]) -> (b: bool)
    ensures
        b == contains_seq(s@, p@),
{
    let mut i: usize = 0;
    loop
        invariant
            i <= s@.len(),
            forall|k: int|
                0 <= k < i && k + p@.len() <= s@.len() ==> #[trigger] s@.subrange(k, k + p@.len())
                    != p@,
        decreases s@.len() - i,
    {
        if occurs_at(s, p, i) {
            return true;
        }
        if i == s.len() {
            return false;
        }
        i += 1;
    }
}

/// `str::contains` on a string and a literal.
pub fn str_contains(s: &[char], p: &str) -> (b: bool)
    ensures
        b == contains_seq(s@, p@),
{
    let pc = chars_of(p);
    contains_chars(s, &pc)
}

/// `s` with the prefix `p` removed (`str::strip_prefix`).
pub open spec fn strip_prefix(s: Seq<char>, p: Seq<char>) -> Option<Seq<char>> {
    if starts_with(s, p) {
        Some(s.skip(p.len() as int))
    } else {
        None
    }
}

pub fn strip_prefix_str(s: &[char], p: &str) -> (r: Option<Vec<char>>)
    ensures
        r.deep_view() == strip_prefix(s@, p@),
{
    let pc = chars_of(p);
    if starts_with_chars(s, &pc) {
        Some(slice_of(s, pc.len(), s.len()))
    } else {
        None
    }
}

// ───────────────────────── splitting ─────────────────────────

/// `str::split_once(c)`: the parts before and after the first `c`.
pub open spec fn split_once(s: Seq<char>, c: char) -> Option<(Seq<char>, Seq<char>)> {
    match find_char(s, c) {
        Some(i) => Some((s.take(i), s.skip(i + 1))),
        None => None,
    }
}

pub fn split_once_chars(s: &[char], c: char) -> (r: Option<(Vec<char>, Vec<char>)>)
    ensures
        r.deep_view() == split_once(s@, c),
{
    let j = find_from(s, c, 0);
    proof {
        assert(s@.skip(0) =~= s@);
    }
    if j < s.len() {
        Some((slice_of(s, 0, j), slice_of(s, j + 1, s.len())))
    } else {
        None
    }
}

/// A line without its `\r` terminator.
pub open spec fn strip_cr(t: Seq<char>) -> Seq<char> {
    if t.len() > 0 && t.last() == '\r' {
        t.drop_last()
    } else {
        t
    }
}

/// `str::lines`: pieces ended by `\n` (a `\r` right before that `\n` is
/// dropped too); a last piece without `\n` is kept as it is, and no empty
/// piece follows a final `\n`.
pub open spec fn lines(s: Seq<char>) -> Seq<Seq<char>>
    decreases s.len(),
{
    if s.len() == 0 {
        Seq::empty()
    } else {
        match find_char(s, '\n') {
            Some(i) => {
                if 0 <= i < s.len() {
                    seq![strip_cr(s.take(i))] + lines(s.skip(i + 1))
                } else {
                    seq![s]
                }
            },
            None => seq![s],
        }
    }
}

/// The lines of `s`, as `str::lines` splits them.
pub fn lines_of(s: &[char]) -> (r: Vec<Vec<char>>)
    ensures
        r.deep_view() == lines(s@),
{
    let mut r: Vec<Vec<char>> = Vec::new();
    let mut start: usize = 0;
    assert(s@.skip(0) =~= s@);
    while start < s.len()
        invariant
            start <= s@.len(),
            r.deep_view() + lines(s@.skip(start as int)) == lines(s@),
        decreases s@.len() - start,
    {
        let ghost t = s@.skip(start as int);
        let j = find_from(s, '\n', start);
        if j < s.len() {
            let mut line = slice_of(s, start, j);
            if line.len() > 0 && line[line.len() - 1] == '\r' {
                line.pop();
            }
            proof {
                assert(t.take(j - start) =~= s@.subrange(start as int, j as int));
                assert(t.skip(j - start + 1) =~= s@.skip(j + 1));
                assert(line@ == strip_cr(t.take(j - start)));
            }
            let ghost old_r = r.deep_view();
            let ghost old_v = r@;
            let ghost lv = line;
            r.push(line);
            proof {
                lemma_deep_view_push(r, old_v, lv);
                lemma_chars_deep_view(lv);
                assert(r.deep_view() =~= old_r.push(lv@));
                assert(lines(t) == seq![line@] + lines(s@.skip(j + 1)));
                assert(r.deep_view() + lines(s@.skip(j + 1)) =~= old_r + lines(t));
            }
            start = j + 1;
        } else {
            let line = slice_of(s, start, s.len());
            let ghost old_r = r.deep_view();
            let ghost old_v = r@;
            let ghost lv = line;
            proof {
                assert(line@ =~= t);
                assert(lines(t) == seq![t]);
            }
            r.push(line);
            proof {
                lemma_deep_view_push(r, old_v, lv);
                lemma_chars_deep_view(lv);
                assert(r.deep_view() =~= old_r.push(lv@));
                assert(s@.skip(s@.len() as int) =~= Seq::<char>::empty());
                assert(r.deep_view() + lines(s@.skip(s@.len() as int)) =~= old_r + lines(t));
            }
            start = s.len();
        }
    }
    assert(s@.skip(start as int) =~= Seq::<char>::empty());
    assert(r.deep_view() + Seq::<Seq<char>>::empty() =~= r.deep_view());
    r
}

} // verus!

verus! {

// ───────────────────────── tokens ─────────────────────────

/// Length of the run of non-whitespace characters that starts `s`.
pub open spec fn word_len(s: Seq<char>) -> nat
    decreases s.len(),
{
    if s.len() == 0 || is_ws(s[0]) {
        0
    } else {
        1 + word_len(s.drop_first())
    }
}

pub proof fn lemma_word_len(s: Seq<char>)
    ensures
        word_len(s) <= s.len(),
        s.len() > 0 && !is_ws(s[0]) ==> word_len(s) >= 1,
        forall|j: int| 0 <= j < word_len(s) ==> !is_ws(s[j]),
        word_len(s) < s.len() ==> is_ws(s[word_len(s) as int]),
    decreases s.len(),
{
    if s.len() > 0 && !is_ws(s[0]) {
        lemma_word_len(s.drop_first());
        assert forall|j: int| 0 <= j < word_len(s) implies !is_ws(s[j]) by {
            if j > 0 {
                assert(s[j] == s.drop_first()[j - 1]);
            }
        }
        if word_len(s) < s.len() {
            assert(s[word_len(s) as int] == s.drop_first()[word_len(s) - 1]);
        }
    }
}

proof fn lemma_word_len_at(s: Seq<char>, k: int)
    requires
        0 <= k <= s.len(),
        forall|j: int| 0 <= j < k ==> !is_ws(s[j]),
        k == s.len() || is_ws(s[k]),
    ensures
        word_len(s) == k,
    decreases k,
{
    if k > 0 {
        lemma_word_len_at(s.drop_first(), k - 1);
    }
}

/// `str::split_whitespace`: the maximal runs of non-whitespace characters.
pub open spec fn words(s: Seq<char>) -> Seq<Seq<char>>
    decreases s.len(),
{
    if s.len() == 0 {
        Seq::empty()
    } else if is_ws(s[0]) {
        words(s.drop_first())
    } else {
        let k = word_len(s);
        if 1 <= k <= s.len() {
            seq![s.take(k as int)] + words(s.skip(k as int))
        } else {
            seq![s]
        }
    }
}

/// The whitespace-separated tokens of `s`.
pub fn words_of(s: &[char]) -> (r: Vec<Vec<char>>)
    ensures
        r.deep_view() == words(s@),
{
    let mut r: Vec<Vec<char>> = Vec::new();
    let mut i: usize = 0;
    assert(s@.skip(0) =~= s@);
    while i < s.len()
        invariant
            i <= s@.len(),
            r.deep_view() + words(s@.skip(i as int)) == words(s@),
        decreases s@.len() - i,
    {
        let ghost t = s@.skip(i as int);
        if is_ws_char(s[i]) {
            proof {
                assert(t[0] == s@[i as int]);
                assert(t.drop_first() =~= s@.skip(i + 1));
            }
            i += 1;
        } else {
            let mut j = i;
            while j < s.len() && !is_ws_char(s[j])
                invariant
                    i <= j <= s@.len(),
                    forall|k: int| i <= k < j ==> !is_ws(s@[k]),
                decreases s@.len() - j,
            {
                j += 1;
            }
            let w = slice_of(s, i, j);
            proof {
                assert forall|k: int| 0 <= k < j - i implies !is_ws(t[k]) by {
                    assert(t[k] == s@[k + i]);
                }
                if j < s@.len() {
                    assert(t[j - i] == s@[j as int]);
                }
                lemma_word_len_at(t, j - i);
                assert(t[0] == s@[i as int]);
                assert(t.take(j - i) =~= w@);
                assert(t.skip(j - i) =~= s@.skip(j as int));
            }
            let ghost old_r = r.deep_view();
            let ghost old_v = r@;
            let ghost wv = w;
            r.push(w);
            proof {
                lemma_deep_view_push(r, old_v, wv);
                lemma_chars_deep_view(wv);
                assert(r.deep_view() =~= old_r.push(wv@));
                assert(r.deep_view() + words(s@.skip(j as int)) =~= old_r + words(t));
            }
            i = j;
        }
    }
    assert(s@.skip(i as int) =~= Seq::<char>::empty());
    assert(r.deep_view() + Seq::<Seq<char>>::empty() =~= r.deep_view());
    r
}

/// `str::split(c)`: the pieces between occurrences of `c` (one more piece
/// than there are occurrences).
pub open spec fn split_char(s: Seq<char>, c: char) -> Seq<Seq<char>>
    decreases s.len(),
{
    match find_char(s, c) {
        Some(i) => {
            if 0 <= i < s.len() {
                seq![s.take(i)] + split_char(s.skip(i + 1), c)
            } else {
                seq![s]
            }
        },
        None => seq![s],
    }
}

pub fn split_char_of(s: &[char], c: char) -> (r: Vec<Vec<char>>)
    ensures
        r.deep_view() == split_char(s@, c),
        r@.len() >= 1,
{
    let mut r: Vec<Vec<char>> = Vec::new();
    let mut start: usize = 0;
    assert(s@.skip(0) =~= s@);
    loop
        invariant
            start <= s@.len(),
            r.deep_view() + split_char(s@.skip(start as int), c) == split_char(s@, c),
        decreases s@.len() - start,
    {
        let ghost t = s@.skip(start as int);
        let j = find_from(s, c, start);
        let piece = slice_of(s, start, j);
        let ghost old_r = r.deep_view();
        let ghost old_v = r@;
        let ghost pv = piece;
        r.push(piece);
        proof {
            lemma_deep_view_push(r, old_v, pv);
            lemma_chars_deep_view(pv);
            assert(r.deep_view() =~= old_r.push(pv@));
        }
        if j < s.len() {
            proof {
                assert(t.take(j - start) =~= pv@);
                assert(t.skip(j - start + 1) =~= s@.skip(j + 1));
                assert(r.deep_view() + split_char(s@.skip(j + 1), c) =~= old_r + split_char(
                    t,
                    c,
                ));
            }
            start = j + 1;
        } else {
            proof {
                assert(pv@ =~= t);
                assert(r.deep_view() =~= old_r + split_char(t, c));
            }
            return r;
        }
    }
}

/// Each piece trimmed.
pub open spec fn trim_each(ps: Seq<Seq<char>>) -> Seq<Seq<char>> {
    ps.map_values(|p: Seq<char>| trim(p))
}

/// `s.split(c).map(str::trim)`.
pub fn split_trimmed(s: &[char], c: char) -> (r: Vec<Vec<char>>)
    ensures
        r.deep_view() == trim_each(split_char(s@, c)),
        r@.len() >= 1,
{
    let parts = split_char_of(s, c);
    let ghost pv = parts.deep_view();
    let mut r: Vec<Vec<char>> = Vec::new();
    let mut i: usize = 0;
    while i < parts.len()
        invariant
            i <= parts@.len(),
            pv == parts.deep_view(),
            pv.len() == parts@.len(),
            r.deep_view() =~= trim_each(pv.take(i as int)),
        decreases parts@.len() - i,
    {
        let t = trim_chars(&parts[i]);
        let ghost old_v = r@;
        let ghost tv = t;
        r.push(t);
        proof {
            lemma_deep_view_push(r, old_v, tv);
            lemma_chars_deep_view(tv);
            assert(pv[i as int] == parts@[i as int]@);
            assert(trim_each(pv.take(i + 1)) =~= trim_each(pv.take(i as int)).push(trim(pv[i as int])));
        }
        i += 1;
    }
    assert(pv.take(parts@.len() as int) =~= pv);
    r
}

/// Pieces of `s` joined with `sep` between them.
pub open spec fn join(parts: Seq<Seq<char>>, sep: Seq<char>) -> Seq<char>
    decreases parts.len(),
{
    if parts.len() == 0 {
        Seq::empty()
    } else if parts.len() == 1 {
        parts[0]
    } else {
        join(parts.drop_last(), sep) + sep + parts.last()
    }
}

pub fn join_of(parts: &Vec<Vec<char>>, sep: &str) -> (r: Vec<char>)
    ensures
        r@ == join(parts.deep_view(), sep@),
{
    let sepc = chars_of(sep);
    let mut r: Vec<char> = Vec::new();
    let mut i: usize = 0;
    while i < parts.len()
        invariant
            i <= parts@.len(),
            sepc@ == sep@,
            r@ == join(parts.deep_view().take(i as int), sep@),
        decreases parts@.len() - i,
    {
        proof {
            lemma_chars_deep_view(parts@[i as int]);
        }
        if i > 0 {
            push_all(&mut r, &sepc);
        }
        push_all(&mut r, &parts[i]);
        proof {
            let dv = parts.deep_view();
            assert(dv.take(i + 1).drop_last() =~= dv.take(i as int));
            assert(dv.take(i + 1).last() == parts@[i as int]@);
            if i == 0 {
                assert(r@ =~= dv.take(1)[0]);
            }
        }
        i += 1;
    }
    assert(parts.deep_view().take(parts@.len() as int) =~= parts.deep_view());
    r
}

// ───────────────────────── decimal numbers ─────────────────────────

pub open spec fn is_digit(c: char) -> bool {
    48 <= (c as u32) <= 57
}

pub open spec fn all_digits(s: Seq<char>) -> bool {
    forall|i: int| 0 <= i < s.len() ==> is_digit(#[trigger] s[i])
}

pub open spec fn digit_val(c: char) -> nat {
    ((c as u32) - 48) as nat
}

/// Value of a string of decimal digits.
pub open spec fn digits_val(s: Seq<char>) -> nat
    decreases s.len(),
{
    if s.len() == 0 {
        0
    } else {
        digits_val(s.drop_last()) * 10 + digit_val(s.last())
    }
}

/// The digits part of an unsigned number: `s` without one leading `+`.
pub open spec fn unsigned_digits(s: Seq<char>) -> Seq<char> {
    if s.len() > 0 && s[0] == '+' {
        s.drop_first()
    } else {
        s
    }
}

/// `str::parse` for an unsigned integer type whose largest value is `max`:
/// an optional `+`, then one or more decimal digits whose value fits.
pub open spec fn parse_uint(s: Seq<char>, max: nat) -> Option<nat> {
    let d = unsigned_digits(s);
    if d.len() > 0 && all_digits(d) && digits_val(d) <= max {
        Some(digits_val(d))
    } else {
        None
    }
}

pub open spec fn parse_u64_spec(s: Seq<char>) -> Option<u64> {
    match parse_uint(s, u64::MAX as nat) {
        Some(v) => Some(v as u64),
        None => None,
    }
}

pub open spec fn parse_u32_spec(s: Seq<char>) -> Option<u32> {
    match parse_uint(s, u32::MAX as nat) {
        Some(v) => Some(v as u32),
        None => None,
    }
}

pub open spec fn parse_u8_spec(s: Seq<char>) -> Option<u8> {
    match parse_uint(s, u8::MAX as nat) {
        Some(v) => Some(v as u8),
        None => None,
    }
}

pub open spec fn parse_u16_spec(s: Seq<char>) -> Option<u16> {
    match parse_uint(s, u16::MAX as nat) {
        Some(v) => Some(v as u16),
        None => None,
    }
}

pub fn is_digit_char(c: char) -> (b: bool)
    ensures
        b == is_digit(c),
{
    let u = c as u32;
    48 <= u && u <= 57
}

pub fn all_digits_of(s: &[char]) -> (b: bool)
    ensures
        b == all_digits(s@),
{
    let mut i: usize = 0;
    while i < s.len()
        invariant
            i <= s@.len(),
            forall|k: int| 0 <= k < i ==> is_digit(#[trigger] s@[k]),
        decreases s@.len() - i,
    {
        if !is_digit_char(s[i]) {
            return false;
        }
        i += 1;
    }
    true
}

proof fn lemma_digits_val_prefix(s: Seq<char>, i: int)
    requires
        0 <= i < s.len(),
    ensures
        digits_val(s.take(i + 1)) == digits_val(s.take(i)) * 10 + digit_val(s[i]),
{
    assert(s.take(i + 1).drop_last() =~= s.take(i));
}

proof fn lemma_digits_val_mono(s: Seq<char>, i: int)
    requires
        0 <= i <= s.len(),
        all_digits(s),
    ensures
        digits_val(s.take(i)) <= digits_val(s),
    decreases s.len() - i,
{
    if i < s.len() {
        lemma_digits_val_prefix(s, i);
        lemma_digits_val_mono(s, i + 1);
    } else {
        assert(s.take(i) =~= s);
    }
}

/// `str::parse::<u64>`.
pub fn parse_u64(s: &[char]) -> (r: Option<u64>)
    ensures
        r == parse_u64_spec(s@),
{
    let start: usize = if s.len() > 0 && s[0] == '+' {
        1
    } else {
        0
    };
    let ghost d = s@.skip(start as int);
    proof {
        if start == 1 {
            assert(d =~= s@.drop_first());
        } else {
            assert(d =~= s@);
        }
        assert(d == unsigned_digits(s@));
    }
    if start == s.len() {
        return None;
    }
    let mut v: u64 = 0;
    let mut i = start;
    while i < s.len()
        invariant
            start <= i <= s@.len(),
            d == s@.skip(start as int),
            d == unsigned_digits(s@),
            forall|k: int| 0 <= k < i - start ==> is_digit(#[trigger] d[k]),
            v as nat == digits_val(d.take(i - start)),
        decreases s@.len() - i,
    {
        if !is_digit_char(s[i]) {
            assert(d[i - start] == s@[i as int]);
            assert(!is_digit(d[i - start]));
            assert(!all_digits(d));
            assert(parse_uint(s@, u64::MAX as nat) is None);
            return None;
        }
        let dig = (s[i] as u32 - 48) as u64;
        proof {
            assert(d[i - start] == s@[i as int]);
            assert(dig == digit_val(d[i - start]));
            lemma_digits_val_prefix(d, i - start);
        }
        if v > (u64::MAX - dig) / 10 {
            proof {
                assert(v * 10 + dig > u64::MAX) by (nonlinear_arith)
                    requires
                        v > (u64::MAX - dig) / 10,
                        dig <= 9,
                ;
                if all_digits(d) {
                    lemma_digits_val_mono(d, i - start + 1);
                }
                assert(parse_uint(s@, u64::MAX as nat) is None);
            }
            return None;
        }
        v = v * 10 + dig;
        i += 1;
    }
    assert(d.take(i - start) =~= d);
    Some(v)
}

pub fn parse_u32(s: &[char]) -> (r: Option<u32>)
    ensures
        r == parse_u32_spec(s@),
{
    match parse_u64(s) {
        Some(v) => {
            if v <= u32::MAX as u64 {
                Some(v as u32)
            } else {
                None
            }
        },
        None => None,
    }
}

pub fn parse_u8(s: &[char]) -> (r: Option<u8>)
    ensures
        r == parse_u8_spec(s@),
{
    match parse_u64(s) {
        Some(v) => {
            if v <= u8::MAX as u64 {
                Some(v as u8)
            } else {
                None
            }
        },
        None => None,
    }
}

pub fn parse_u16(s: &[char]) -> (r: Option<u16>)
    ensures
        r == parse_u16_spec(s@),
{
    match parse_u64(s) {
        Some(v) => {
            if v <= u16::MAX as u64 {
                Some(v as u16)
            } else {
                None
            }
        },
        None => None,
    }
}

pub open spec fn digit_char(d: nat) -> char {
    (d + 48) as char
}

/// Decimal digits of `n`, as `{}` prints an unsigned integer.
pub open spec fn dec(n: nat) -> Seq<char>
    decreases n,
{
    if n < 10 {
        seq![digit_char(n)]
    } else {
        dec(n / 10).push(digit_char(n % 10))
    }
}

/// Decimal digits of `n`, left-padded with `0` to `width` characters.
pub open spec fn dec_pad(n: nat, width: nat) -> Seq<char> {
    let d = dec(n);
    if d.len() < width {
        Seq::new((width - d.len()) as nat, |i: int| '0') + d
    } else {
        d
    }
}

pub fn dec_u64(n: u64) -> (r: Vec<char>)
    ensures
        r@ == dec(n as nat),
    decreases n,
{
    if n < 10 {
        let c = ((n as u8) + 48) as char;
        let mut r = Vec::new();
        r.push(c);
        assert(r@ =~= seq![digit_char(n as nat)]);
        r
    } else {
        let mut r = dec_u64(n / 10);
        let c = (((n % 10) as u8) + 48) as char;
        r.push(c);
        r
    }
}

pub fn dec_pad_u64(n: u64, width: usize) -> (r: Vec<char>)
    ensures
        r@ == dec_pad(n as nat, width as nat),
{
    let d = dec_u64(n);
    if d.len() < width {
        let mut r: Vec<char> = Vec::new();
        let mut i: usize = 0;
        while i < width - d.len()
            invariant
                d@.len() < width,
                i <= width - d@.len(),
                r@ == Seq::new(i as nat, |k: int| '0'),
            decreases width - d@.len() - i,
        {
            r.push('0');
            i += 1;
            assert(r@ =~= Seq::new(i as nat, |k: int| '0'));
        }
        push_all(&mut r, &d);
        r
    } else {
        d
    }
}

/// `n` printed in decimal, as a `String`.
pub fn dec_string(n: u64) -> (r: String)
    ensures
        r@ == dec(n as nat),
{
    let d = dec_u64(n);
    string_of(&d)
}

pub proof fn lemma_dec_digits(n: nat)
    ensures
        all_digits(dec(n)),
        dec(n).len() > 0,
        digits_val(dec(n)) == n,
    decreases n,
{
    assert(digit_val(digit_char(n % 10)) == n % 10);
    if n >= 10 {
        lemma_dec_digits(n / 10);
        assert(dec(n).drop_last() =~= dec(n / 10));
        assert(dec(n).last() == digit_char(n % 10));
        assert(digits_val(dec(n)) == digits_val(dec(n).drop_last()) * 10 + digit_val(
            dec(n).last(),
        ));
        assert(digits_val(dec(n)) == digits_val(dec(n / 10)) * 10 + n % 10);
        assert(n == (n / 10) * 10 + n % 10);
    } else {
        assert(dec(n).drop_last() =~= Seq::<char>::empty());
        assert(dec(n).last() == digit_char(n));
        assert(n % 10 == n);
        assert(digits_val(dec(n)) == digits_val(dec(n).drop_last()) * 10 + digit_val(
            dec(n).last(),
        ));
    }
}

/// Printing an unsigned number in decimal and parsing the text back gives
/// the number again.
pub proof fn lemma_parse_dec_roundtrip(n: u64)
    ensures
        parse_u64_spec(dec(n as nat)) == Some(n),
{
    lemma_dec_digits(n as nat);
    assert(dec(n as nat)[0] != '+');
}

// ───────────────────────── letter case ─────────────────────────

/// `char::to_ascii_lowercase`.
pub open spec fn ascii_lower(c: char) -> char {
    if 65 <= (c as u32) <= 90 {
        ((c as u32) + 32) as char
    } else {
        c
    }
}

/// `str::to_ascii_lowercase`.
pub open spec fn ascii_lower_seq(s: Seq<char>) -> Seq<char> {
    Seq::new(s.len(), |i: int| ascii_lower(s[i]))
}

pub fn ascii_lower_of(s: &[char]) -> (r: Vec<char>)
    ensures
        r@ == ascii_lower_seq(s@),
{
    let mut r: Vec<char> = Vec::new();
    let mut i: usize = 0;
    while i < s.len()
        invariant
            i <= s@.len(),
            r@ == Seq::new(i as nat, |k: int| ascii_lower(s@[k])),
        decreases s@.len() - i,
    {
        let c = s[i];
        let u = c as u32;
        let l = if 65 <= u && u <= 90 {
            ((u as u8) + 32) as char
        } else {
            c
        };
        r.push(l);
        i += 1;
        assert(r@ =~= Seq::new(i as nat, |k: int| ascii_lower(s@[k])));
    }
    r
}

/// What `str::to_lowercase` returns for a string (full Unicode case mapping).
pub uninterp spec fn lowercase(s: Seq<char>) -> Seq<char>;

/// What `str::to_uppercase` returns for a string (full Unicode case mapping).
pub uninterp spec fn uppercase(s: Seq<char>) -> Seq<char>;

/// std's `str::to_lowercase`; the contract names its result `lowercase`,
/// which depends on the characters alone.
#[verifier::external_body]
pub(crate) fn to_lowercase(s: &[char]) -> (r: Vec<char>)
    ensures
        r@ == lowercase(s@),
{
    let st: String = s.iter().collect();
    st.to_lowercase().chars().collect()
}

/// std's `str::to_uppercase`; the contract names its result `uppercase`,
/// which depends on the characters alone.
#[verifier::external_body]
pub(crate) fn to_uppercase(s: &[char]) -> (r: Vec<char>)
    ensures
        r@ == uppercase(s@),
{
    let st: String = s.iter().collect();
    st.to_uppercase().chars().collect()
}

/// Each line paired with its lower-cased form.
pub open spec fn lowered_rows(ls: Seq<Seq<char>>) -> Seq<(Seq<char>, Seq<char>)> {
    ls.map_values(|l: Seq<char>| (l, lowercase(l)))
}

/// The lines of `text`, each with its lower-cased form.
pub fn lowered_rows_of(text: &str) -> (r: Vec<(String, String)>)
    ensures
        r.deep_view() == lowered_rows(lines(text@)),
{
    let ls = lines_of(&chars_of(text));
    let ghost lv = ls.deep_view();
    let mut r: Vec<(String, String)> = Vec::new();
    let mut i: usize = 0;
    while i < ls.len()
        invariant
            i <= ls@.len(),
            lv == ls.deep_view(),
            r.deep_view() =~= lowered_rows(lv.take(i as int)),
        decreases ls@.len() - i,
    {
        let low = to_lowercase(&ls[i]);
        let row = (string_of(&ls[i]), string_of(&low));
        let ghost old_v = r@;
        let ghost rw = row;
        r.push(row);
        proof {
            lemma_deep_view_push(r, old_v, rw);
            assert(lv[i as int] == ls@[i as int]@);
            assert(lowered_rows(lv.take(i + 1)) =~= lowered_rows(lv.take(i as int)).push(
                (lv[i as int], lowercase(lv[i as int])),
            ));
        }
        i += 1;
    }
    assert(lv.take(ls@.len() as int) =~= lv);
    r
}

/// A line followed by a newline is the first of `str::lines`.
pub proof fn lemma_lines_cons(x: Seq<char>, rest: Seq<char>)
    requires
        forall|i: int| 0 <= i < x.len() ==> x[i] != '\n',
    ensures
        lines(x + seq!['\n'] + rest) == seq![strip_cr(x)] + lines(rest),
{
    let s = x + seq!['\n'] + rest;
    lemma_find_char_at(s, '\n', x.len() as int);
    assert(s.take(x.len() as int) =~= x);
    assert(s.skip(x.len() as int + 1) =~= rest);
}

/// The tokens of `str::split_whitespace` hold no whitespace.
pub proof fn lemma_words_no_ws(s: Seq<char>)
    ensures
        forall|k: int, i: int|
            0 <= k < words(s).len() && 0 <= i < words(s)[k].len() ==> !is_ws(
                #[trigger] words(s)[k][i],
            ),
    decreases s.len(),
{
    if s.len() > 0 {
        if is_ws(s[0]) {
            lemma_words_no_ws(s.drop_first());
            assert(words(s) == words(s.drop_first()));
        } else {
            lemma_word_len(s);
            let w = word_len(s);
            if 1 <= w <= s.len() {
                lemma_words_no_ws(s.skip(w as int));
                assert forall|k: int, i: int|
                    0 <= k < words(s).len() && 0 <= i < words(s)[k].len() implies !is_ws(
                    #[trigger] words(s)[k][i],
                ) by {
                    if k == 0 {
                        assert(words(s)[0] == s.take(w as int));
                        assert(s.take(w as int)[i] == s[i]);
                    } else {
                        assert(words(s)[k] == words(s.skip(w as int))[k - 1]);
                    }
                }
            }
        }
    }
}

} // verus!
