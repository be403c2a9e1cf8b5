//! Per-process facts for the task manager: `/proc/<pid>/stat`, `status` and
//! `io`, and the listening ports that `ss -H -tulpn` reports per process.
use vstd::prelude::*;
use crate::blockdev::{field_num, num_or_zero};
use crate::order::{key_of, sort_by_key, sort_ranked, Ranked, SortKey};
use crate::text::{
    chars_of, contains_chars, contains_seq, dec, dec_u64, ends_with, ends_with_chars, find_char,
    is_digit, is_digit_char, join, lemma_chars_deep_view, lemma_deep_view_push, lines, lines_of,
    lowercase, parse_u16, parse_u16_spec, parse_u32, parse_u32_spec, parse_u64, slice_of,
    split_char, split_char_of, strip_prefix, strip_prefix_str, string_of, trim, to_lowercase,
    trim_chars, words, words_of, starts_with, is_ws, lemma_dec_digits, lemma_parse_dec_roundtrip,
    lemma_trim_no_ws, lemma_trim_space_after,
};

verus! {

broadcast use lemma_chars_deep_view;

// ───────────────────────── /proc/<pid>/stat ─────────────────────────

/// Index of the last `c` in `s`.
pub open spec fn rfind_char(s: Seq<char>, c: char) -> Option<int>
    decreases s.len(),
{
    if s.len() == 0 {
        None
    } else if s.last() == c {
        Some(s.len() - 1)
    } else {
        rfind_char(s.drop_last(), c)
    }
}

proof fn lemma_rfind_char_at(s: Seq<char>, c: char, k: int)
    requires
        -1 <= k < s.len(),
        forall|j: int| k < j < s.len() ==> s[j] != c,
        k >= 0 ==> s[k] == c,
    ensures
        k >= 0 ==> rfind_char(s, c) == Some(k),
        k < 0 ==> rfind_char(s, c) is None,
    decreases s.len(),
{
    if s.len() > 0 && s.len() - 1 != k {
        lemma_rfind_char_at(s.drop_last(), c, k);
    }
}

/// How `/proc/<pid>/stat` reads: the command name between the first `(` and
/// the last `)`, and user plus system time (fields 14 and 15), each 0 when
/// it does not parse.
pub enum StatParse {
    Task { name: String, jiffies: u64 },
    /// The text has no `(...)` with something after it: the process is
    /// skipped.
    Skip,
    /// The text cannot be handled: the character after the last `)` is not
    /// ASCII, or the two times add up past `u64::MAX`.
    Invalid,
}

pub ghost enum StatSpec {
    Task { name: Seq<char>, jiffies: nat },
    Skip,
    Invalid,
}

pub open spec fn stat_spec(s: Seq<char>) -> StatSpec {
    match (find_char(s, '('), rfind_char(s, ')')) {
        (Some(l), Some(r)) => {
            if 0 <= l < r && r + 1 < s.len() {
                if (s[r + 1] as u32) >= 128 {
                    StatSpec::Invalid
                } else {
                    let f = words(s.skip(r + 2));
                    let jif = field_num(f, 11) + field_num(f, 12);
                    if jif > u64::MAX {
                        StatSpec::Invalid
                    } else {
                        StatSpec::Task { name: s.subrange(l + 1, r), jiffies: jif as nat }
                    }
                }
            } else {
                StatSpec::Skip
            }
        },
        _ => StatSpec::Skip,
    }
}

impl View for StatParse {
    type V = StatSpec;

    open spec fn view(&self) -> StatSpec {
        match self {
            StatParse::Task { name, jiffies } => StatSpec::Task {
                name: name@,
                jiffies: *jiffies as nat,
            },
            StatParse::Skip => StatSpec::Skip,
            StatParse::Invalid => StatSpec::Invalid,
        }
    }
}

pub fn parse_proc_stat(stat: &str) -> (r: StatParse)
    ensures
        r@ == stat_spec(stat@),
{
    let s = chars_of(stat);
    let l = crate::text::find_from(&s, '(', 0);
    proof {
        assert(s@.skip(0) =~= s@);
    }
    let mut r = s.len();
    while r > 0 && s[r - 1] != ')'
        invariant
            r <= s@.len(),
            forall|j: int| r <= j < s@.len() ==> s@[j] != ')',
        decreases r,
    {
        r -= 1;
    }
    proof {
        lemma_rfind_char_at(s@, ')', r - 1);
    }
    if l >= s.len() || r == 0 {
        return StatParse::Skip;
    }
    let r = r - 1;
    if !(l < r && r + 1 < s.len()) {
        return StatParse::Skip;
    }
    if (s[r + 1] as u32) >= 128 {
        return StatParse::Invalid;
    }
    let rest = slice_of(&s, r + 2, s.len());
    proof {
        assert(rest@ =~= s@.skip(r + 2));
    }
    let f = words_of(&rest);
    let ut = crate::blockdev::field_num_of(&f, 11);
    let st = crate::blockdev::field_num_of(&f, 12);
    match ut.checked_add(st) {
        Some(jif) => {
            let name = slice_of(&s, l + 1, r);
            StatParse::Task { name: string_of(&name), jiffies: jif }
        },
        None => StatParse::Invalid,
    }
}

// ───────────────────────── /proc/<pid>/status ─────────────────────────

/// `s` with every trailing copy of `p` removed (`str::trim_end_matches`).
pub open spec fn strip_all_suffix(s: Seq<char>, p: Seq<char>) -> Seq<char>
    decreases s.len(),
{
    if p.len() > 0 && ends_with(s, p) {
        strip_all_suffix(s.take(s.len() - p.len()), p)
    } else {
        s
    }
}

pub fn strip_all_suffix_of(s: &[char], p: &str) -> (r: Vec<char>)
    ensures
        r@ == strip_all_suffix(s@, p@),
{
    let pc = chars_of(p);
    let mut cur = crate::text::copy_of(s);
    while pc.len() > 0 && ends_with_chars(&cur, &pc)
        invariant
            pc@ == p@,
            strip_all_suffix(cur@, p@) == strip_all_suffix(s@, p@),
        decreases cur@.len(),
    {
        let k = cur.len() - pc.len();
        cur = slice_of(&cur, 0, k);
    }
    cur
}

/// A kB figure of `/proc/<pid>/status`: the text after the field name,
/// trimmed, without its `kB` unit, as a number (0 when it does not parse).
pub open spec fn kb_value(v: Seq<char>) -> u64 {
    num_or_zero(Some(trim(strip_all_suffix(trim(v), "kB"@))))
}

/// `(VmRSS, VmSwap)` in kB after the lines `ls` (the last of each wins).
pub open spec fn mem_after(ls: Seq<Seq<char>>) -> (u64, u64)
    decreases ls.len(),
{
    if ls.len() == 0 {
        (0, 0)
    } else {
        let p = mem_after(ls.drop_last());
        match strip_prefix(ls.last(), "VmRSS:"@) {
            Some(v) => (kb_value(v), p.1),
            None => match strip_prefix(ls.last(), "VmSwap:"@) {
                Some(v) => (p.0, kb_value(v)),
                None => p,
            },
        }
    }
}

/// A kB reading is the number it carries, with or without its ` kB` unit,
/// whatever whitespace surrounds it.
pub proof fn lemma_kb_value_reads(v: Seq<char>, n: u64)
    requires
        trim(v) == dec(n as nat) || trim(v) == dec(n as nat) + " kB"@,
    ensures
        kb_value(v) == n,
{
    reveal_strlit(" kB");
    reveal_strlit("kB");
    let d = dec(n as nat);
    lemma_dec_digits(n as nat);
    lemma_parse_dec_roundtrip(n);
    assert forall|i: int| 0 <= i < d.len() implies !is_ws(#[trigger] d[i]) by {
        assert(is_digit(d[i]));
    }
    assert(!ends_with(d, "kB"@)) by {
        if ends_with(d, "kB"@) {
            assert(d.skip(d.len() - 2)[1] == d[d.len() - 1]);
            assert(is_digit(d[d.len() - 1]));
        }
    }
    if trim(v) == d {
        assert(strip_all_suffix(d, "kB"@) == d);
        lemma_trim_no_ws(d);
    } else {
        let t = d + " kB"@;
        assert(ends_with(t, "kB"@)) by {
            assert(t.skip(t.len() - 2) =~= "kB"@);
        }
        assert(t.take(t.len() - 2) =~= d + seq![' ']);
        let u = d + seq![' '];
        assert(!ends_with(u, "kB"@)) by {
            if ends_with(u, "kB"@) {
                assert(u.skip(u.len() - 2)[1] == u[u.len() - 1]);
            }
        }
        assert(strip_all_suffix(u, "kB"@) == u);
        assert(strip_all_suffix(t, "kB"@) == u);
        lemma_trim_space_after(d);
    }
}

/// A `VmRSS:` line and a `VmSwap:` line are never the same line.
proof fn lemma_rss_not_swap(l: Seq<char>)
    ensures
        !(starts_with(l, "VmRSS:"@) && starts_with(l, "VmSwap:"@)),
{
    reveal_strlit("VmRSS:");
    reveal_strlit("VmSwap:");
    if starts_with(l, "VmRSS:"@) && starts_with(l, "VmSwap:"@) {
        assert(l.take(6)[2] == l[2]);
        assert(l.take(7)[2] == l[2]);
    }
}

/// The memory of a process is read from the last `VmRSS:` line and the last
/// `VmSwap:` line of its `status` file, each on its own: the resident size is
/// the kB value of the last `VmRSS:` line (0 when there is none), and the
/// swapped size is the kB value of the last `VmSwap:` line (0 when there is
/// none), whatever other lines say.
pub proof fn lemma_proc_status_last_lines(ls: Seq<Seq<char>>)
    ensures
        forall|i: int|
            0 <= i < ls.len() && starts_with(ls[i], "VmRSS:"@) && (forall|j: int|
                i < j < ls.len() ==> !starts_with(#[trigger] ls[j], "VmRSS:"@)) ==> mem_after(ls).0
                == kb_value(#[trigger] ls[i].skip(6)),
        forall|i: int|
            0 <= i < ls.len() && starts_with(ls[i], "VmSwap:"@) && (forall|j: int|
                i < j < ls.len() ==> !starts_with(#[trigger] ls[j], "VmSwap:"@)) ==> mem_after(ls).1
                == kb_value(#[trigger] ls[i].skip(7)),
        (forall|j: int| 0 <= j < ls.len() ==> !starts_with(#[trigger] ls[j], "VmRSS:"@))
            ==> mem_after(ls).0 == 0,
        (forall|j: int| 0 <= j < ls.len() ==> !starts_with(#[trigger] ls[j], "VmSwap:"@))
            ==> mem_after(ls).1 == 0,
    decreases ls.len(),
{
    reveal_strlit("VmRSS:");
    reveal_strlit("VmSwap:");
    if ls.len() > 0 {
        let init = ls.drop_last();
        let l = ls.last();
        lemma_proc_status_last_lines(init);
        lemma_rss_not_swap(l);
        assert forall|i: int|
            0 <= i < ls.len() && starts_with(ls[i], "VmRSS:"@) && (forall|j: int|
                i < j < ls.len() ==> !starts_with(#[trigger] ls[j], "VmRSS:"@)) implies mem_after(ls).0
                == kb_value(#[trigger] ls[i].skip(6)) by {
            if i < ls.len() - 1 {
                assert(!starts_with(ls[ls.len() - 1], "VmRSS:"@));
                assert(init[i] == ls[i]);
                assert forall|j: int| i < j < init.len() implies !starts_with(
                    #[trigger] init[j],
                    "VmRSS:"@,
                ) by {
                    assert(init[j] == ls[j]);
                }
            }
        }
        assert forall|i: int|
            0 <= i < ls.len() && starts_with(ls[i], "VmSwap:"@) && (forall|j: int|
                i < j < ls.len() ==> !starts_with(#[trigger] ls[j], "VmSwap:"@)) implies mem_after(ls).1
                == kb_value(#[trigger] ls[i].skip(7)) by {
            if i < ls.len() - 1 {
                assert(!starts_with(ls[ls.len() - 1], "VmSwap:"@));
                assert(init[i] == ls[i]);
                assert forall|j: int| i < j < init.len() implies !starts_with(
                    #[trigger] init[j],
                    "VmSwap:"@,
                ) by {
                    assert(init[j] == ls[j]);
                }
            }
        }
        if forall|j: int| 0 <= j < ls.len() ==> !starts_with(#[trigger] ls[j], "VmRSS:"@) {
            assert(!starts_with(ls[ls.len() - 1], "VmRSS:"@));
            assert forall|j: int| 0 <= j < init.len() implies !starts_with(#[trigger] init[j], "VmRSS:"@) by {
                assert(init[j] == ls[j]);
            }
        }
        if forall|j: int| 0 <= j < ls.len() ==> !starts_with(#[trigger] ls[j], "VmSwap:"@) {
            assert(!starts_with(ls[ls.len() - 1], "VmSwap:"@));
            assert forall|j: int| 0 <= j < init.len() implies !starts_with(#[trigger] init[j], "VmSwap:"@) by {
                assert(init[j] == ls[j]);
            }
        }
    }
}

fn kb_value_of(v: &[char]) -> (n: u64)
    ensures
        n == kb_value(v@),
{
    let t = trim_chars(v);
    let u = strip_all_suffix_of(&t, "kB");
    let w = trim_chars(&u);
    match parse_u64(&w) {
        Some(n) => n,
        None => 0,
    }
}

/// Resident and swapped-out memory in kB from `/proc/<pid>/status`.
pub fn parse_proc_status(status: &str) -> (r: (u64, u64))
    ensures
        r == mem_after(lines(status@)),
{
    let t = chars_of(status);
    let ls = lines_of(&t);
    let ghost lv = ls.deep_view();
    let mut rss: u64 = 0;
    let mut swap: u64 = 0;
    let mut i: usize = 0;
    while i < ls.len()
        invariant
            i <= ls@.len(),
            lv == ls.deep_view(),
            (rss, swap) == mem_after(lv.take(i as int)),
        decreases ls@.len() - i,
    {
        proof {
            assert(lv.take(i + 1).drop_last() =~= lv.take(i as int));
            assert(lv.take(i + 1).last() == ls@[i as int]@);
        }
        match strip_prefix_str(&ls[i], "VmRSS:") {
            Some(v) => {
                rss = kb_value_of(&v);
            },
            None => match strip_prefix_str(&ls[i], "VmSwap:") {
                Some(v) => {
                    swap = kb_value_of(&v);
                },
                None => {},
            },
        }
        i += 1;
    }
    assert(lv.take(ls@.len() as int) =~= lv);
    (rss, swap)
}

// ───────────────────────── /proc/<pid>/io ─────────────────────────

/// Bytes read plus bytes written, over the `read_bytes:` and `write_bytes:`
/// lines of `/proc/<pid>/io` (a value that does not parse counts as 0).
pub open spec fn io_bytes(ls: Seq<Seq<char>>) -> nat
    decreases ls.len(),
{
    if ls.len() == 0 {
        0
    } else {
        let p = io_bytes(ls.drop_last());
        match strip_prefix(ls.last(), "read_bytes:"@) {
            Some(v) => p + num_or_zero(Some(trim(v))) as nat,
            None => match strip_prefix(ls.last(), "write_bytes:"@) {
                Some(v) => p + num_or_zero(Some(trim(v))) as nat,
                None => p,
            },
        }
    }
}

proof fn lemma_io_bytes_mono(ls: Seq<Seq<char>>, k: int)
    requires
        0 <= k <= ls.len(),
    ensures
        io_bytes(ls.take(k)) <= io_bytes(ls),
    decreases ls.len() - k,
{
    if k < ls.len() {
        lemma_io_bytes_mono(ls, k + 1);
        assert(ls.take(k + 1).drop_last() =~= ls.take(k));
    } else {
        assert(ls.take(k) =~= ls);
    }
}

/// Bytes of disk I/O a process has done, from `/proc/<pid>/io`; `None`
/// where the sum passes `u64::MAX`.
pub fn parse_proc_io(io: &str) -> (r: Option<u64>)
    ensures
        match r {
            Some(n) => n == io_bytes(lines(io@)),
            None => io_bytes(lines(io@)) > u64::MAX,
        },
{
    let t = chars_of(io);
    let ls = lines_of(&t);
    let ghost lv = ls.deep_view();
    let mut bytes: u64 = 0;
    let mut i: usize = 0;
    while i < ls.len()
        invariant
            i <= ls@.len(),
            lv == ls.deep_view(),
            lv == lines(io@),
            bytes == io_bytes(lv.take(i as int)),
        decreases ls@.len() - i,
    {
        proof {
            assert(lv.take(i + 1).drop_last() =~= lv.take(i as int));
            assert(lv.take(i + 1).last() == ls@[i as int]@);
        }
        let v = match strip_prefix_str(&ls[i], "read_bytes:") {
            Some(v) => Some(v),
            None => strip_prefix_str(&ls[i], "write_bytes:"),
        };
        match v {
            Some(v) => {
                let n = match parse_u64(&trim_chars(&v)) {
                    Some(n) => n,
                    None => 0,
                };
                match bytes.checked_add(n) {
                    Some(b) => {
                        bytes = b;
                    },
                    None => {
                        proof {
                            lemma_io_bytes_mono(lv, i + 1);
                        }
                        return None;
                    },
                }
            },
            None => {},
        }
        i += 1;
    }
    assert(lv.take(ls@.len() as int) =~= lv);
    Some(bytes)
}

// ───────────────────────── listening ports ─────────────────────────

/// Index of the first occurrence of `p` in `s`.
pub open spec fn find_sub(s: Seq<char>, p: Seq<char>) -> Option<int>
    decreases s.len(),
{
    if s.len() < p.len() {
        None
    } else if s.take(p.len() as int) == p {
        Some(0)
    } else if s.len() == 0 {
        None
    } else {
        match find_sub(s.drop_first(), p) {
            Some(i) => Some(i + 1),
            None => None,
        }
    }
}

/// `str::split` on a non-empty pattern.
pub open spec fn split_pat(s: Seq<char>, p: Seq<char>) -> Seq<Seq<char>>
    decreases s.len(),
{
    if p.len() == 0 {
        seq![s]
    } else {
        match find_sub(s, p) {
            Some(i) => {
                if 0 <= i && i + p.len() <= s.len() {
                    seq![s.take(i)] + split_pat(s.skip(i + p.len()), p)
                } else {
                    seq![s]
                }
            },
            None => seq![s],
        }
    }
}

proof fn lemma_find_sub_at(s: Seq<char>, p: Seq<char>, k: int)
    requires
        p.len() > 0,
        0 <= k,
        forall|j: int| 0 <= j < k && j + p.len() <= s.len() ==> #[trigger] s.subrange(j, j + p.len()) != p,
        k + p.len() <= s.len() ==> s.subrange(k, k + p.len()) == p,
    ensures
        k + p.len() <= s.len() ==> find_sub(s, p) == Some(k),
        k + p.len() > s.len() ==> find_sub(s, p) is None,
    decreases k,
{
    if s.len() < p.len() {
    } else if k == 0 {
        assert(s.subrange(0, p.len() as int) =~= s.take(p.len() as int));
    } else {
        assert(s.subrange(0, p.len() as int) =~= s.take(p.len() as int));
        assert(s.subrange(0int, 0int + p.len()) != p);
        assert(s.take(p.len() as int) != p);
        let t = s.drop_first();
        assert forall|j: int| 0 <= j < k - 1 && j + p.len() <= t.len() implies #[trigger] t.subrange(
            j,
            j + p.len(),
        ) != p by {
            assert(t.subrange(j, j + p.len()) =~= s.subrange(j + 1, j + 1 + p.len()));
        }
        if k + p.len() <= s.len() {
            assert(t.subrange(k - 1, k - 1 + p.len()) =~= s.subrange(k, k + p.len()));
        }
        lemma_find_sub_at(t, p, k - 1);
    }
}

fn split_pat_of(s: &[char], p: &str) -> (r: Vec<Vec<char>>)
    requires
        p@.len() > 0,
    ensures
        r.deep_view() == split_pat(s@, p@),
{
    let pc = chars_of(p);
    let mut r: Vec<Vec<char>> = Vec::new();
    let mut start: usize = 0;
    let mut i: usize = 0;
    let n = s.len();
    assert(s@.skip(0) =~= s@);
    loop
        invariant
            n == s@.len(),
            pc@ == p@,
            pc@.len() > 0,
            start <= i <= s@.len(),
            r.deep_view() + split_pat(s@.skip(start as int), p@) == split_pat(s@, p@),
            forall|j: int|
                start <= j < i && j + p@.len() <= s@.len() ==> #[trigger] s@.subrange(
                    j,
                    j + p@.len(),
                ) != p@,
        decreases s@.len() - start, s@.len() - i,
    {
        let ghost t = s@.skip(start as int);
        if crate::text::occurs_at(s, &pc, i) {
            let piece = slice_of(s, start, i);
            proof {
                assert forall|j: int|
                    0 <= j < i - start && j + p@.len() <= t.len() implies #[trigger] t.subrange(
                    j,
                    j + p@.len(),
                ) != p@ by {
                    assert(t.subrange(j, j + p@.len()) =~= s@.subrange(j + start, j + start
                        + p@.len()));
                }
                assert(t.subrange(i - start, i - start + p@.len()) =~= s@.subrange(
                    i as int,
                    i + p@.len(),
                ));
                lemma_find_sub_at(t, p@, i - start);
                assert(t.take(i - start) =~= piece@);
                assert(t.skip(i - start + p@.len()) =~= s@.skip(i + p@.len()));
            }
            let ghost old_r = r.deep_view();
            let ghost old_v = r@;
            let ghost pv = piece;
            r.push(piece);
            proof {
                lemma_deep_view_push(r, old_v, pv);
                assert(r.deep_view() =~= old_r.push(pv@));
                assert(r.deep_view() + split_pat(s@.skip(i + p@.len()), p@) =~= old_r + split_pat(
                    t,
                    p@,
                ));
            }
            start = i + pc.len();
            i = start;
        } else if pc.len() >= s.len() - i {
            let piece = slice_of(s, start, s.len());
            proof {
                assert forall|j: int|
                    0 <= j && j + p@.len() <= t.len() implies #[trigger] t.subrange(
                    j,
                    j + p@.len(),
                ) != p@ by {
                    assert(t.subrange(j, j + p@.len()) =~= s@.subrange(j + start, j + start
                        + p@.len()));
                    if j + start >= i {
                        assert(j + start == i);
                    }
                }
                let kk = if t.len() + 1 >= p@.len() {
                    t.len() + 1 - p@.len()
                } else {
                    0
                };
                lemma_find_sub_at(t, p@, kk);
                assert(piece@ =~= t);
            }
            let ghost old_r = r.deep_view();
            let ghost old_v = r@;
            let ghost pv = piece;
            r.push(piece);
            proof {
                lemma_deep_view_push(r, old_v, pv);
                assert(r.deep_view() =~= old_r + split_pat(t, p@));
            }
            return r;
        } else {
            i += 1;
        }
    }
}

/// The number made of the decimal digits that start `s`.
pub open spec fn digit_run(s: Seq<char>) -> nat
    decreases s.len(),
{
    if s.len() > 0 && is_digit(s[0]) {
        1 + digit_run(s.drop_first())
    } else {
        0
    }
}

proof fn lemma_digit_run_at(s: Seq<char>, k: int)
    requires
        0 <= k <= s.len(),
        forall|j: int| 0 <= j < k ==> is_digit(s[j]),
        k == s.len() || !is_digit(s[k]),
    ensures
        digit_run(s) == k,
    decreases k,
{
    if k > 0 {
        lemma_digit_run_at(s.drop_first(), k - 1);
    }
}

pub fn digit_prefix(s: &[char]) -> (r: Vec<char>)
    ensures
        r@ == s@.take(digit_run(s@) as int),
{
    let mut k: usize = 0;
    while k < s.len() && is_digit_char(s[k])
        invariant
            k <= s@.len(),
            forall|j: int| 0 <= j < k ==> is_digit(s@[j]),
        decreases s@.len() - k,
    {
        k += 1;
    }
    proof {
        lemma_digit_run_at(s@, k as int);
    }
    slice_of(s, 0, k)
}

/// Listening ports per process id, in order of first appearance.
pub type PortMap = Seq<(u32, Seq<u16>)>;

/// `m` with `port` recorded for `pid` (once).
pub open spec fn add_port(m: PortMap, pid: u32, port: u16) -> PortMap {
    match pid_index(m, pid) {
        Some(i) => {
            if m[i].1.contains(port) {
                m
            } else {
                m.update(i, (pid, m[i].1.push(port)))
            }
        },
        None => m.push((pid, seq![port])),
    }
}

pub open spec fn pid_index(m: PortMap, pid: u32) -> Option<int>
    decreases m.len(),
{
    if m.len() == 0 {
        None
    } else if m.last().0 == pid {
        Some(m.len() - 1)
    } else {
        pid_index(m.drop_last(), pid)
    }
}

/// The process ids after each `pid=` of a line.
pub open spec fn line_pids(pieces: Seq<Seq<char>>) -> Seq<u32>
    decreases pieces.len(),
{
    if pieces.len() == 0 {
        Seq::empty()
    } else {
        let rest = line_pids(pieces.drop_last());
        match parse_u32_spec(pieces.last().take(digit_run(pieces.last()) as int)) {
            Some(p) => rest.push(p),
            None => rest,
        }
    }
}

pub open spec fn add_all(m: PortMap, pids: Seq<u32>, port: u16) -> PortMap
    decreases pids.len(),
{
    if pids.len() == 0 {
        m
    } else {
        add_port(add_all(m, pids.drop_last(), port), pids.last(), port)
    }
}

/// The port of an `ss -H -tulpn` line: the text after the last `:` of its
/// fifth field.
pub open spec fn line_port(f: Seq<Seq<char>>) -> Option<u16> {
    if f.len() < 5 {
        None
    } else {
        let pieces = split_char(f[4], ':');
        parse_u16_spec(pieces.last())
    }
}

/// The port map after the lines `ls`.
pub open spec fn ports_after(ls: Seq<Seq<char>>) -> PortMap
    decreases ls.len(),
{
    if ls.len() == 0 {
        Seq::empty()
    } else {
        let m = ports_after(ls.drop_last());
        let line = ls.last();
        match line_port(words(line)) {
            Some(port) => add_all(m, line_pids(split_pat(line, "pid="@).drop_first()), port),
            None => m,
        }
    }
}

proof fn lemma_pid_index(m: PortMap, pid: u32)
    ensures
        pid_index(m, pid) matches Some(i) ==> 0 <= i < m.len() && m[i].0 == pid,
    decreases m.len(),
{
    if m.len() > 0 && m.last().0 != pid {
        lemma_pid_index(m.drop_last(), pid);
    }
}

/// The port map records `port` for process `pid`.
pub open spec fn has_port(m: PortMap, pid: u32, port: u16) -> bool {
    match pid_index(m, pid) {
        Some(i) => m[i].1.contains(port),
        None => false,
    }
}

proof fn lemma_pid_index_update(m: PortMap, i: int, ports: Seq<u16>, q: u32)
    requires
        0 <= i < m.len(),
    ensures
        pid_index(m.update(i, (m[i].0, ports)), q) == pid_index(m, q),
    decreases m.len(),
{
    let m2 = m.update(i, (m[i].0, ports));
    if i < m.len() - 1 {
        assert(m2.last() == m.last());
        if m.last().0 != q {
            assert(m2.drop_last() =~= m.drop_last().update(i, (m[i].0, ports)));
            lemma_pid_index_update(m.drop_last(), i, ports, q);
        }
    } else {
        assert(m2.drop_last() =~= m.drop_last());
    }
}

proof fn lemma_pid_index_push(m: PortMap, e: (u32, Seq<u16>), q: u32)
    ensures
        pid_index(m.push(e), q) == if q == e.0 {
            Some(m.len() as int)
        } else {
            pid_index(m, q)
        },
{
    assert(m.push(e).drop_last() =~= m);
}

/// Adding a port keeps every port already recorded and records the new one.
proof fn lemma_add_port(m: PortMap, pid: u32, port: u16)
    ensures
        has_port(add_port(m, pid, port), pid, port),
        forall|q: u32, p: u16| has_port(m, q, p) ==> #[trigger] has_port(add_port(m, pid, port), q, p),
{
    lemma_pid_index(m, pid);
    match pid_index(m, pid) {
        Some(i) => {
            if !m[i].1.contains(port) {
                let m2 = m.update(i, (pid, m[i].1.push(port)));
                assert(m2[i].1.contains(port)) by {
                    assert(m2[i].1[m[i].1.len() as int] == port);
                }
                lemma_pid_index_update(m, i, m[i].1.push(port), pid);
                assert forall|q: u32, p: u16| has_port(m, q, p) implies #[trigger] has_port(
                    m2,
                    q,
                    p,
                ) by {
                    lemma_pid_index_update(m, i, m[i].1.push(port), q);
                    lemma_pid_index(m, q);
                    let j = pid_index(m, q)->Some_0;
                    if j == i {
                        let k = choose|k: int| 0 <= k < m[i].1.len() && m[i].1[k] == p;
                        assert(m2[i].1[k] == p);
                    }
                }
            }
        },
        None => {
            let m2 = m.push((pid, seq![port]));
            lemma_pid_index_push(m, (pid, seq![port]), pid);
            assert(m2[m.len() as int].1[0] == port);
            assert forall|q: u32, p: u16| has_port(m, q, p) implies #[trigger] has_port(m2, q, p) by {
                lemma_pid_index_push(m, (pid, seq![port]), q);
                lemma_pid_index(m, q);
            }
        },
    }
}

proof fn lemma_add_all(m: PortMap, pids: Seq<u32>, port: u16)
    ensures
        forall|k: int| 0 <= k < pids.len() ==> has_port(add_all(m, pids, port), #[trigger] pids[k], port),
        forall|q: u32, p: u16| has_port(m, q, p) ==> #[trigger] has_port(add_all(m, pids, port), q, p),
    decreases pids.len(),
{
    if pids.len() > 0 {
        let a = add_all(m, pids.drop_last(), port);
        lemma_add_all(m, pids.drop_last(), port);
        lemma_add_port(a, pids.last(), port);
        assert forall|k: int| 0 <= k < pids.len() implies has_port(
            add_all(m, pids, port),
            #[trigger] pids[k],
            port,
        ) by {
            if k < pids.len() - 1 {
                assert(pids.drop_last()[k] == pids[k]);
                assert(has_port(a, pids[k], port));
            }
        }
    }
}

/// Every process that `ss` names on a listening line (each `pid=` of the
/// line, not just the first) is recorded as listening on that line's port,
/// and no later line takes the port away again.
pub proof fn lemma_listening_ports_complete(ls: Seq<Seq<char>>, i: int, k: int, port: u16)
    requires
        0 <= i < ls.len(),
        line_port(words(ls[i])) == Some(port),
        0 <= k < line_pids(split_pat(ls[i], "pid="@).drop_first()).len(),
    ensures
        has_port(ports_after(ls), line_pids(split_pat(ls[i], "pid="@).drop_first())[k], port),
    decreases ls.len(),
{
    let init = ls.drop_last();
    let pids_i = line_pids(split_pat(ls[i], "pid="@).drop_first());
    if i == ls.len() - 1 {
        lemma_add_all(ports_after(init), pids_i, port);
    } else {
        assert(init[i] == ls[i]);
        lemma_listening_ports_complete(init, i, k, port);
        let line = ls.last();
        match line_port(words(line)) {
            Some(p2) => {
                lemma_add_all(ports_after(init), line_pids(split_pat(line, "pid="@).drop_first()), p2);
            },
            None => {},
        }
    }
}

fn pid_index_of(m: &Vec<(u32, Vec<u16>)>, pid: u32) -> (r: Option<usize>)
    ensures
        match r {
            Some(i) => i < m@.len() && pid_index(m.deep_view(), pid) == Some(i as int),
            None => pid_index(m.deep_view(), pid) is None,
        },
{
    let mut i = m.len();
    assert(m.deep_view().take(i as int) =~= m.deep_view());
    while i > 0
        invariant
            i <= m@.len(),
            pid_index(m.deep_view().take(i as int), pid) == pid_index(m.deep_view(), pid),
        decreases i,
    {
        let ghost t = m.deep_view().take(i as int);
        proof {
            assert(t.last() == (m@[i - 1].0, m@[i - 1].1@));
            assert(t.drop_last() =~= m.deep_view().take(i - 1));
        }
        if m[i - 1].0 == pid {
            return Some(i - 1);
        }
        i -= 1;
    }
    None
}

fn contains_port(v: &Vec<u16>, port: u16) -> (b: bool)
    ensures
        b == v@.contains(port),
{
    let mut i: usize = 0;
    while i < v.len()
        invariant
            i <= v@.len(),
            forall|k: int| 0 <= k < i ==> v@[k] != port,
        decreases v@.len() - i,
    {
        if v[i] == port {
            return true;
        }
        i += 1;
    }
    false
}

fn add_port_exec(m: &mut Vec<(u32, Vec<u16>)>, pid: u32, port: u16)
    ensures
        final(m).deep_view() == add_port(old(m).deep_view(), pid, port),
{
    match pid_index_of(m, pid) {
        Some(i) => {
            proof {
                assert(m.deep_view()[i as int] == (m@[i as int].0, m@[i as int].1@));
                lemma_pid_index(m.deep_view(), pid);
            }
            if !contains_port(&m[i].1, port) {
                let ghost before = m.deep_view();
                let mut entry = m.remove(i);
                let ghost e0 = entry.1.deep_view();
                entry.1.push(port);
                assert(entry.1.deep_view() =~= e0.push(port));
                m.insert(i, entry);
                assert(m.deep_view() =~= before.update(
                    i as int,
                    (pid, before[i as int].1.push(port)),
                ));
            }
        },
        None => {
            let ghost before = m.deep_view();
            let mut v: Vec<u16> = Vec::new();
            v.push(port);
            assert(v.deep_view() =~= seq![port]);
            m.push((pid, v));
            assert(m.deep_view() =~= before.push((pid, seq![port])));
        },
    }
}

/// Listening ports per process id from `ss -H -tulpn` output: a line with at
/// least five fields whose fifth ends in `:<port>` records that port for
/// every `pid=<n>` on the line, once per process.
pub fn listening_ports(ss_out: &str) -> (r: Vec<(u32, Vec<u16>)>)
    ensures
        r.deep_view() == ports_after(lines(ss_out@)),
{
    let t = chars_of(ss_out);
    let ls = lines_of(&t);
    let ghost lv = ls.deep_view();
    let mut m: Vec<(u32, Vec<u16>)> = Vec::new();
    let mut i: usize = 0;
    assert(m.deep_view() =~= PortMap::empty());
    while i < ls.len()
        invariant
            i <= ls@.len(),
            lv == ls.deep_view(),
            lv == lines(ss_out@),
            m.deep_view() == ports_after(lv.take(i as int)),
        decreases ls@.len() - i,
    {
        let line = &ls[i];
        proof {
            assert(lv.take(i + 1).drop_last() =~= lv.take(i as int));
            assert(lv.take(i + 1).last() == line@);
        }
        let f = words_of(line);
        if f.len() >= 5 {
            let pieces = split_char_of(&f[4], ':');
            proof {
                assert(f.deep_view()[4] == f@[4]@);
                assert(pieces.deep_view().last() == pieces@[pieces@.len() - 1]@);
            }
            match parse_u16(&pieces[pieces.len() - 1]) {
                Some(port) => {
                    proof {
                        reveal_strlit("pid=");
                    }
                    let caps = split_pat_of(line, "pid=");
                    let ghost cv = caps.deep_view();
                    let ghost base = m.deep_view();
                    let ghost pieces_after = cv.drop_first();
                    let mut k: usize = 1;
                    let ghost mut pids: Seq<u32> = Seq::empty();
                    assert(pieces_after.take(0) =~= Seq::<Seq<char>>::empty());
                    while k < caps.len()
                        invariant
                            1 <= k <= caps@.len() || caps@.len() == 0,
                            cv == caps.deep_view(),
                            pieces_after == cv.drop_first(),
                            caps@.len() >= 1,
                            m.deep_view() == add_all(
                                base,
                                line_pids(pieces_after.take(k - 1)),
                                port,
                            ),
                        decreases caps@.len() - k,
                    {
                        let d = digit_prefix(&caps[k]);
                        proof {
                            assert(pieces_after.take(k as int).drop_last() =~= pieces_after.take(
                                k - 1,
                            ));
                            assert(pieces_after.take(k as int).last() == caps@[k as int]@);
                        }
                        match parse_u32(&d) {
                            Some(pid) => {
                                add_port_exec(&mut m, pid, port);
                                proof {
                                    let before = line_pids(pieces_after.take(k - 1));
                                    assert(line_pids(pieces_after.take(k as int)) == before.push(
                                        pid,
                                    ));
                                    assert(before.push(pid).drop_last() =~= before);
                                }
                            },
                            None => {},
                        }
                        k += 1;
                    }
                    proof {
                        assert(pieces_after.take(caps@.len() - 1) =~= pieces_after);
                    }
                },
                None => {},
            }
        }
        i += 1;
    }
    assert(lv.take(ls@.len() as int) =~= lv);
    m
}

impl Ranked for u16 {
    open spec fn sort_key(&self) -> SortKey {
        (*self as nat, Seq::empty())
    }

    fn goes_after(&self, other: &Self) -> (b: bool) {
        *self > *other
    }
}

pub open spec fn port_key() -> spec_fn(u16) -> SortKey {
    |p: u16| (p as nat, Seq::<char>::empty())
}

/// The ports listed for `pid`, in ascending order, as `a, b, c` (empty when
/// the process listens on none).
pub open spec fn ports_text_of(m: PortMap, pid: u32) -> Seq<char> {
    match pid_index(m, pid) {
        Some(i) => join(
            sort_by_key(m[i].1, port_key()).map_values(|p: u16| dec(p as nat)),
            ", "@,
        ),
        None => Seq::empty(),
    }
}

pub fn ports_text(m: &Vec<(u32, Vec<u16>)>, pid: u32) -> (r: String)
    ensures
        r@ == ports_text_of(m.deep_view(), pid),
{
    match pid_index_of(m, pid) {
        Some(i) => {
            let mut ps = m[i].1.clone();
            let ghost orig = ps@;
            proof {
                assert(m.deep_view()[i as int].1 == m@[i as int].1@);
            }
            sort_ranked(&mut ps);
            proof {
                assert(key_of::<u16>() =~= port_key());
            }
            let mut texts: Vec<Vec<char>> = Vec::new();
            let mut k: usize = 0;
            while k < ps.len()
                invariant
                    k <= ps@.len(),
                    texts.deep_view() == ps@.take(k as int).map_values(|p: u16| dec(p as nat)),
                decreases ps@.len() - k,
            {
                let d = dec_u64(ps[k] as u64);
                let ghost old_t = texts.deep_view();
                let ghost old_v = texts@;
                let ghost dv = d;
                texts.push(d);
                proof {
                    lemma_deep_view_push(texts, old_v, dv);
                    assert(texts.deep_view() =~= ps@.take(k + 1).map_values(
                        |p: u16| dec(p as nat),
                    ));
                }
                k += 1;
            }
            assert(ps@.take(ps@.len() as int) =~= ps@);
            let j = crate::text::join_of(&texts, ", ");
            string_of(&j)
        },
        None => String::new(),
    }
}

// ───────────────────────── rates and the search box ─────────────────────────

/// Growth of a cumulative counter since the last sample; a process seen for
/// the first time (no earlier sample) has grown by nothing, and a counter
/// that went backwards counts as no growth.
pub fn counter_delta(cur: u64, prev: Option<u64>) -> (d: u64)
    ensures
        d == (match prev {
            Some(p) => if cur >= p {
                (cur - p) as u64
            } else {
                0u64
            },
            None => 0u64,
        }),
{
    match prev {
        Some(p) => cur.saturating_sub(p),
        None => 0,
    }
}

/// Whether a process passes the task manager's search `q` (already
/// lower-cased): an empty search passes everything; otherwise the
/// lower-cased name, the pid in decimal, or the ports text must contain it.
pub open spec fn proc_match(q: Seq<char>, lname: Seq<char>, pid: u32, ports: Seq<char>) -> bool {
    q.len() == 0 || contains_seq(lname, q) || contains_seq(dec(pid as nat), q) || contains_seq(ports, q)
}

/// `proc_match` for a process whose name is given lower-cased.
pub fn proc_row_matches(q: &str, lname: &str, pid: u32, ports: &str) -> (b: bool)
    ensures
        b == proc_match(q@, lname@, pid, ports@),
{
    let qc = chars_of(q);
    qc.len() == 0 || contains_chars(&chars_of(lname), &qc) || contains_chars(&dec_u64(pid as u64), &qc)
        || contains_chars(&chars_of(ports), &qc)
}

/// Positions of the first `limit` processes (name, pid, ports) that pass the
/// search `q`, in list order, names compared lower-cased.
pub open spec fn match_positions(rows: Seq<(Seq<char>, u32, Seq<char>)>, q: Seq<char>) -> Seq<int>
    decreases rows.len(),
{
    if rows.len() == 0 {
        Seq::empty()
    } else if proc_match(q, lowercase(rows.last().0), rows.last().1, rows.last().2) {
        match_positions(rows.drop_last(), q).push(rows.len() - 1)
    } else {
        match_positions(rows.drop_last(), q)
    }
}

proof fn lemma_match_positions_len(rows: Seq<(Seq<char>, u32, Seq<char>)>, q: Seq<char>)
    ensures
        match_positions(rows, q).len() <= rows.len(),
    decreases rows.len(),
{
    if rows.len() > 0 {
        lemma_match_positions_len(rows.drop_last(), q);
    }
}

/// The processes that the search box text `q` finds (compared lower-cased
/// with the names, decimal PIDs and ports), at most `limit` of them.
pub fn matching_procs(q: &str, rows: &Vec<(String, u32, String)>, limit: usize) -> (r: Vec<usize>)
    ensures
        r@.map_values(|i: usize| i as int) == match_positions(rows.deep_view(), lowercase(q@)).take(
            if match_positions(rows.deep_view(), lowercase(q@)).len() < limit {
                match_positions(rows.deep_view(), lowercase(q@)).len() as int
            } else {
                limit as int
            },
        ),
{
    let ql = string_of(&to_lowercase(&chars_of(q)));
    let ghost rv = rows.deep_view();
    let mut r: Vec<usize> = Vec::new();
    let mut i: usize = 0;
    while i < rows.len() && r.len() < limit
        invariant
            i <= rows@.len(),
            rv == rows.deep_view(),
            r@.len() <= limit,
            r@.map_values(|k: usize| k as int) == match_positions(rv.take(i as int), ql@),
            ql@ == lowercase(q@),
        decreases rows@.len() - i,
    {
        proof {
            assert(rv.take(i + 1).drop_last() =~= rv.take(i as int));
            assert(rv.take(i + 1).last() == (rows@[i as int].0@, rows@[i as int].1, rows@[i as int].2@));
        }
        let lname = string_of(&to_lowercase(&chars_of(rows[i].0.as_str())));
        if proc_row_matches(ql.as_str(), lname.as_str(), rows[i].1, rows[i].2.as_str()) {
            let ghost before = r@;
            r.push(i);
            proof {
                assert(r@.map_values(|k: usize| k as int) =~= before.map_values(|k: usize| k as int).push(
                    i as int,
                ));
            }
        }
        i += 1;
    }
    proof {
        lemma_prefix_positions(rv, ql@, i as int);
        lemma_match_positions_len(rv.take(i as int), ql@);
        if i == rows@.len() {
            assert(rv.take(i as int) =~= rv);
        }
    }
    r
}

/// The matches among the first `i` processes are a prefix of all matches.
proof fn lemma_prefix_positions(rows: Seq<(Seq<char>, u32, Seq<char>)>, q: Seq<char>, i: int)
    requires
        0 <= i <= rows.len(),
    ensures
        match_positions(rows.take(i), q) == match_positions(rows, q).take(
            match_positions(rows.take(i), q).len() as int,
        ),
        match_positions(rows.take(i), q).len() <= match_positions(rows, q).len(),
        i < rows.len() ==> match_positions(rows.take(i), q).len() < match_positions(rows, q).len()
            || match_positions(rows.take(i), q) == match_positions(rows, q),
    decreases rows.len() - i,
{
    if i == rows.len() {
        assert(rows.take(i) =~= rows);
        assert(match_positions(rows, q).take(match_positions(rows, q).len() as int) =~= match_positions(rows, q));
    } else {
        lemma_prefix_positions(rows, q, i + 1);
        assert(rows.take(i + 1).drop_last() =~= rows.take(i));
        let a = match_positions(rows.take(i), q);
        let b = match_positions(rows.take(i + 1), q);
        let all = match_positions(rows, q);
        if b.len() == a.len() {
            assert(b == a);
        } else {
            assert(b == a.push(i));
            assert(a =~= b.take(a.len() as int));
            assert(all.take(b.len() as int).take(a.len() as int) =~= all.take(a.len() as int));
        }
    }
}

} // verus!
