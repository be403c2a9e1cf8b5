//! RGB colours as the keyboard and mouse configuration files store them
//! (`0xrrggbb` or `#rrggbb`), and back.
use vstd::prelude::*;
use crate::text::{chars_of, push_all, slice_of, starts_with, starts_with_chars, string_of};

verus! {

// ───────────────────────── UTF-8 byte offsets ─────────────────────────

/// Bytes that `c` takes in UTF-8.
pub open spec fn ulen(c: char) -> nat {
    let u = c as u32;
    if u < 0x80 {
        1
    } else if u < 0x800 {
        2
    } else if u < 0x10000 {
        3
    } else {
        4
    }
}

/// Bytes that `s` takes in UTF-8 (`str::len`).
pub open spec fn blen(s: Seq<char>) -> nat
    decreases s.len(),
{
    if s.len() == 0 {
        0
    } else {
        blen(s.drop_last()) + ulen(s.last())
    }
}

/// The number of characters that make up the first `b` bytes of `s`, when
/// byte `b` falls on a character boundary.
pub open spec fn byte_cut(s: Seq<char>, b: int) -> Option<int>
    decreases s.len(),
{
    if b == 0 {
        Some(0)
    } else if s.len() == 0 || b < 0 {
        None
    } else {
        match byte_cut(s.drop_first(), b - ulen(s[0])) {
            Some(n) => Some(n + 1),
            None => None,
        }
    }
}

fn ulen_of(c: char) -> (n: usize)
    ensures
        n == ulen(c),
{
    let u = c as u32;
    if u < 0x80 {
        1
    } else if u < 0x800 {
        2
    } else if u < 0x10000 {
        3
    } else {
        4
    }
}

proof fn lemma_blen_prefix_le(s: Seq<char>, i: int)
    requires
        0 <= i <= s.len(),
    ensures
        blen(s.take(i)) <= blen(s),
    decreases s.len() - i,
{
    if i < s.len() {
        lemma_blen_prefix_le(s, i + 1);
        assert(s.take(i + 1).drop_last() =~= s.take(i));
    } else {
        assert(s.take(i) =~= s);
    }
}

/// Whether `s` takes at least `b` bytes.
fn bytes_at_least(s: &[char], b: usize) -> (r: bool)
    requires
        b <= 8,
    ensures
        r == (blen(s@) >= b),
{
    let mut acc: usize = 0;
    let mut i: usize = 0;
    while i < s.len() && acc < b
        invariant
            i <= s@.len(),
            b <= 8,
            acc == blen(s@.take(i as int)),
            acc < b + 4,
        decreases s@.len() - i,
    {
        proof {
            assert(s@.take(i + 1).drop_last() =~= s@.take(i as int));
        }
        acc = acc + ulen_of(s[i]);
        i += 1;
    }
    proof {
        lemma_blen_prefix_le(s@, i as int);
        if i == s@.len() {
            assert(s@.take(i as int) =~= s@);
        }
    }
    acc >= b
}

/// `byte_cut` of `s` at byte `b`.
fn byte_cut_of(s: &[char], b: usize) -> (r: Option<usize>)
    requires
        b <= 8,
    ensures
        match r {
            Some(n) => byte_cut(s@, b as int) == Some(n as int) && n <= s@.len(),
            None => byte_cut(s@, b as int) is None,
        },
{
    let mut acc: usize = 0;
    let mut i: usize = 0;
    assert(s@.skip(0) =~= s@);
    while i < s.len() && acc < b
        invariant
            i <= s@.len(),
            b <= 8,
            acc < b + 4,
            match byte_cut(s@.skip(i as int), b - acc) {
                Some(n) => byte_cut(s@, b as int) == Some(n + i),
                None => byte_cut(s@, b as int) is None,
            },
        decreases s@.len() - i,
    {
        proof {
            assert(s@.skip(i as int).drop_first() =~= s@.skip(i + 1));
            assert(s@.skip(i as int)[0] == s@[i as int]);
        }
        acc = acc + ulen_of(s[i]);
        i += 1;
    }
    if acc == b {
        Some(i)
    } else {
        proof {
            if i == s@.len() {
                assert(s@.skip(i as int).len() == 0);
            }
        }
        None
    }
}

// ───────────────────────── hexadecimal ─────────────────────────

pub open spec fn hex_val(c: char) -> Option<nat> {
    let u = c as u32;
    if 48 <= u <= 57 {
        Some((u - 48) as nat)
    } else if 97 <= u <= 102 {
        Some((u - 87) as nat)
    } else if 65 <= u <= 70 {
        Some((u - 55) as nat)
    } else {
        None
    }
}

pub open spec fn all_hex(d: Seq<char>) -> bool {
    forall|i: int| 0 <= i < d.len() ==> (#[trigger] hex_val(d[i])) is Some
}

pub open spec fn hex_digits_val(d: Seq<char>) -> nat
    decreases d.len(),
{
    if d.len() == 0 {
        0
    } else {
        hex_digits_val(d.drop_last()) * 16 + match hex_val(d.last()) {
            Some(v) => v,
            None => 0,
        }
    }
}

/// `u8::from_str_radix(p, 16)`: an optional `+`, then one or more hex digits
/// whose value fits in a byte.
pub open spec fn parse_hex_u8(p: Seq<char>) -> Option<u8> {
    let d = if p.len() > 0 && p[0] == '+' {
        p.drop_first()
    } else {
        p
    };
    if d.len() > 0 && all_hex(d) && hex_digits_val(d) <= 255 {
        Some(hex_digits_val(d) as u8)
    } else {
        None
    }
}

fn hex_val_of(c: char) -> (r: Option<u64>)
    ensures
        match r {
            Some(v) => hex_val(c) == Some(v as nat) && v < 16,
            None => hex_val(c) is None,
        },
{
    let u = c as u32;
    if 48 <= u && u <= 57 {
        Some((u - 48) as u64)
    } else if 97 <= u && u <= 102 {
        Some((u - 87) as u64)
    } else if 65 <= u && u <= 70 {
        Some((u - 55) as u64)
    } else {
        None
    }
}

proof fn lemma_hex_prefix(d: Seq<char>, i: int)
    requires
        0 <= i < d.len(),
    ensures
        hex_digits_val(d.take(i + 1)) == hex_digits_val(d.take(i)) * 16 + match hex_val(d[i]) {
            Some(v) => v,
            None => 0,
        },
{
    assert(d.take(i + 1).drop_last() =~= d.take(i));
}

proof fn lemma_hex_mono(d: Seq<char>, i: int)
    requires
        0 <= i <= d.len(),
        all_hex(d),
    ensures
        hex_digits_val(d.take(i)) <= hex_digits_val(d),
    decreases d.len() - i,
{
    if i < d.len() {
        lemma_hex_prefix(d, i);
        lemma_hex_mono(d, i + 1);
    } else {
        assert(d.take(i) =~= d);
    }
}

fn parse_hex_u8_of(p: &[char]) -> (r: Option<u8>)
    ensures
        r == parse_hex_u8(p@),
{
    let start: usize = if p.len() > 0 && p[0] == '+' {
        1
    } else {
        0
    };
    let ghost d = p@.skip(start as int);
    proof {
        if start == 1 {
            assert(d =~= p@.drop_first());
        } else {
            assert(d =~= p@);
        }
    }
    if start == p.len() {
        return None;
    }
    let mut v: u64 = 0;
    let mut i = start;
    while i < p.len()
        invariant
            start <= i <= p@.len(),
            d == p@.skip(start as int),
            d == (if p@.len() > 0 && p@[0] == '+' {
                p@.drop_first()
            } else {
                p@
            }),
            forall|k: int| 0 <= k < i - start ==> (#[trigger] hex_val(d[k])) is Some,
            v as nat == hex_digits_val(d.take(i - start)),
            v <= 255,
        decreases p@.len() - i,
    {
        proof {
            assert(d[i - start] == p@[i as int]);
            lemma_hex_prefix(d, i - start);
        }
        match hex_val_of(p[i]) {
            None => {
                assert(!all_hex(d));
                return None;
            },
            Some(h) => {
                let nv = v * 16 + h;
                if nv > 255 {
                    proof {
                        if all_hex(d) {
                            lemma_hex_mono(d, i - start + 1);
                        }
                    }
                    return None;
                }
                v = nv;
            },
        }
        i += 1;
    }
    proof {
        assert(d.take(i - start) =~= d);
    }
    Some(v as u8)
}

// ───────────────────────── colours ─────────────────────────

/// `s` without every leading copy of `p` (`str::trim_start_matches`).
pub open spec fn strip_all_prefix(s: Seq<char>, p: Seq<char>) -> Seq<char>
    decreases s.len(),
{
    if p.len() > 0 && starts_with(s, p) {
        strip_all_prefix(s.skip(p.len() as int), p)
    } else {
        s
    }
}

fn strip_all_prefix_of(s: &[char], p: &str) -> (r: Vec<char>)
    ensures
        r@ == strip_all_prefix(s@, p@),
{
    let pc = chars_of(p);
    let mut cur = crate::text::copy_of(s);
    while pc.len() > 0 && starts_with_chars(&cur, &pc)
        invariant
            pc@ == p@,
            strip_all_prefix(cur@, p@) == strip_all_prefix(s@, p@),
        decreases cur@.len(),
    {
        let n = cur.len();
        cur = slice_of(&cur, pc.len(), n);
    }
    cur
}

/// The hex digits of a stored colour: the text without its leading `0x`
/// and `#` marks.
pub open spec fn color_digits(s: Seq<char>) -> Seq<char> {
    strip_all_prefix(strip_all_prefix(s, "0x"@), "#"@)
}

pub open spec fn or_default(v: Option<u8>, d: u8) -> u8 {
    match v {
        Some(x) => x,
        None => d,
    }
}

/// The colour that a stored value gives: its first three byte pairs read as
/// hex, each falling back to the matching part of the default `(0, 200, 255)`
/// when it does not read; the default itself when the digits are under six
/// bytes. `None` where a byte pair would split a character (the digits are
/// then cut at a byte that is no character boundary).
pub open spec fn hex_color(s: Seq<char>) -> Option<(u8, u8, u8)> {
    let c = color_digits(s);
    if blen(c) >= 6 {
        match (byte_cut(c, 2), byte_cut(c, 4), byte_cut(c, 6)) {
            (Some(a), Some(b), Some(e)) => Some(
                (
                    or_default(parse_hex_u8(c.subrange(0, a)), 0),
                    or_default(parse_hex_u8(c.subrange(a, b)), 200),
                    or_default(parse_hex_u8(c.subrange(b, e)), 255),
                ),
            ),
            _ => None,
        }
    } else {
        Some((0, 200, 255))
    }
}

fn byte_or(v: Option<u8>, d: u8) -> (r: u8)
    ensures
        r == or_default(v, d),
{
    match v {
        Some(x) => x,
        None => d,
    }
}

pub fn parse_hex_color(s: &str) -> (r: Option<(u8, u8, u8)>)
    ensures
        r == hex_color(s@),
{
    let c1 = strip_all_prefix_of(&chars_of(s), "0x");
    let c = strip_all_prefix_of(&c1, "#");
    if !bytes_at_least(&c, 6) {
        return Some((0, 200, 255));
    }
    let a = match byte_cut_of(&c, 2) {
        Some(a) => a,
        None => {
            return None;
        },
    };
    let b = match byte_cut_of(&c, 4) {
        Some(b) => b,
        None => {
            return None;
        },
    };
    let e = match byte_cut_of(&c, 6) {
        Some(e) => e,
        None => {
            return None;
        },
    };
    proof {
        lemma_cut_order(c@, 2, 4);
        lemma_cut_order(c@, 4, 6);
    }
    let red = byte_or(parse_hex_u8_of(&slice_of(&c, 0, a)), 0);
    let green = byte_or(parse_hex_u8_of(&slice_of(&c, a, b)), 200);
    let blue = byte_or(parse_hex_u8_of(&slice_of(&c, b, e)), 255);
    Some((red, green, blue))
}

proof fn lemma_cut_order(s: Seq<char>, x: int, y: int)
    requires
        0 <= x <= y,
        byte_cut(s, x) is Some,
        byte_cut(s, y) is Some,
    ensures
        byte_cut(s, x)->0 <= byte_cut(s, y)->0,
        byte_cut(s, y)->0 <= s.len(),
    decreases s.len(),
{
    if x > 0 {
        lemma_cut_order(s.drop_first(), x - ulen(s[0]), y - ulen(s[0]));
    } else if y > 0 {
        lemma_cut_len(s, y);
    }
}

proof fn lemma_cut_len(s: Seq<char>, y: int)
    requires
        byte_cut(s, y) is Some,
    ensures
        0 <= byte_cut(s, y)->0 <= s.len(),
    decreases s.len(),
{
    if y != 0 {
        lemma_cut_len(s.drop_first(), y - ulen(s[0]));
    }
}

/// Lower-case hex digit of `v < 16`.
pub open spec fn hex_digit(v: nat) -> char {
    if v < 10 {
        (v + 48) as char
    } else {
        (v + 87) as char
    }
}

/// Upper-case hex digit of `v < 16`.
pub open spec fn hex_digit_upper(v: nat) -> char {
    if v < 10 {
        (v + 48) as char
    } else {
        (v + 55) as char
    }
}

/// `{:02x}` of a byte.
pub open spec fn hex2(v: u8) -> Seq<char> {
    seq![hex_digit(v as nat / 16), hex_digit(v as nat % 16)]
}

/// `{:02X}` of a byte.
pub open spec fn hex2_upper(v: u8) -> Seq<char> {
    seq![hex_digit_upper(v as nat / 16), hex_digit_upper(v as nat % 16)]
}

fn hex_char(v: u8, upper: bool) -> (c: char)
    requires
        v < 16,
    ensures
        c == (if upper {
            hex_digit_upper(v as nat)
        } else {
            hex_digit(v as nat)
        }),
{
    if v < 10 {
        ((v + 48) as u8) as char
    } else if upper {
        ((v + 55) as u8) as char
    } else {
        ((v + 87) as u8) as char
    }
}

fn push_hex2(out: &mut Vec<char>, v: u8, upper: bool)
    ensures
        final(out)@ == old(out)@ + (if upper {
            hex2_upper(v)
        } else {
            hex2(v)
        }),
{
    out.push(hex_char(v / 16, upper));
    out.push(hex_char(v % 16, upper));
    assert(final(out)@ =~= old(out)@ + (if upper {
        hex2_upper(v)
    } else {
        hex2(v)
    }));
}

/// How a colour is stored in the mouse configuration: `0xrrggbb`.
pub fn hex_rgb_conf(r: u8, g: u8, b: u8) -> (s: String)
    ensures
        s@ == "0x"@ + hex2(r) + hex2(g) + hex2(b),
{
    let mut out: Vec<char> = Vec::new();
    push_all(&mut out, &chars_of("0x"));
    push_hex2(&mut out, r, false);
    push_hex2(&mut out, g, false);
    push_hex2(&mut out, b, false);
    proof {
        reveal_strlit("0x");
    }
    assert(out@ =~= "0x"@ + hex2(r) + hex2(g) + hex2(b));
    string_of(&out)
}

/// How a colour is shown: `RRGGBB`, upper-case (the pages put `#` before it).
pub fn hex_rgb_upper(r: u8, g: u8, b: u8) -> (s: String)
    ensures
        s@ == hex2_upper(r) + hex2_upper(g) + hex2_upper(b),
{
    let mut out: Vec<char> = Vec::new();
    push_hex2(&mut out, r, true);
    push_hex2(&mut out, g, true);
    push_hex2(&mut out, b, true);
    assert(out@ =~= hex2_upper(r) + hex2_upper(g) + hex2_upper(b));
    string_of(&out)
}

proof fn lemma_hex2_reads(v: u8)
    ensures
        parse_hex_u8(hex2(v)) == Some(v),
{
    let d = hex2(v);
    assert(d.drop_last() =~= seq![hex_digit(v as nat / 16)]);
    assert(d.drop_last().drop_last() =~= Seq::<char>::empty());
    assert(hex_val(d[0]) == Some(v as nat / 16));
    assert(hex_val(d[1]) == Some(v as nat % 16));
    assert(all_hex(d));
    let e = d.drop_last();
    assert(e.len() == 1);
    assert(e.last() == d[0]);
    assert(hex_digits_val(e.drop_last()) == 0);
    assert(hex_digits_val(e) == v as nat / 16);
    assert(hex_digits_val(d) == v);
}

/// A colour written as `0xrrggbb` reads back as the same colour.
pub proof fn lemma_hex_color_roundtrip(r: u8, g: u8, b: u8)
    ensures
        hex_color("0x"@ + hex2(r) + hex2(g) + hex2(b)) == Some((r, g, b)),
{
    reveal_strlit("0x");
    reveal_strlit("#");
    let h = hex2(r) + hex2(g) + hex2(b);
    let s = "0x"@ + hex2(r) + hex2(g) + hex2(b);
    assert(s =~= seq!['0', 'x'] + h);
    assert(starts_with(s, "0x"@)) by {
        assert(s.take(2) =~= "0x"@);
    }
    assert(s.skip(2) =~= h);
    assert(h.len() == 6);
    assert(!starts_with(h, "0x"@)) by {
        assert(h[1] != 'x');
        assert(h.take(2)[1] == h[1]);
    }
    assert(strip_all_prefix(h, "0x"@) == h);
    assert(strip_all_prefix(s, "0x"@) == h);
    assert(!starts_with(h, "#"@)) by {
        assert(h.take(1)[0] == h[0]);
    }
    assert(color_digits(s) == h);
    assert forall|i: int| 0 <= i < 6 implies ulen(#[trigger] h[i]) == 1 by {}
    assert(blen(h) == 6) by {
        assert(h.take(6) =~= h);
        lemma_blen_ascii(h, 6);
    }
    lemma_cut_ascii(h, 2);
    lemma_cut_ascii(h, 4);
    lemma_cut_ascii(h, 6);
    assert(h.subrange(0, 2) =~= hex2(r));
    assert(h.subrange(2, 4) =~= hex2(g));
    assert(h.subrange(4, 6) =~= hex2(b));
    lemma_hex2_reads(r);
    lemma_hex2_reads(g);
    lemma_hex2_reads(b);
}

proof fn lemma_blen_ascii(s: Seq<char>, n: int)
    requires
        0 <= n <= s.len(),
        forall|i: int| 0 <= i < s.len() ==> ulen(#[trigger] s[i]) == 1,
    ensures
        blen(s.take(n)) == n,
    decreases n,
{
    if n > 0 {
        lemma_blen_ascii(s, n - 1);
        assert(s.take(n).drop_last() =~= s.take(n - 1));
    }
}

proof fn lemma_cut_ascii(s: Seq<char>, n: int)
    requires
        0 <= n <= s.len(),
        forall|i: int| 0 <= i < s.len() ==> ulen(#[trigger] s[i]) == 1,
    ensures
        byte_cut(s, n) == Some(n),
    decreases n,
{
    if n > 0 {
        assert(ulen(s[0]) == 1);
        assert forall|i: int| 0 <= i < s.drop_first().len() implies ulen(
            #[trigger] s.drop_first()[i],
        ) == 1 by {
            assert(s.drop_first()[i] == s[i + 1]);
        }
        lemma_cut_ascii(s.drop_first(), n - 1);
    }
}

} // verus!
