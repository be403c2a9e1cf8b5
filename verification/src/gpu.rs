//! Graphics adapters: which ones the machine has (NVIDIA through
//! `nvidia-smi`, AMD and Intel through DRM), in what order, and what the
//! sampling tools print about them.
use vstd::prelude::*;
use crate::order::{key_of, lex_less, sort_by_key, sort_ranked, Ranked, SortKey};
use crate::procs::{digit_prefix, digit_run};
use crate::text::{
    all_digits, all_digits_of, chars_of, lemma_chars_deep_view, lemma_deep_view_push, lines,
    lines_of, occurs_at, parse_u32, parse_u32_spec, push_all, slice_of, split_char, split_trimmed,
    starts_with, str_eq, str_starts_with, string_of, trim, trim_chars, trim_each, to_uppercase,
    uppercase,
};

verus! {

broadcast use lemma_chars_deep_view;

/// A graphics adapter.
pub struct GpuEntry {
    /// `NVIDIA`, `AMD` or `Intel`.
    pub kind: String,
    pub name: String,
    /// PCI address, upper-cased.
    pub bus: String,
    /// The adapter's index for `nvidia-smi`.
    pub nvidia_index: Option<u32>,
    /// The sysfs device directory (AMD and Intel).
    pub drm_path: String,
}

pub ghost struct GpuSpec {
    pub kind: Seq<char>,
    pub name: Seq<char>,
    pub bus: Seq<char>,
    pub nvidia_index: Option<u32>,
    pub drm_path: Seq<char>,
}

impl View for GpuEntry {
    type V = GpuSpec;

    open spec fn view(&self) -> GpuSpec {
        GpuSpec {
            kind: self.kind@,
            name: self.name@,
            bus: self.bus@,
            nvidia_index: self.nvidia_index,
            drm_path: self.drm_path@,
        }
    }
}

pub open spec fn gpu_views(gs: Seq<GpuEntry>) -> Seq<GpuSpec> {
    gs.map_values(|g: GpuEntry| g@)
}

impl Ranked for GpuEntry {
    open spec fn sort_key(&self) -> SortKey {
        (0, self.bus@)
    }

    fn goes_after(&self, other: &Self) -> (b: bool) {
        lex_less(&chars_of(other.bus.as_str()), &chars_of(self.bus.as_str()))
    }
}

/// Orders the adapters by PCI address.
pub fn sort_gpus(v: &mut Vec<GpuEntry>)
    ensures
        final(v)@ == sort_by_key(old(v)@, key_of::<GpuEntry>()),
{
    sort_ranked(v);
}

// ───────────────────────── nvidia-smi ─────────────────────────

/// `(index, name, PCI address)` of each line of
/// `nvidia-smi --query-gpu=index,name,pci.bus_id` that has three fields and
/// an index that reads as a number.
pub open spec fn nvidia_rows_after(ls: Seq<Seq<char>>) -> Seq<(u32, Seq<char>, Seq<char>)>
    decreases ls.len(),
{
    if ls.len() == 0 {
        Seq::empty()
    } else {
        let p = nvidia_rows_after(ls.drop_last());
        let f = trim_each(split_char(ls.last(), ','));
        if f.len() >= 3 {
            match parse_u32_spec(f[0]) {
                Some(idx) => p.push((idx, f[1], f[2])),
                None => p,
            }
        } else {
            p
        }
    }
}

pub fn nvidia_gpu_rows(out: &str) -> (r: Vec<(u32, String, String)>)
    ensures
        r.deep_view() == nvidia_rows_after(lines(out@)),
{
    let ls = lines_of(&chars_of(out));
    let ghost lv = ls.deep_view();
    let mut r: Vec<(u32, String, String)> = Vec::new();
    let mut i: usize = 0;
    while i < ls.len()
        invariant
            i <= ls@.len(),
            lv == ls.deep_view(),
            r.deep_view() == nvidia_rows_after(lv.take(i as int)),
        decreases ls@.len() - i,
    {
        proof {
            assert(lv.take(i + 1).drop_last() =~= lv.take(i as int));
            assert(lv.take(i + 1).last() == ls@[i as int]@);
        }
        let f = split_trimmed(&ls[i], ',');
        if f.len() >= 3 {
            proof {
                assert(f.deep_view()[0] == f@[0]@);
                assert(f.deep_view()[1] == f@[1]@);
                assert(f.deep_view()[2] == f@[2]@);
            }
            match parse_u32(&f[0]) {
                Some(idx) => {
                    let row = (idx, string_of(&f[1]), string_of(&f[2]));
                    let ghost old_v = r@;
                    let ghost rv = row;
                    r.push(row);
                    proof {
                        lemma_deep_view_push(r, old_v, rv);
                    }
                },
                None => {},
            }
        }
        i += 1;
    }
    assert(lv.take(ls@.len() as int) =~= lv);
    r
}

pub open spec fn nvidia_entry(row: (u32, Seq<char>, Seq<char>)) -> GpuSpec {
    GpuSpec {
        kind: "NVIDIA"@,
        name: row.1,
        bus: uppercase(row.2),
        nvidia_index: Some(row.0),
        drm_path: Seq::empty(),
    }
}

/// The NVIDIA adapter with index `index`, name `name` and the upper-cased
/// PCI address `bus_upper`.
pub fn nvidia_entry_of(index: u32, name: &str, bus_upper: &str) -> (e: GpuEntry)
    ensures
        e@ == (GpuSpec {
            kind: "NVIDIA"@,
            name: name@,
            bus: bus_upper@,
            nvidia_index: Some(index),
            drm_path: Seq::empty(),
        }),
{
    GpuEntry {
        kind: "NVIDIA".to_owned(),
        name: name.to_owned(),
        bus: bus_upper.to_owned(),
        nvidia_index: Some(index),
        drm_path: String::new(),
    }
}

/// The NVIDIA adapters that `nvidia-smi` lists, in its order, their PCI
/// addresses upper-cased.
pub fn nvidia_gpu_list(out: &str) -> (r: Vec<GpuEntry>)
    ensures
        gpu_views(r@) == nvidia_rows_after(lines(out@)).map_values(
            |row: (u32, Seq<char>, Seq<char>)| nvidia_entry(row),
        ),
{
    let rows = nvidia_gpu_rows(out);
    let ghost rv = rows.deep_view();
    let mut r: Vec<GpuEntry> = Vec::new();
    let mut i: usize = 0;
    while i < rows.len()
        invariant
            i <= rows@.len(),
            rv == rows.deep_view(),
            gpu_views(r@) =~= rv.take(i as int).map_values(
                |row: (u32, Seq<char>, Seq<char>)| nvidia_entry(row),
            ),
        decreases rows@.len() - i,
    {
        let bus = string_of(&to_uppercase(&chars_of(rows[i].2.as_str())));
        let e = nvidia_entry_of(rows[i].0, rows[i].1.as_str(), bus.as_str());
        proof {
            assert(rv[i as int] == (rows@[i as int].0, rows@[i as int].1@, rows@[i as int].2@));
        }
        r.push(e);
        proof {
            assert(rv.take(i + 1).map_values(|row: (u32, Seq<char>, Seq<char>)| nvidia_entry(row))
                =~= rv.take(i as int).map_values(
                |row: (u32, Seq<char>, Seq<char>)| nvidia_entry(row),
            ).push(nvidia_entry(rv[i as int])));
        }
        i += 1;
    }
    assert(rv.take(rows@.len() as int) =~= rv);
    r
}

// ───────────────────────── DRM ─────────────────────────

/// `cardN` entries of `/sys/class/drm` (not their connectors such as
/// `card1-eDP-1`).
pub open spec fn is_card_name(n: Seq<char>) -> bool {
    n.len() > 4 && starts_with(n, "card"@) && all_digits(n.skip(4))
}

pub fn card_name(n: &str) -> (b: bool)
    ensures
        b == is_card_name(n@),
{
    let c = chars_of(n);
    c.len() > 4 && str_starts_with(&c, "card") && all_digits_of(&slice_of(&c, 4, c.len()))
}

/// Kind and name of a DRM adapter by PCI vendor ID (trimmed); other vendors
/// are not listed here.
pub open spec fn drm_vendor_spec(vendor: Seq<char>) -> Option<(Seq<char>, Seq<char>)> {
    let v = trim(vendor);
    if v == "0x1002"@ {
        Some(("AMD"@, "AMD Radeon Graphics"@))
    } else if v == "0x8086"@ {
        Some(("Intel"@, "Intel Graphics"@))
    } else {
        None
    }
}

/// The adapter behind DRM card `card`, given the text of its `vendor` file
/// and its upper-cased PCI address `bus_upper`.
pub fn drm_gpu_with_bus(card: &str, vendor: &str, bus_upper: &str) -> (r: Option<GpuEntry>)
    ensures
        match drm_vendor_spec(vendor@) {
            None => r is None,
            Some((kind, name)) => r matches Some(e) && e@ == (GpuSpec {
                kind,
                name,
                bus: bus_upper@,
                nvidia_index: None,
                drm_path: "/sys/class/drm/"@ + card@ + "/device"@,
            }),
        },
{
    let v = trim_chars(&chars_of(vendor));
    let (kind, name) = if str_eq(&v, "0x1002") {
        ("AMD", "AMD Radeon Graphics")
    } else if str_eq(&v, "0x8086") {
        ("Intel", "Intel Graphics")
    } else {
        return None;
    };
    let mut path: Vec<char> = chars_of("/sys/class/drm/");
    push_all(&mut path, &chars_of(card));
    push_all(&mut path, &chars_of("/device"));
    Some(
        GpuEntry {
            kind: kind.to_owned(),
            name: name.to_owned(),
            bus: bus_upper.to_owned(),
            nvidia_index: None,
            drm_path: string_of(&path),
        },
    )
}

/// The adapter behind DRM card `card`, given the text of its `vendor` file
/// and the name its `device` link points to (the PCI address).
pub fn drm_gpu(card: &str, vendor: &str, link_name: &str) -> (r: Option<GpuEntry>)
    ensures
        match drm_vendor_spec(vendor@) {
            None => r is None,
            Some((kind, name)) => r matches Some(e) && e@ == (GpuSpec {
                kind,
                name,
                bus: uppercase(link_name@),
                nvidia_index: None,
                drm_path: "/sys/class/drm/"@ + card@ + "/device"@,
            }),
        },
{
    let bus = string_of(&to_uppercase(&chars_of(link_name)));
    drm_gpu_with_bus(card, vendor, bus.as_str())
}

/// The DRM card names among `names` (directory entries), sorted.
pub open spec fn cards_of(names: Seq<Seq<char>>) -> Seq<Seq<char>>
    decreases names.len(),
{
    if names.len() == 0 {
        Seq::empty()
    } else if is_card_name(names.last()) {
        cards_of(names.drop_last()).push(names.last())
    } else {
        cards_of(names.drop_last())
    }
}

pub fn drm_cards(names: &Vec<String>) -> (r: Vec<String>)
    ensures
        r.deep_view() == sort_by_key(cards_of(names.deep_view()), crate::hwmon::name_key()),
{
    let ghost nv = names.deep_view();
    let mut r: Vec<String> = Vec::new();
    let mut i: usize = 0;
    while i < names.len()
        invariant
            i <= names@.len(),
            nv == names.deep_view(),
            r.deep_view() == cards_of(nv.take(i as int)),
        decreases names@.len() - i,
    {
        proof {
            assert(nv.take(i + 1).drop_last() =~= nv.take(i as int));
            assert(nv.take(i + 1).last() == names@[i as int]@);
        }
        if card_name(names[i].as_str()) {
            let s = names[i].clone();
            let ghost old_v = r@;
            let ghost sv = s;
            r.push(s);
            proof {
                lemma_deep_view_push(r, old_v, sv);
            }
        }
        i += 1;
    }
    assert(nv.take(names@.len() as int) =~= nv);
    let ghost before = r@;
    crate::order::sort_names(&mut r);
    proof {
        crate::order::lemma_sort_map::<String, Seq<char>>(
            before,
            |s: String| s@,
            key_of::<String>(),
            crate::hwmon::name_key(),
        );
        assert(before.map_values(|s: String| s@) =~= cards_of(nv));
        assert(r@.map_values(|s: String| s@) =~= r.deep_view());
    }
    r
}

/// Structural signature of the adapter list: changes only when an adapter
/// appears or goes.
pub open spec fn gpu_sig(gs: Seq<GpuSpec>) -> Seq<char>
    decreases gs.len(),
{
    if gs.len() == 0 {
        Seq::empty()
    } else {
        gpu_sig(gs.drop_last()) + gs.last().kind + seq![':'] + gs.last().bus + seq![';']
    }
}

pub fn gpu_signature(gpus: &Vec<GpuEntry>) -> (s: String)
    ensures
        s@ == gpu_sig(gpu_views(gpus@)),
{
    let ghost gv = gpu_views(gpus@);
    let mut out: Vec<char> = Vec::new();
    let mut i: usize = 0;
    while i < gpus.len()
        invariant
            i <= gpus@.len(),
            gv == gpu_views(gpus@),
            out@ == gpu_sig(gv.take(i as int)),
        decreases gpus@.len() - i,
    {
        push_all(&mut out, &chars_of(gpus[i].kind.as_str()));
        out.push(':');
        push_all(&mut out, &chars_of(gpus[i].bus.as_str()));
        out.push(';');
        proof {
            assert(gv.take(i + 1).drop_last() =~= gv.take(i as int));
            assert(gv.take(i + 1).last() == gpus@[i as int]@);
            assert(out@ =~= gpu_sig(gv.take(i + 1)));
        }
        i += 1;
    }
    assert(gv.take(gpus@.len() as int) =~= gv);
    string_of(&out)
}

// ───────────────────────── sampling ─────────────────────────

/// One line of the NVIDIA sampling query: the adapter index, the twelve
/// readings after it as printed (utilisation, memory used and total,
/// temperature, power draw and limit, SM clock and its maximum, memory clock
/// and its maximum, encoder and decoder utilisation), and the PCIe link text.
pub struct NvSample {
    pub index: u32,
    pub readings: Vec<String>,
    pub pcie: String,
}

pub ghost struct NvSpec {
    pub index: u32,
    pub readings: Seq<Seq<char>>,
    pub pcie: Seq<char>,
}

impl View for NvSample {
    type V = NvSpec;

    open spec fn view(&self) -> NvSpec {
        NvSpec { index: self.index, readings: self.readings.deep_view(), pcie: self.pcie@ }
    }
}

pub open spec fn nv_views(s: Seq<NvSample>) -> Seq<NvSpec> {
    s.map_values(|x: NvSample| x@)
}

/// `PCIe Gen <current> x<width> (maks Gen <max>)`.
pub open spec fn nv_pcie_text(f: Seq<Seq<char>>) -> Seq<char> {
    "PCIe Gen "@ + f[13] + " x"@ + f[15] + " (maks Gen "@ + f[14] + ")"@
}

/// The samples of the lines that have all sixteen fields and an index that
/// reads as a number.
pub open spec fn nv_samples_after(ls: Seq<Seq<char>>) -> Seq<NvSpec>
    decreases ls.len(),
{
    if ls.len() == 0 {
        Seq::empty()
    } else {
        let p = nv_samples_after(ls.drop_last());
        let f = trim_each(split_char(ls.last(), ','));
        if f.len() >= 16 {
            match parse_u32_spec(f[0]) {
                Some(idx) => p.push(
                    NvSpec { index: idx, readings: f.subrange(1, 13), pcie: nv_pcie_text(f) },
                ),
                None => p,
            }
        } else {
            p
        }
    }
}

fn copy_range(f: &Vec<Vec<char>>, a: usize, b: usize) -> (r: Vec<String>)
    requires
        a <= b <= f@.len(),
    ensures
        r.deep_view() == f.deep_view().subrange(a as int, b as int),
{
    let mut r: Vec<String> = Vec::new();
    let mut i = a;
    while i < b
        invariant
            a <= i <= b <= f@.len(),
            r.deep_view() == f.deep_view().subrange(a as int, i as int),
        decreases b - i,
    {
        let s = string_of(&f[i]);
        let ghost old_v = r@;
        let ghost sv = s;
        r.push(s);
        proof {
            lemma_deep_view_push(r, old_v, sv);
            assert(f.deep_view()[i as int] == f@[i as int]@);
            assert(r.deep_view() =~= f.deep_view().subrange(a as int, i + 1));
        }
        i += 1;
    }
    r
}

pub fn parse_nvidia_samples(out: &str) -> (r: Vec<NvSample>)
    ensures
        nv_views(r@) == nv_samples_after(lines(out@)),
{
    let ls = lines_of(&chars_of(out));
    let ghost lv = ls.deep_view();
    let mut r: Vec<NvSample> = Vec::new();
    let mut i: usize = 0;
    assert(nv_views(r@) =~= Seq::<NvSpec>::empty());
    while i < ls.len()
        invariant
            i <= ls@.len(),
            lv == ls.deep_view(),
            nv_views(r@) == nv_samples_after(lv.take(i as int)),
        decreases ls@.len() - i,
    {
        proof {
            assert(lv.take(i + 1).drop_last() =~= lv.take(i as int));
            assert(lv.take(i + 1).last() == ls@[i as int]@);
        }
        let f = split_trimmed(&ls[i], ',');
        if f.len() >= 16 {
            proof {
                assert(f.deep_view()[0] == f@[0]@);
            }
            match parse_u32(&f[0]) {
                Some(idx) => {
                    let mut pcie: Vec<char> = chars_of("PCIe Gen ");
                    push_all(&mut pcie, &f[13]);
                    push_all(&mut pcie, &chars_of(" x"));
                    push_all(&mut pcie, &f[15]);
                    push_all(&mut pcie, &chars_of(" (maks Gen "));
                    push_all(&mut pcie, &f[14]);
                    push_all(&mut pcie, &chars_of(")"));
                    proof {
                        assert(f.deep_view()[13] == f@[13]@);
                        assert(f.deep_view()[14] == f@[14]@);
                        assert(f.deep_view()[15] == f@[15]@);
                        assert(pcie@ =~= nv_pcie_text(f.deep_view()));
                    }
                    let s = NvSample { index: idx, readings: copy_range(&f, 1, 13), pcie: string_of(&pcie) };
                    let ghost old_r = r@;
                    let ghost sv = s@;
                    r.push(s);
                    proof {
                        assert(nv_views(r@) =~= nv_views(old_r).push(sv));
                    }
                },
                None => {},
            }
        }
        i += 1;
    }
    assert(lv.take(ls@.len() as int) =~= lv);
    r
}

/// The sample of adapter `index`: the last one the query printed for it.
pub open spec fn nv_sample_of(s: Seq<NvSpec>, index: u32) -> Option<NvSpec>
    decreases s.len(),
{
    if s.len() == 0 {
        None
    } else if s.last().index == index {
        Some(s.last())
    } else {
        nv_sample_of(s.drop_last(), index)
    }
}

pub fn nv_sample_for(samples: &Vec<NvSample>, index: u32) -> (r: Option<&NvSample>)
    ensures
        match r {
            Some(x) => nv_sample_of(nv_views(samples@), index) == Some(x@),
            None => nv_sample_of(nv_views(samples@), index) is None,
        },
{
    let ghost sv = nv_views(samples@);
    let mut i = samples.len();
    assert(sv.take(i as int) =~= sv);
    while i > 0
        invariant
            i <= samples@.len(),
            sv == nv_views(samples@),
            nv_sample_of(sv.take(i as int), index) == nv_sample_of(sv, index),
        decreases i,
    {
        proof {
            assert(sv.take(i as int).drop_last() =~= sv.take(i - 1));
            assert(sv.take(i as int).last() == samples@[i - 1]@);
        }
        if samples[i - 1].index == index {
            return Some(&samples[i - 1]);
        }
        i -= 1;
    }
    None
}

/// One line of an AMD `pp_dpm_*` clock table such as `2: 1600Mhz *`: whether
/// it is the active level, and the digits that start its text after the
/// first `:` (trimmed).
pub open spec fn dpm_level(line: Seq<char>) -> (bool, Seq<char>) {
    let parts = split_char(line, ':');
    let t = if parts.len() > 1 {
        trim(parts[1])
    } else {
        Seq::empty()
    };
    (line.contains('*'), t.take(digit_run(t) as int))
}

pub fn dpm_levels(table: &str) -> (r: Vec<(bool, String)>)
    ensures
        r.deep_view() == lines(table@).map_values(|l: Seq<char>| dpm_level(l)),
{
    let ls = lines_of(&chars_of(table));
    let ghost lv = ls.deep_view();
    let mut r: Vec<(bool, String)> = Vec::new();
    let mut i: usize = 0;
    while i < ls.len()
        invariant
            i <= ls@.len(),
            lv == ls.deep_view(),
            r.deep_view() =~= lv.take(i as int).map_values(|l: Seq<char>| dpm_level(l)),
        decreases ls@.len() - i,
    {
        let star = crate::text::has_char(&ls[i], '*');
        let parts = crate::text::split_char_of(&ls[i], ':');
        let t = if parts.len() > 1 {
            proof {
                assert(parts.deep_view()[1] == parts@[1]@);
            }
            trim_chars(&parts[1])
        } else {
            Vec::new()
        };
        let d = digit_prefix(&t);
        let row = (star, string_of(&d));
        let ghost old_v = r@;
        let ghost rw = row;
        r.push(row);
        proof {
            lemma_deep_view_push(r, old_v, rw);
            assert(lv[i as int] == ls@[i as int]@);
            assert(lv.take(i + 1).map_values(|l: Seq<char>| dpm_level(l)) =~= lv.take(
                i as int,
            ).map_values(|l: Seq<char>| dpm_level(l)).push(dpm_level(lv[i as int])));
        }
        i += 1;
    }
    assert(lv.take(ls@.len() as int) =~= lv);
    r
}

/// `s` with every occurrence of `p` removed, scanning left to right
/// (`str::replace(p, "")`).
pub open spec fn remove_all(s: Seq<char>, p: Seq<char>) -> Seq<char>
    decreases s.len(),
{
    if s.len() == 0 {
        s
    } else if p.len() > 0 && starts_with(s, p) {
        remove_all(s.skip(p.len() as int), p)
    } else {
        seq![s[0]] + remove_all(s.drop_first(), p)
    }
}

fn remove_all_of(s: &[char], p: &str) -> (r: Vec<char>)
    ensures
        r@ == remove_all(s@, p@),
{
    let pc = chars_of(p);
    let mut out: Vec<char> = Vec::new();
    let mut i: usize = 0;
    assert(s@.skip(0) =~= s@);
    while i < s.len()
        invariant
            i <= s@.len(),
            pc@ == p@,
            out@ + remove_all(s@.skip(i as int), p@) == remove_all(s@, p@),
        decreases s@.len() - i,
    {
        let ghost t = s@.skip(i as int);
        let hit = pc.len() > 0 && occurs_at(s, &pc, i);
        proof {
            if pc@.len() > 0 && pc@.len() <= t.len() {
                assert(t.take(pc@.len() as int) =~= s@.subrange(i as int, i + pc@.len()));
            }
        }
        if hit {
            proof {
                assert(t.skip(pc@.len() as int) =~= s@.skip(i + pc@.len()));
            }
            i = i + pc.len();
        } else {
            let ghost before = out@;
            out.push(s[i]);
            proof {
                assert(t[0] == s@[i as int]);
                assert(t.drop_first() =~= s@.skip(i + 1));
                assert(out@ + remove_all(s@.skip(i + 1), p@) =~= before + (seq![t[0]] + remove_all(
                    t.drop_first(),
                    p@,
                )));
            }
            i += 1;
        }
    }
    assert(s@.skip(i as int) =~= Seq::<char>::empty());
    assert(out@ + Seq::<char>::empty() =~= out@);
    out
}

/// The PCIe link of an AMD adapter from its `current_link_speed` and
/// `current_link_width` (both trimmed): `x<width> @ <speed>` with the word
/// ` PCIe` taken out of the speed; nothing when the width is unknown.
pub open spec fn amd_pcie_spec(speed: Seq<char>, width: Seq<char>) -> Option<Seq<char>> {
    if width.len() > 0 {
        Some("x"@ + width + " @ "@ + remove_all(speed, " PCIe"@))
    } else {
        None
    }
}

pub fn amd_pcie(speed: &str, width: &str) -> (r: Option<String>)
    ensures
        r.deep_view() == amd_pcie_spec(speed@, width@),
{
    let w = chars_of(width);
    if w.len() == 0 {
        return None;
    }
    let sp = remove_all_of(&chars_of(speed), " PCIe");
    let mut out: Vec<char> = chars_of("x");
    push_all(&mut out, &w);
    push_all(&mut out, &chars_of(" @ "));
    push_all(&mut out, &sp);
    Some(string_of(&out))
}

/// The five fields of the `nvidia-smi` telemetry query (temperature, power
/// draw, memory used, memory total, P-state), trimmed; `None` when it printed
/// fewer.
pub open spec fn nv_telemetry_spec(out: Seq<char>) -> Option<Seq<Seq<char>>> {
    let f = trim_each(split_char(trim(out), ','));
    if f.len() >= 5 {
        Some(f.take(5))
    } else {
        None
    }
}

pub fn nvidia_telemetry_fields(out: &str) -> (r: Option<Vec<String>>)
    ensures
        match r {
            Some(v) => nv_telemetry_spec(out@) == Some(v.deep_view()),
            None => nv_telemetry_spec(out@) is None,
        },
{
    let f = split_trimmed(&trim_chars(&chars_of(out)), ',');
    if f.len() >= 5 {
        let v = copy_range(&f, 0, 5);
        assert(f.deep_view().subrange(0, 5) =~= f.deep_view().take(5));
        Some(v)
    } else {
        None
    }
}

/// `used/total MB`.
pub fn vram_text(used: &str, total: &str) -> (r: String)
    ensures
        r@ == used@ + "/"@ + total@ + " MB"@,
{
    let mut out = chars_of(used);
    out.push('/');
    push_all(&mut out, &chars_of(total));
    push_all(&mut out, &chars_of(" MB"));
    proof {
        reveal_strlit("/");
    }
    assert(out@ =~= used@ + "/"@ + total@ + " MB"@);
    string_of(&out)
}

} // verus!
