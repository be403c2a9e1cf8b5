//! Block devices: `lsblk -P` records, the physical drive list with its
//! partitions, and the `/proc/diskstats` counters.
use vstd::prelude::*;
use crate::order::{key_of, lemma_sort_map, lex_less, sort_by_key, sort_ranked, Ranked, SortKey};
use crate::text::{
    chars_of, concat, find_char, find_from, lemma_chars_deep_view, lemma_deep_view_push, lines, lines_of,
    parse_u64, parse_u64_spec, push_all, slice_of, split_char, split_char_of, starts_with,
    starts_with_chars, str_eq, str_starts_with, string_of, trim, trim_chars, words, words_of,
};

verus! {

broadcast use lemma_chars_deep_view;

// ───────────────────────── `KEY="value"` records ─────────────────────────

/// Number of `' '` characters that start `t`.
pub open spec fn lead_spaces(t: Seq<char>) -> nat
    decreases t.len(),
{
    if t.len() > 0 && t[0] == ' ' {
        1 + lead_spaces(t.drop_first())
    } else {
        0
    }
}

/// The `KEY="value"` pairs of one `lsblk -P` line, in order: spaces are
/// skipped, the key runs up to `=`, the value is quoted. Reading stops at a
/// key without `=` or a value without an opening quote; a value whose closing
/// quote is missing runs to the end of the line and ends the record.
pub open spec fn lsblk_pairs(t: Seq<char>) -> Seq<(Seq<char>, Seq<char>)>
    decreases t.len(),
{
    let k = lead_spaces(t);
    if t.len() == 0 || k > t.len() {
        Seq::empty()
    } else {
        let u = t.skip(k as int);
        match find_char(u, '=') {
            Some(e) => {
                if 0 <= e < u.len() {
                    let rest = u.skip(e + 1);
                    if rest.len() == 0 || rest[0] != '"' {
                        Seq::empty()
                    } else {
                        let r2 = rest.drop_first();
                        match find_char(r2, '"') {
                            Some(q) => {
                                if 0 <= q < r2.len() {
                                    seq![(u.take(e), r2.take(q))] + lsblk_pairs(r2.skip(q + 1))
                                } else {
                                    seq![(u.take(e), r2)]
                                }
                            },
                            None => seq![(u.take(e), r2)],
                        }
                    }
                } else {
                    Seq::empty()
                }
            },
            None => Seq::empty(),
        }
    }
}

proof fn lemma_lead_spaces_at(t: Seq<char>, k: int)
    requires
        0 <= k <= t.len(),
        forall|j: int| 0 <= j < k ==> t[j] == ' ',
        k == t.len() || t[k] != ' ',
    ensures
        lead_spaces(t) == k,
    decreases k,
{
    if k > 0 {
        lemma_lead_spaces_at(t.drop_first(), k - 1);
    }
}

/// The value a map built from `ps` by inserting each pair in turn holds for
/// `key`: the last pair with that key wins.
pub open spec fn lookup(ps: Seq<(Seq<char>, Seq<char>)>, key: Seq<char>) -> Option<Seq<char>>
    decreases ps.len(),
{
    if ps.len() == 0 {
        None
    } else if ps.last().0 == key {
        Some(ps.last().1)
    } else {
        lookup(ps.drop_last(), key)
    }
}

/// `lookup`, or the empty string when the key is absent.
pub open spec fn get_or_empty(ps: Seq<(Seq<char>, Seq<char>)>, key: Seq<char>) -> Seq<char> {
    match lookup(ps, key) {
        Some(v) => v,
        None => Seq::empty(),
    }
}

/// A number read from an optional field: its value when it parses, else 0.
pub open spec fn num_or_zero(o: Option<Seq<char>>) -> u64 {
    match o {
        Some(v) => match parse_u64_spec(v) {
            Some(n) => n,
            None => 0,
        },
        None => 0,
    }
}

#[verifier::rlimit(30)]
fn pairs_of(t: &[char]) -> (r: Vec<(Vec<char>, Vec<char>)>)
    ensures
        r.deep_view() == lsblk_pairs(t@),
{
    let mut r: Vec<(Vec<char>, Vec<char>)> = Vec::new();
    let n = t.len();
    let mut i: usize = 0;
    assert(t@.skip(0) =~= t@);
    while i < n
        invariant
            n == t@.len(),
            i <= n,
            r.deep_view() + lsblk_pairs(t@.skip(i as int)) == lsblk_pairs(t@),
        decreases n - i,
    {
        let ghost s = t@.skip(i as int);
        let ks0 = i;
        while i < n && t[i] == ' '
            invariant
                n == t@.len(),
                ks0 <= i <= n,
                forall|j: int| ks0 <= j < i ==> t@[j] == ' ',
            decreases n - i,
        {
            i += 1;
        }
        proof {
            assert forall|j: int| 0 <= j < i - ks0 implies s[j] == ' ' by {
                assert(s[j] == t@[j + ks0]);
            }
            if i < n {
                assert(s[i - ks0] == t@[i as int]);
            }
            lemma_lead_spaces_at(s, i - ks0);
            assert(s.skip(i - ks0) =~= t@.skip(i as int));
        }
        let ghost u = t@.skip(i as int);
        let ks = i;
        let e = find_from(t, '=', ks);
        if e >= n {
            proof {
                assert(lsblk_pairs(s) =~= Seq::<(Seq<char>, Seq<char>)>::empty());
                assert(r.deep_view() + Seq::<(Seq<char>, Seq<char>)>::empty() =~= r.deep_view());
            }
            return r;
        }
        let key = slice_of(t, ks, e);
        proof {
            assert(u.take(e - ks) =~= key@);
        }
        if e + 1 >= n || t[e + 1] != '"' {
            proof {
                let rest = u.skip(e - ks + 1);
                if rest.len() > 0 {
                    assert(rest[0] == t@[e + 1]);
                }
                assert(lsblk_pairs(s) =~= Seq::<(Seq<char>, Seq<char>)>::empty());
                assert(r.deep_view() + Seq::<(Seq<char>, Seq<char>)>::empty() =~= r.deep_view());
            }
            return r;
        }
        let vs = e + 2;
        let q = find_from(t, '"', vs);
        let val = slice_of(t, vs, q);
        let ghost r2 = u.skip(e - ks + 1).drop_first();
        proof {
            assert(r2 =~= t@.skip(vs as int));
            assert(u.skip(e - ks + 1)[0] == t@[e + 1]);
        }
        let ghost old_r = r.deep_view();
        let ghost old_v = r@;
        let ghost pv = (key, val);
        r.push((key, val));
        proof {
            lemma_deep_view_push(r, old_v, pv);
            assert(r.deep_view() =~= old_r.push((pv.0@, pv.1@)));
        }
        if q >= n {
            proof {
                assert(r2.take(r2.len() as int) =~= r2);
                assert(pv.1@ =~= r2);
                assert(lsblk_pairs(s) == seq![(pv.0@, r2)]);
                assert(r.deep_view() =~= old_r + lsblk_pairs(s));
            }
            return r;
        }
        proof {
            assert(r2.take(q - vs) =~= pv.1@);
            assert(r2.skip(q - vs + 1) =~= t@.skip(q + 1));
            assert(lsblk_pairs(s) == seq![(pv.0@, pv.1@)] + lsblk_pairs(t@.skip(q + 1)));
            assert(r.deep_view() + lsblk_pairs(t@.skip(q + 1)) =~= old_r + lsblk_pairs(s));
        }
        i = q + 1;
    }
    assert(t@.skip(i as int) =~= Seq::<char>::empty());
    assert(r.deep_view() + Seq::<(Seq<char>, Seq<char>)>::empty() =~= r.deep_view());
    r
}

/// The `KEY="value"` pairs of one `lsblk -P` line, in order of appearance.
pub fn lsblk_kv(line: &str) -> (r: Vec<(String, String)>)
    ensures
        r.deep_view() == lsblk_pairs(line@),
{
    let t = chars_of(line);
    let ps = pairs_of(&t);
    let mut r: Vec<(String, String)> = Vec::new();
    let mut i: usize = 0;
    while i < ps.len()
        invariant
            i <= ps@.len(),
            ps.deep_view() == lsblk_pairs(line@),
            r.deep_view() == ps.deep_view().take(i as int),
        decreases ps@.len() - i,
    {
        let k = string_of(&ps[i].0);
        let v = string_of(&ps[i].1);
        let ghost old_r = r.deep_view();
        let ghost old_v = r@;
        let ghost pv = (k, v);
        r.push((k, v));
        proof {
            lemma_deep_view_push(r, old_v, pv);
            assert(ps.deep_view()[i as int] == (ps@[i as int].0@, ps@[i as int].1@));
            assert(r.deep_view() =~= ps.deep_view().take(i + 1));
        }
        i += 1;
    }
    assert(ps.deep_view().take(ps@.len() as int) =~= ps.deep_view());
    r
}

fn lookup_of(ps: &Vec<(Vec<char>, Vec<char>)>, key: &str) -> (r: Option<Vec<char>>)
    ensures
        r.deep_view() == lookup(ps.deep_view(), key@),
{
    let kc = chars_of(key);
    let mut i = ps.len();
    assert(ps.deep_view().take(i as int) =~= ps.deep_view());
    while i > 0
        invariant
            i <= ps@.len(),
            kc@ == key@,
            lookup(ps.deep_view().take(i as int), key@) == lookup(ps.deep_view(), key@),
        decreases i,
    {
        let ghost t = ps.deep_view().take(i as int);
        proof {
            assert(t.last() == (ps@[i - 1].0@, ps@[i - 1].1@));
            assert(t.drop_last() =~= ps.deep_view().take(i - 1));
        }
        if crate::text::chars_eq(&ps[i - 1].0, &kc) {
            return Some(crate::text::copy_of(&ps[i - 1].1));
        }
        i -= 1;
    }
    None
}

fn get_or_empty_of(ps: &Vec<(Vec<char>, Vec<char>)>, key: &str) -> (r: Vec<char>)
    ensures
        r@ == get_or_empty(ps.deep_view(), key@),
{
    match lookup_of(ps, key) {
        Some(v) => v,
        None => Vec::new(),
    }
}

fn num_or_zero_of(o: &Option<Vec<char>>) -> (n: u64)
    ensures
        n == num_or_zero(o.deep_view()),
{
    match o {
        Some(v) => match parse_u64(v) {
            Some(n) => n,
            None => 0,
        },
        None => 0,
    }
}

// ───────────────────────── drives and partitions ─────────────────────────

/// One partition of a drive.
pub struct PartRecord {
    pub name: String,
    pub fstype: String,
    pub mount: String,
    /// Bytes in use, 0 when unknown.
    pub used: u64,
    pub size: u64,
}

/// One physical drive and its partitions, as `lsblk` lists them.
pub struct DriveRecord {
    pub dev: String,
    /// `NVMe`, `SSD` or `HDD`.
    pub kind: String,
    pub model: String,
    pub serial: String,
    pub wwn: String,
    pub capacity: u64,
    /// Sum of the partition sizes.
    pub formatted: u64,
    pub is_system: bool,
    pub rotational: bool,
    pub partitions: Vec<PartRecord>,
}

pub ghost struct PartSpec {
    pub name: Seq<char>,
    pub fstype: Seq<char>,
    pub mount: Seq<char>,
    pub used: u64,
    pub size: u64,
}

pub ghost struct DriveSpec {
    pub dev: Seq<char>,
    pub kind: Seq<char>,
    pub model: Seq<char>,
    pub serial: Seq<char>,
    pub wwn: Seq<char>,
    pub capacity: u64,
    pub formatted: nat,
    pub is_system: bool,
    pub rotational: bool,
    pub partitions: Seq<PartSpec>,
}

impl View for PartRecord {
    type V = PartSpec;

    open spec fn view(&self) -> PartSpec {
        PartSpec {
            name: self.name@,
            fstype: self.fstype@,
            mount: self.mount@,
            used: self.used,
            size: self.size,
        }
    }
}

pub open spec fn part_views(ps: Seq<PartRecord>) -> Seq<PartSpec> {
    ps.map_values(|p: PartRecord| p@)
}

impl View for DriveRecord {
    type V = DriveSpec;

    open spec fn view(&self) -> DriveSpec {
        DriveSpec {
            dev: self.dev@,
            kind: self.kind@,
            model: self.model@,
            serial: self.serial@,
            wwn: self.wwn@,
            capacity: self.capacity,
            formatted: self.formatted as nat,
            is_system: self.is_system,
            rotational: self.rotational,
            partitions: part_views(self.partitions@),
        }
    }
}

pub open spec fn drive_views(ds: Seq<DriveRecord>) -> Seq<DriveSpec> {
    ds.map_values(|d: DriveRecord| d@)
}

impl Ranked for DriveRecord {
    open spec fn sort_key(&self) -> SortKey {
        (0, self.dev@)
    }

    fn goes_after(&self, other: &Self) -> (b: bool) {
        let a = chars_of(self.dev.as_str());
        let o = chars_of(other.dev.as_str());
        lex_less(&o, &a)
    }
}

/// Device names that are not physical drives.
pub open spec fn is_virtual_disk(name: Seq<char>) -> bool {
    ||| starts_with(name, "zram"@)
    ||| starts_with(name, "loop"@)
    ||| starts_with(name, "ram"@)
    ||| starts_with(name, "dm-"@)
    ||| starts_with(name, "md"@)
    ||| starts_with(name, "sr"@)
}

pub open spec fn drive_kind(name: Seq<char>, rota: bool) -> Seq<char> {
    if starts_with(name, "nvme"@) {
        "NVMe"@
    } else if rota {
        "HDD"@
    } else {
        "SSD"@
    }
}

/// The drive list after one more `lsblk` line: a `disk` line that names a
/// physical drive opens a new drive; a `part` line whose name extends the
/// last drive's name adds a partition to it.
pub open spec fn drive_step(ds: Seq<DriveSpec>, line: Seq<char>, root: Seq<char>) -> Seq<DriveSpec> {
    let ps = lsblk_pairs(line);
    let ty = get_or_empty(ps, "TYPE"@);
    let name = get_or_empty(ps, "NAME"@);
    if ty == "disk"@ {
        if is_virtual_disk(name) {
            ds
        } else {
            let rota = lookup(ps, "ROTA"@) == Some("1"@);
            ds.push(
                DriveSpec {
                    dev: name,
                    kind: drive_kind(name, rota),
                    model: trim(get_or_empty(ps, "MODEL"@)),
                    serial: get_or_empty(ps, "SERIAL"@),
                    wwn: get_or_empty(ps, "WWN"@),
                    capacity: num_or_zero(lookup(ps, "SIZE"@)),
                    formatted: 0,
                    is_system: root.len() > 0 && name == root,
                    rotational: rota,
                    partitions: Seq::empty(),
                },
            )
        }
    } else if ty == "part"@ && ds.len() > 0 && starts_with(name, ds.last().dev) {
        let d = ds.last();
        let size = num_or_zero(lookup(ps, "SIZE"@));
        let part = PartSpec {
            name: name,
            fstype: get_or_empty(ps, "FSTYPE"@),
            mount: get_or_empty(ps, "MOUNTPOINT"@),
            used: num_or_zero(lookup(ps, "FSUSED"@)),
            size: size,
        };
        ds.drop_last().push(
            DriveSpec { formatted: d.formatted + size as nat, partitions: d.partitions.push(part), ..d },
        )
    } else {
        ds
    }
}

pub open spec fn drives_after(ls: Seq<Seq<char>>, n: nat, root: Seq<char>) -> Seq<DriveSpec>
    decreases n,
{
    if n == 0 || n > ls.len() {
        Seq::empty()
    } else {
        drive_step(drives_after(ls, (n - 1) as nat, root), ls[n - 1], root)
    }
}

pub open spec fn drive_key() -> spec_fn(DriveSpec) -> SortKey {
    |d: DriveSpec| (0nat, d.dev)
}

/// Every drive's partition sizes add up to a number that fits in `u64`.
pub open spec fn sizes_fit(ds: Seq<DriveSpec>) -> bool {
    forall|j: int| 0 <= j < ds.len() ==> #[trigger] ds[j].formatted <= u64::MAX
}

/// The drives that `lsblk -b -P -o NAME,TYPE,MODEL,SERIAL,WWN,ROTA,SIZE,FSTYPE,
/// MOUNTPOINT,FSUSED` lists, sorted by device name; `None` where a drive's
/// partition sizes add up past `u64::MAX`.
pub open spec fn drive_list(text: Seq<char>, root: Seq<char>) -> Option<Seq<DriveSpec>> {
    let ls = lines(text);
    let ds = drives_after(ls, ls.len(), root);
    if sizes_fit(ds) {
        Some(sort_by_key(ds, drive_key()))
    } else {
        None
    }
}

proof fn lemma_step_grows(ds: Seq<DriveSpec>, line: Seq<char>, root: Seq<char>)
    ensures
        drive_step(ds, line, root).len() >= ds.len(),
        forall|j: int|
            0 <= j < ds.len() ==> #[trigger] drive_step(ds, line, root)[j].formatted
                >= ds[j].formatted,
{
}

proof fn lemma_after_grows(ls: Seq<Seq<char>>, i: nat, n: nat, root: Seq<char>)
    requires
        i <= n <= ls.len(),
    ensures
        drives_after(ls, n, root).len() >= drives_after(ls, i, root).len(),
        forall|j: int|
            0 <= j < drives_after(ls, i, root).len() ==> #[trigger] drives_after(
                ls,
                n,
                root,
            )[j].formatted >= drives_after(ls, i, root)[j].formatted,
    decreases n - i,
{
    if i < n {
        lemma_after_grows(ls, i, (n - 1) as nat, root);
        lemma_step_grows(drives_after(ls, (n - 1) as nat, root), ls[n - 1], root);
        let a = drives_after(ls, i, root);
        let b = drives_after(ls, (n - 1) as nat, root);
        let c = drives_after(ls, n, root);
        assert forall|j: int| 0 <= j < a.len() implies #[trigger] c[j].formatted
            >= a[j].formatted by {
            assert(c[j].formatted >= b[j].formatted);
            assert(b[j].formatted >= a[j].formatted);
        }
    }
}

fn make_part(ps: &Vec<(Vec<char>, Vec<char>)>, name: Vec<char>, size: u64) -> (p: PartRecord)
    ensures
        p@ == (PartSpec {
            name: name@,
            fstype: get_or_empty(ps.deep_view(), "FSTYPE"@),
            mount: get_or_empty(ps.deep_view(), "MOUNTPOINT"@),
            used: num_or_zero(lookup(ps.deep_view(), "FSUSED"@)),
            size: size,
        }),
{
    let fstype = get_or_empty_of(ps, "FSTYPE");
    let mount = get_or_empty_of(ps, "MOUNTPOINT");
    let used = num_or_zero_of(&lookup_of(ps, "FSUSED"));
    PartRecord {
        name: string_of(&name),
        fstype: string_of(&fstype),
        mount: string_of(&mount),
        used,
        size,
    }
}

fn make_drive(ps: &Vec<(Vec<char>, Vec<char>)>, name: Vec<char>, root: &[char]) -> (d: DriveRecord)
    ensures
        ({
            let pv = ps.deep_view();
            let rota = lookup(pv, "ROTA"@) == Some("1"@);
            d@ == DriveSpec {
                dev: name@,
                kind: drive_kind(name@, rota),
                model: trim(get_or_empty(pv, "MODEL"@)),
                serial: get_or_empty(pv, "SERIAL"@),
                wwn: get_or_empty(pv, "WWN"@),
                capacity: num_or_zero(lookup(pv, "SIZE"@)),
                formatted: 0,
                is_system: root@.len() > 0 && name@ == root@,
                rotational: rota,
                partitions: Seq::empty(),
            }
        }),
{
    let rota_v = lookup_of(ps, "ROTA");
    let rota = match &rota_v {
        Some(v) => str_eq(v, "1"),
        None => false,
    };
    proof {
        if let Some(v) = rota_v {
            assert(lookup(ps.deep_view(), "ROTA"@) == Some(v@));
        }
    }
    let kind = if str_starts_with(&name, "nvme") {
        "NVMe"
    } else if rota {
        "HDD"
    } else {
        "SSD"
    };
    let model = trim_chars(&get_or_empty_of(ps, "MODEL"));
    let serial = get_or_empty_of(ps, "SERIAL");
    let wwn = get_or_empty_of(ps, "WWN");
    let cap = num_or_zero_of(&lookup_of(ps, "SIZE"));
    let is_system = root.len() > 0 && crate::text::chars_eq(&name, root);
    let d = DriveRecord {
        dev: string_of(&name),
        kind: kind.to_owned(),
        model: string_of(&model),
        serial: string_of(&serial),
        wwn: string_of(&wwn),
        capacity: cap,
        formatted: 0,
        is_system,
        rotational: rota,
        partitions: Vec::new(),
    };
    assert(part_views(d.partitions@) =~= Seq::<PartSpec>::empty());
    d
}

/// The physical drives that `lsblk` lists (see `drive_list`), each with its
/// partitions, sorted by device name. `root_disk` is the drive that holds `/`
/// (empty when unknown). `None` where a drive's partition sizes add up past
/// `u64::MAX`.
pub fn enumerate_drives(lsblk_out: &str, root_disk: &str) -> (r: Option<Vec<DriveRecord>>)
    ensures
        match r {
            Some(v) => drive_list(lsblk_out@, root_disk@) == Some(drive_views(v@)),
            None => drive_list(lsblk_out@, root_disk@) is None,
        },
{
    let text = chars_of(lsblk_out);
    let root = chars_of(root_disk);
    let ls = lines_of(&text);
    let ghost lv = ls.deep_view();
    let mut drives: Vec<DriveRecord> = Vec::new();
    let mut i: usize = 0;
    assert(drive_views(drives@) =~= Seq::<DriveSpec>::empty());
    while i < ls.len()
        invariant
            i <= ls@.len(),
            lv == ls.deep_view(),
            lv == lines(lsblk_out@),
            root@ == root_disk@,
            drive_views(drives@) == drives_after(lv, i as nat, root_disk@),
        decreases ls@.len() - i,
    {
        let ghost before = drives_after(lv, i as nat, root_disk@);
        let line = &ls[i];
        let ps = pairs_of(line);
        let ty = get_or_empty_of(&ps, "TYPE");
        let name = get_or_empty_of(&ps, "NAME");
        proof {
            assert(lv[i as int] == line@);
            assert(drives_after(lv, (i + 1) as nat, root_disk@) == drive_step(
                before,
                line@,
                root_disk@,
            ));
        }
        if str_eq(&ty, "disk") {
            let skip = str_starts_with(&name, "zram") || str_starts_with(&name, "loop")
                || str_starts_with(&name, "ram") || str_starts_with(&name, "dm-")
                || str_starts_with(&name, "md") || str_starts_with(&name, "sr");
            if !skip {
                let d = make_drive(&ps, name, &root);
                drives.push(d);
                assert(drive_views(drives@) =~= before.push(d@));
            }
        } else if str_eq(&ty, "part") && drives.len() > 0 {
            let last = drives.len() - 1;
            let dev = chars_of(drives[last].dev.as_str());
            if starts_with_chars(&name, &dev) {
                let size = num_or_zero_of(&lookup_of(&ps, "SIZE"));
                let mut d = drives.pop().unwrap();
                let ghost d0 = d;
                assert(before.last() == d0@);
                let f = d.formatted.checked_add(size);
                match f {
                    None => {
                        proof {
                            let next = drives_after(lv, (i + 1) as nat, root_disk@);
                            assert(next[last as int].formatted > u64::MAX);
                            lemma_after_grows(lv, (i + 1) as nat, lv.len(), root_disk@);
                            let fin = drives_after(lv, lv.len(), root_disk@);
                            assert(fin[last as int].formatted > u64::MAX);
                            assert(!sizes_fit(fin));
                        }
                        return None;
                    },
                    Some(total) => {
                        let p = make_part(&ps, name, size);
                        let ghost pv = p@;
                        d.formatted = total;
                        d.partitions.push(p);
                        assert(part_views(d.partitions@) =~= part_views(d0.partitions@).push(pv));
                        drives.push(d);
                        assert(drive_views(drives@) =~= drive_step(before, line@, root_disk@));
                    },
                }
            }
        }
        i += 1;
    }
    proof {
        let ds = drives_after(lv, lv.len(), root_disk@);
        assert(sizes_fit(ds)) by {
            assert forall|j: int| 0 <= j < ds.len() implies #[trigger] ds[j].formatted
                <= u64::MAX by {
                assert(ds[j] == drives@[j]@);
            }
        }
    }
    let ghost unsorted = drives@;
    sort_ranked(&mut drives);
    proof {
        let f = |d: DriveRecord| d@;
        assert forall|a: DriveRecord| #[trigger] drive_key()(f(a)) == key_of::<DriveRecord>()(a) by {}
        lemma_sort_map(unsorted, f, key_of::<DriveRecord>(), drive_key());
        assert(drive_views(drives@) == sort_by_key(drive_views(unsorted), drive_key()));
    }
    Some(drives)
}

/// Everything before the first `[` of `findmnt -n -o SOURCE /`, trimmed: the
/// device that holds `/` (a btrfs subvolume suffix is dropped).
pub open spec fn mount_source(out: Seq<char>) -> Seq<char> {
    trim(split_char(out, '[')[0])
}

pub fn root_mount_source(findmnt_out: &str) -> (r: String)
    ensures
        r@ == mount_source(findmnt_out@),
{
    let t = chars_of(findmnt_out);
    let parts = split_char_of(&t, '[');
    let s = trim_chars(&parts[0]);
    string_of(&s)
}

/// Structural signature of a drive list: each device name with its
/// partition names; it changes only when a drive or partition comes or goes.
pub open spec fn drive_sig(ds: Seq<DriveSpec>) -> Seq<char>
    decreases ds.len(),
{
    if ds.len() == 0 {
        Seq::empty()
    } else {
        drive_sig(ds.drop_last()) + ds.last().dev + seq!['|'] + part_names_sig(
            ds.last().partitions,
        ) + seq![';']
    }
}

pub open spec fn part_names_sig(ps: Seq<PartSpec>) -> Seq<char>
    decreases ps.len(),
{
    if ps.len() == 0 {
        Seq::empty()
    } else {
        part_names_sig(ps.drop_last()) + ps.last().name + seq![',']
    }
}

/// Two drives with the same device and partition names.
pub open spec fn same_structure(a: DriveSpec, b: DriveSpec) -> bool {
    a.dev == b.dev && a.partitions.len() == b.partitions.len() && forall|k: int|
        0 <= k < a.partitions.len() ==> #[trigger] a.partitions[k].name == b.partitions[k].name
}

proof fn lemma_part_sig_names(a: Seq<PartSpec>, b: Seq<PartSpec>)
    requires
        a.len() == b.len(),
        forall|k: int| 0 <= k < a.len() ==> #[trigger] a[k].name == b[k].name,
    ensures
        part_names_sig(a) == part_names_sig(b),
    decreases a.len(),
{
    if a.len() > 0 {
        assert forall|k: int| 0 <= k < a.drop_last().len() implies #[trigger] a.drop_last()[k].name
            == b.drop_last()[k].name by {
            assert(a.drop_last()[k] == a[k]);
            assert(b.drop_last()[k] == b[k]);
        }
        lemma_part_sig_names(a.drop_last(), b.drop_last());
    }
}

/// The drive signature changes only when a drive or a partition is added,
/// removed or renamed: lists of the same structure have the same signature,
/// whatever their sizes, usage and other details.
pub proof fn lemma_drive_sig_structural(a: Seq<DriveSpec>, b: Seq<DriveSpec>)
    requires
        a.len() == b.len(),
        forall|i: int| 0 <= i < a.len() ==> same_structure(#[trigger] a[i], b[i]),
    ensures
        drive_sig(a) == drive_sig(b),
    decreases a.len(),
{
    if a.len() > 0 {
        assert forall|i: int| 0 <= i < a.drop_last().len() implies same_structure(
            #[trigger] a.drop_last()[i],
            b.drop_last()[i],
        ) by {
            assert(a.drop_last()[i] == a[i]);
            assert(b.drop_last()[i] == b[i]);
        }
        lemma_drive_sig_structural(a.drop_last(), b.drop_last());
        assert(same_structure(a[a.len() - 1], b[b.len() - 1]));
        lemma_part_sig_names(a.last().partitions, b.last().partitions);
    }
}

proof fn lemma_drives_physical(ls: Seq<Seq<char>>, n: nat, root: Seq<char>)
    ensures
        forall|j: int|
            0 <= j < drives_after(ls, n, root).len() ==> !is_virtual_disk(
                #[trigger] drives_after(ls, n, root)[j].dev,
            ),
    decreases n,
{
    if n > 0 && n <= ls.len() {
        lemma_drives_physical(ls, (n - 1) as nat, root);
        let p = drives_after(ls, (n - 1) as nat, root);
        let q = drives_after(ls, n, root);
        assert forall|j: int| 0 <= j < q.len() implies !is_virtual_disk(#[trigger] q[j].dev) by {
            if j < p.len() - 1 {
                assert(q[j] == p[j]);
            } else if j == p.len() - 1 {
                assert(q[j].dev == p[j].dev);
            }
        }
    }
}

/// Virtual block devices (zram, loop, RAM disks, device-mapper and RAID
/// devices, optical drives) are never listed as drives.
pub proof fn lemma_no_virtual_drives(text: Seq<char>, root: Seq<char>)
    ensures
        drive_list(text, root) matches Some(ds) ==> forall|j: int|
            0 <= j < ds.len() ==> !is_virtual_disk(#[trigger] ds[j].dev),
{
    broadcast use vstd::seq_lib::to_multiset_contains;

    let ls = lines(text);
    let ds = drives_after(ls, ls.len(), root);
    lemma_drives_physical(ls, ls.len(), root);
    crate::order::lemma_sort_sorted(ds, drive_key());
    let r = sort_by_key(ds, drive_key());
    assert forall|j: int| 0 <= j < r.len() implies !is_virtual_disk(#[trigger] r[j].dev) by {
        assert(r.contains(r[j]));
        assert(r.to_multiset().count(r[j]) > 0);
        assert(ds.contains(r[j]));
    }
}

/// The kind a drive shows: NVMe by its name, else HDD when rotational and
/// SSD when not.
pub open spec fn kind_fits(d: DriveSpec) -> bool {
    &&& starts_with(d.dev, "nvme"@) ==> d.kind == "NVMe"@
    &&& !starts_with(d.dev, "nvme"@) ==> (d.kind == "HDD"@ <==> d.rotational)
    &&& !starts_with(d.dev, "nvme"@) ==> (d.kind == "SSD"@ <==> !d.rotational)
}

/// `line` is an `lsblk` disk line for device `dev` whose `ROTA` field says
/// `rota` (`1` for rotational).
pub open spec fn disk_line_for(line: Seq<char>, dev: Seq<char>, rota: bool) -> bool {
    let ps = lsblk_pairs(line);
    &&& get_or_empty(ps, "TYPE"@) == "disk"@
    &&& get_or_empty(ps, "NAME"@) == dev
    &&& (lookup(ps, "ROTA"@) == Some("1"@)) == rota
}

proof fn lemma_drive_kinds(ls: Seq<Seq<char>>, n: nat, root: Seq<char>)
    ensures
        forall|j: int|
            0 <= j < drives_after(ls, n, root).len() ==> kind_fits(
                #[trigger] drives_after(ls, n, root)[j],
            ) && exists|m: int|
                0 <= m < n && m < ls.len() && disk_line_for(
                    ls[m],
                    drives_after(ls, n, root)[j].dev,
                    drives_after(ls, n, root)[j].rotational,
                ),
    decreases n,
{
    reveal_strlit("NVMe");
    reveal_strlit("HDD");
    reveal_strlit("SSD");
    assert("HDD"@ != "SSD"@) by {
        assert("HDD"@[0] != "SSD"@[0]);
    }
    if n > 0 && n <= ls.len() {
        lemma_drive_kinds(ls, (n - 1) as nat, root);
        let p = drives_after(ls, (n - 1) as nat, root);
        let q = drives_after(ls, n, root);
        assert forall|j: int| 0 <= j < q.len() implies kind_fits(#[trigger] q[j]) && exists|m: int|
            0 <= m < n && m < ls.len() && disk_line_for(ls[m], q[j].dev, q[j].rotational) by {
            if j < p.len() - 1 {
                assert(q[j] == p[j]);
                assert(kind_fits(p[j]));
                let m = choose|m: int|
                    0 <= m < n - 1 && m < ls.len() && disk_line_for(ls[m], p[j].dev, p[j].rotational);
                assert(disk_line_for(ls[m], q[j].dev, q[j].rotational));
            } else if j == p.len() - 1 {
                assert(q[j].dev == p[j].dev && q[j].kind == p[j].kind && q[j].rotational
                    == p[j].rotational);
                assert(kind_fits(p[j]));
                let m = choose|m: int|
                    0 <= m < n - 1 && m < ls.len() && disk_line_for(ls[m], p[j].dev, p[j].rotational);
                assert(disk_line_for(ls[m], q[j].dev, q[j].rotational));
            } else {
                assert(disk_line_for(ls[n - 1], q[j].dev, q[j].rotational));
                assert(kind_fits(q[j]));
            }
        }
    }
}

/// A listed drive shows as NVMe when its name starts with `nvme`; any other
/// drive shows as HDD exactly when it is rotational and as SSD exactly when
/// it is not; and a drive is rotational exactly when the `lsblk` disk line
/// for it says `ROTA="1"`.
pub proof fn lemma_drive_kind_by_rotation(text: Seq<char>, root: Seq<char>)
    ensures
        drive_list(text, root) matches Some(ds) ==> forall|j: int|
            0 <= j < ds.len() ==> kind_fits(#[trigger] ds[j]) && exists|m: int|
                0 <= m < lines(text).len() && disk_line_for(
                    lines(text)[m],
                    ds[j].dev,
                    ds[j].rotational,
                ),
{
    broadcast use vstd::seq_lib::to_multiset_contains;

    let ls = lines(text);
    let ds = drives_after(ls, ls.len(), root);
    lemma_drive_kinds(ls, ls.len(), root);
    crate::order::lemma_sort_sorted(ds, drive_key());
    let r = sort_by_key(ds, drive_key());
    assert forall|j: int| 0 <= j < r.len() implies kind_fits(#[trigger] r[j]) && exists|m: int|
        0 <= m < ls.len() && disk_line_for(ls[m], r[j].dev, r[j].rotational) by {
        assert(r.contains(r[j]));
        assert(r.to_multiset().count(r[j]) > 0);
        assert(ds.contains(r[j]));
        let k = choose|k: int| 0 <= k < ds.len() && ds[k] == r[j];
        assert(kind_fits(ds[k]));
    }
}

pub fn drive_signature(drives: &Vec<DriveRecord>) -> (s: String)
    ensures
        s@ == drive_sig(drive_views(drives@)),
{
    let mut out: Vec<char> = Vec::new();
    let mut i: usize = 0;
    while i < drives.len()
        invariant
            i <= drives@.len(),
            out@ == drive_sig(drive_views(drives@).take(i as int)),
        decreases drives@.len() - i,
    {
        let d = &drives[i];
        push_all(&mut out, &chars_of(d.dev.as_str()));
        out.push('|');
        let mut k: usize = 0;
        let ghost base = out@;
        while k < d.partitions.len()
            invariant
                k <= d.partitions@.len(),
                out@ == base + part_names_sig(part_views(d.partitions@).take(k as int)),
            decreases d.partitions@.len() - k,
        {
            push_all(&mut out, &chars_of(d.partitions[k].name.as_str()));
            out.push(',');
            proof {
                let pv = part_views(d.partitions@);
                assert(pv.take(k + 1).drop_last() =~= pv.take(k as int));
                assert(pv.take(k + 1).last() == d.partitions@[k as int]@);
            }
            k += 1;
        }
        out.push(';');
        proof {
            let dv = drive_views(drives@);
            assert(part_views(d.partitions@).take(d.partitions@.len() as int) =~= part_views(
                d.partitions@,
            ));
            assert(dv.take(i + 1).drop_last() =~= dv.take(i as int));
            assert(dv.take(i + 1).last() == d@);
            assert(out@ =~= drive_sig(dv.take(i + 1)));
        }
        i += 1;
    }
    assert(drive_views(drives@).take(drives@.len() as int) =~= drive_views(drives@));
    string_of(&out)
}

// ───────────────────────── live partition usage ─────────────────────────

/// `(NAME, FSUSED)` of every line of `lsblk -b -P -o NAME,FSUSED` that has a
/// name, in order; an unreadable size counts as 0.
pub open spec fn usage_pairs(ls: Seq<Seq<char>>) -> Seq<(Seq<char>, u64)>
    decreases ls.len(),
{
    if ls.len() == 0 {
        Seq::empty()
    } else {
        let ps = lsblk_pairs(ls.last());
        let rest = usage_pairs(ls.drop_last());
        match lookup(ps, "NAME"@) {
            Some(n) => rest.push((n, num_or_zero(lookup(ps, "FSUSED"@)))),
            None => rest,
        }
    }
}

/// The bytes in use that a map built from `us` holds for `name` (last entry
/// wins).
pub open spec fn usage_of(us: Seq<(Seq<char>, u64)>, name: Seq<char>) -> Option<u64>
    decreases us.len(),
{
    if us.len() == 0 {
        None
    } else if us.last().0 == name {
        Some(us.last().1)
    } else {
        usage_of(us.drop_last(), name)
    }
}

pub fn lsblk_usage(lsblk_out: &str) -> (r: Vec<(String, u64)>)
    ensures
        r.deep_view() == usage_pairs(lines(lsblk_out@)),
{
    let text = chars_of(lsblk_out);
    let ls = lines_of(&text);
    let mut r: Vec<(String, u64)> = Vec::new();
    let mut i: usize = 0;
    while i < ls.len()
        invariant
            i <= ls@.len(),
            ls.deep_view() == lines(lsblk_out@),
            r.deep_view() == usage_pairs(ls.deep_view().take(i as int)),
        decreases ls@.len() - i,
    {
        let ps = pairs_of(&ls[i]);
        let ghost lv = ls.deep_view();
        proof {
            assert(lv.take(i + 1).drop_last() =~= lv.take(i as int));
            assert(lv.take(i + 1).last() == ls@[i as int]@);
        }
        match lookup_of(&ps, "NAME") {
            Some(n) => {
                let u = num_or_zero_of(&lookup_of(&ps, "FSUSED"));
                let ghost old_r = r.deep_view();
                let ghost old_v = r@;
                let pair = (string_of(&n), u);
                let ghost pv = pair;
                r.push(pair);
                proof {
                    lemma_deep_view_push(r, old_v, pv);
                    assert(r.deep_view() =~= old_r.push((n@, u)));
                }
            },
            None => {},
        }
        i += 1;
    }
    assert(ls.deep_view().take(ls@.len() as int) =~= ls.deep_view());
    r
}

/// A partition's bytes in use after a usage refresh: the fresh figure when
/// there is one above zero, else the previous one.
pub open spec fn refreshed_used(p: PartSpec, us: Seq<(Seq<char>, u64)>) -> u64 {
    match usage_of(us, p.name) {
        Some(u) => {
            if u > 0 {
                u
            } else {
                p.used
            }
        },
        None => p.used,
    }
}

fn usage_lookup(us: &Vec<(String, u64)>, name: &[char]) -> (r: Option<u64>)
    ensures
        r == usage_of(us.deep_view(), name@),
{
    let mut i = us.len();
    assert(us.deep_view().take(i as int) =~= us.deep_view());
    while i > 0
        invariant
            i <= us@.len(),
            usage_of(us.deep_view().take(i as int), name@) == usage_of(us.deep_view(), name@),
        decreases i,
    {
        let ghost t = us.deep_view().take(i as int);
        proof {
            assert(t.last() == (us@[i - 1].0@, us@[i - 1].1));
            assert(t.drop_last() =~= us.deep_view().take(i - 1));
        }
        if crate::text::chars_eq(&chars_of(us[i - 1].0.as_str()), name) {
            return Some(us[i - 1].1);
        }
        i -= 1;
    }
    None
}

/// Brings the partitions' bytes in use up to date from `usage`.
pub fn apply_part_usage(parts: &mut Vec<PartRecord>, usage: &Vec<(String, u64)>)
    ensures
        final(parts)@.len() == old(parts)@.len(),
        forall|k: int|
            0 <= k < old(parts)@.len() ==> #[trigger] final(parts)@[k]@ == (PartSpec {
                used: refreshed_used(old(parts)@[k]@, usage.deep_view()),
                ..old(parts)@[k]@
            }),
{
    let ghost orig = parts@;
    let mut k: usize = 0;
    while k < parts.len()
        invariant
            k <= parts@.len(),
            parts@.len() == orig.len(),
            forall|j: int|
                0 <= j < k ==> #[trigger] parts@[j]@ == (PartSpec {
                    used: refreshed_used(orig[j]@, usage.deep_view()),
                    ..orig[j]@
                }),
            forall|j: int| k <= j < parts@.len() ==> #[trigger] parts@[j] == orig[j],
        decreases parts@.len() - k,
    {
        let name = chars_of(parts[k].name.as_str());
        match usage_lookup(usage, &name) {
            Some(u) => {
                if u > 0 {
                    parts[k].used = u;
                }
            },
            None => {},
        }
        k += 1;
    }
}

/// Bytes in use of the first partition in `olds` named `name`.
pub open spec fn first_used_of(olds: Seq<PartSpec>, name: Seq<char>) -> Option<u64>
    decreases olds.len(),
{
    if olds.len() == 0 {
        None
    } else if olds[0].name == name {
        Some(olds[0].used)
    } else {
        first_used_of(olds.drop_first(), name)
    }
}

/// What a partition of a rescanned drive keeps: a partition that `lsblk`
/// reports no usage for takes it over from the same-named partition of the
/// drive's earlier listing, so the usage bar does not blank out between
/// refreshes.
pub open spec fn inherited_used(p: PartSpec, olds: Seq<PartSpec>) -> u64 {
    if p.used == 0 {
        match first_used_of(olds, p.name) {
            Some(u) => u,
            None => p.used,
        }
    } else {
        p.used
    }
}

fn first_used_lookup(olds: &Vec<PartRecord>, name: &[char]) -> (r: Option<u64>)
    ensures
        r == first_used_of(part_views(olds@), name@),
{
    let ghost ov = part_views(olds@);
    let mut i: usize = 0;
    assert(ov.skip(0) =~= ov);
    while i < olds.len()
        invariant
            i <= olds@.len(),
            ov == part_views(olds@),
            first_used_of(ov.skip(i as int), name@) == first_used_of(ov, name@),
        decreases olds@.len() - i,
    {
        proof {
            assert(ov.skip(i as int)[0] == olds@[i as int]@);
            assert(ov.skip(i as int).drop_first() =~= ov.skip(i + 1));
        }
        if crate::text::chars_eq(&chars_of(olds[i].name.as_str()), name) {
            return Some(olds[i].used);
        }
        i += 1;
    }
    proof {
        assert(ov.skip(i as int) =~= Seq::<PartSpec>::empty());
    }
    None
}

/// Carries the bytes in use over from the drive's earlier partition list
/// (`olds`) to the partitions that report none.
pub fn inherit_part_used(parts: &mut Vec<PartRecord>, olds: &Vec<PartRecord>)
    ensures
        final(parts)@.len() == old(parts)@.len(),
        forall|k: int|
            0 <= k < old(parts)@.len() ==> #[trigger] final(parts)@[k]@ == (PartSpec {
                used: inherited_used(old(parts)@[k]@, part_views(olds@)),
                ..old(parts)@[k]@
            }),
{
    let ghost orig = parts@;
    let mut k: usize = 0;
    while k < parts.len()
        invariant
            k <= parts@.len(),
            parts@.len() == orig.len(),
            forall|j: int|
                0 <= j < k ==> #[trigger] parts@[j]@ == (PartSpec {
                    used: inherited_used(orig[j]@, part_views(olds@)),
                    ..orig[j]@
                }),
            forall|j: int| k <= j < parts@.len() ==> #[trigger] parts@[j] == orig[j],
        decreases parts@.len() - k,
    {
        if parts[k].used == 0 {
            let name = chars_of(parts[k].name.as_str());
            match first_used_lookup(olds, &name) {
                Some(u) => {
                    parts[k].used = u;
                },
                None => {},
            }
        }
        k += 1;
    }
}

// ───────────────────────── /proc/diskstats ─────────────────────────

/// Cumulative I/O counters of one block device.
#[derive(Clone, Copy)]
pub struct DiskCounters {
    pub reads: u64,
    pub sect_read: u64,
    pub ms_read: u64,
    pub writes: u64,
    pub sect_written: u64,
    pub ms_write: u64,
    pub ms_io: u64,
}

impl DeepView for DiskCounters {
    type V = DiskCounters;

    open spec fn deep_view(&self) -> DiskCounters {
        *self
    }
}

/// Field `i` of a `/proc/diskstats` line as a number, 0 when it does not parse.
pub open spec fn field_num(f: Seq<Seq<char>>, i: int) -> u64 {
    if 0 <= i < f.len() {
        num_or_zero(Some(f[i]))
    } else {
        0
    }
}

pub open spec fn counters_of(f: Seq<Seq<char>>) -> DiskCounters {
    DiskCounters {
        reads: field_num(f, 3),
        sect_read: field_num(f, 5),
        ms_read: field_num(f, 6),
        writes: field_num(f, 7),
        sect_written: field_num(f, 9),
        ms_write: field_num(f, 10),
        ms_io: field_num(f, 12),
    }
}

/// `(device, counters)` for every line of `/proc/diskstats` that has at least
/// 13 fields, in order.
pub open spec fn diskstats_entries(ls: Seq<Seq<char>>) -> Seq<(Seq<char>, DiskCounters)>
    decreases ls.len(),
{
    if ls.len() == 0 {
        Seq::empty()
    } else {
        let f = words(ls.last());
        let rest = diskstats_entries(ls.drop_last());
        if f.len() < 13 {
            rest
        } else {
            rest.push((f[2], counters_of(f)))
        }
    }
}

pub fn field_num_of(f: &Vec<Vec<char>>, i: usize) -> (n: u64)
    ensures
        n == field_num(f.deep_view(), i as int),
{
    if i < f.len() {
        match parse_u64(&f[i]) {
            Some(n) => n,
            None => 0,
        }
    } else {
        0
    }
}

/// The counters of `/proc/diskstats`, device by device, in order.
pub fn parse_diskstats(content: &str) -> (r: Vec<(String, DiskCounters)>)
    ensures
        r.deep_view() == diskstats_entries(lines(content@)),
{
    let text = chars_of(content);
    let ls = lines_of(&text);
    let mut r: Vec<(String, DiskCounters)> = Vec::new();
    let mut i: usize = 0;
    while i < ls.len()
        invariant
            i <= ls@.len(),
            ls.deep_view() == lines(content@),
            r.deep_view() == diskstats_entries(ls.deep_view().take(i as int)),
        decreases ls@.len() - i,
    {
        let f = words_of(&ls[i]);
        let ghost lv = ls.deep_view();
        proof {
            assert(lv.take(i + 1).drop_last() =~= lv.take(i as int));
            assert(lv.take(i + 1).last() == ls@[i as int]@);
        }
        if f.len() >= 13 {
            let c = DiskCounters {
                reads: field_num_of(&f, 3),
                sect_read: field_num_of(&f, 5),
                ms_read: field_num_of(&f, 6),
                writes: field_num_of(&f, 7),
                sect_written: field_num_of(&f, 9),
                ms_write: field_num_of(&f, 10),
                ms_io: field_num_of(&f, 12),
            };
            let name = string_of(&f[2]);
            let ghost old_r = r.deep_view();
            let ghost old_v = r@;
            let ghost pv = (name, c);
            r.push((name, c));
            proof {
                lemma_deep_view_push(r, old_v, pv);
                assert(f.deep_view()[2] == f@[2]@);
                assert(r.deep_view() =~= old_r.push((f.deep_view()[2], counters_of(
                    f.deep_view(),
                ))));
            }
        }
        i += 1;
    }
    assert(ls.deep_view().take(ls@.len() as int) =~= ls.deep_view());
    r
}

/// The counters that a map built from `es` holds for `dev` (last line wins).
pub open spec fn counters_for(es: Seq<(Seq<char>, DiskCounters)>, dev: Seq<char>) -> Option<
    DiskCounters,
>
    decreases es.len(),
{
    if es.len() == 0 {
        None
    } else if es.last().0 == dev {
        Some(es.last().1)
    } else {
        counters_for(es.drop_last(), dev)
    }
}

pub fn diskstats_for(stats: &Vec<(String, DiskCounters)>, dev: &str) -> (r: Option<DiskCounters>)
    ensures
        r == counters_for(stats.deep_view(), dev@),
{
    let d = chars_of(dev);
    let mut i = stats.len();
    assert(stats.deep_view().take(i as int) =~= stats.deep_view());
    while i > 0
        invariant
            i <= stats@.len(),
            d@ == dev@,
            counters_for(stats.deep_view().take(i as int), dev@) == counters_for(
                stats.deep_view(),
                dev@,
            ),
        decreases i,
    {
        let ghost t = stats.deep_view().take(i as int);
        proof {
            assert(t.last() == (stats@[i - 1].0@, stats@[i - 1].1));
            assert(t.drop_last() =~= stats.deep_view().take(i - 1));
        }
        if crate::text::chars_eq(&chars_of(stats[i - 1].0.as_str()), &d) {
            return Some(stats[i - 1].1);
        }
        i -= 1;
    }
    None
}

/// Bytes read and written in total (512-byte sectors); `None` where a total
/// passes `u64::MAX`.
pub fn disk_totals(c: &DiskCounters) -> (r: Option<(u64, u64)>)
    ensures
        match r {
            Some((rd, wr)) => rd == c.sect_read * 512 && wr == c.sect_written * 512,
            None => c.sect_read * 512 > u64::MAX || c.sect_written * 512 > u64::MAX,
        },
{
    match (c.sect_read.checked_mul(512), c.sect_written.checked_mul(512)) {
        (Some(a), Some(b)) => Some((a, b)),
        _ => None,
    }
}

/// Change of the counters over one sampling interval (counters that went
/// back count as no change).
pub struct DiskDelta {
    pub sect_read: u64,
    pub sect_written: u64,
    pub ms_io: u64,
    /// Reads and writes completed.
    pub ios: u64,
    /// Milliseconds spent reading and writing.
    pub ms: u64,
}

pub open spec fn sat_sub(a: u64, b: u64) -> nat {
    if a >= b {
        (a - b) as nat
    } else {
        0
    }
}

pub fn disk_delta(prev: &DiskCounters, cur: &DiskCounters) -> (r: Option<DiskDelta>)
    ensures
        match r {
            Some(d) => {
                &&& d.sect_read == sat_sub(cur.sect_read, prev.sect_read)
                &&& d.sect_written == sat_sub(cur.sect_written, prev.sect_written)
                &&& d.ms_io == sat_sub(cur.ms_io, prev.ms_io)
                &&& d.ios == sat_sub(cur.reads, prev.reads) + sat_sub(cur.writes, prev.writes)
                &&& d.ms == sat_sub(cur.ms_read, prev.ms_read) + sat_sub(cur.ms_write, prev.ms_write)
            },
            None => {
                ||| sat_sub(cur.reads, prev.reads) + sat_sub(cur.writes, prev.writes) > u64::MAX
                ||| sat_sub(cur.ms_read, prev.ms_read) + sat_sub(cur.ms_write, prev.ms_write)
                    > u64::MAX
            },
        },
{
    let ios = cur.reads.saturating_sub(prev.reads).checked_add(cur.writes.saturating_sub(prev.writes));
    let ms = cur.ms_read.saturating_sub(prev.ms_read).checked_add(
        cur.ms_write.saturating_sub(prev.ms_write),
    );
    match (ios, ms) {
        (Some(ios), Some(ms)) => Some(
            DiskDelta {
                sect_read: cur.sect_read.saturating_sub(prev.sect_read),
                sect_written: cur.sect_written.saturating_sub(prev.sect_written),
                ms_io: cur.ms_io.saturating_sub(prev.ms_io),
                ios,
                ms,
            },
        ),
        _ => None,
    }
}

// ───────────────────────── partition rows ─────────────────────────

/// The subtitle of a partition's row: its file system and mount point, `?`
/// for an unknown file system, and `not mounted` (or the file system alone)
/// when it is not mounted.
pub open spec fn partition_subtitle_spec(fstype: Seq<char>, mount: Seq<char>) -> Seq<char> {
    if mount.len() == 0 {
        if fstype.len() == 0 {
            "not mounted"@
        } else {
            fstype
        }
    } else {
        (if fstype.len() == 0 {
            "?"@
        } else {
            fstype
        }) + " • "@ + mount
    }
}

pub fn partition_subtitle(fstype: &str, mount: &str) -> (r: String)
    ensures
        r@ == partition_subtitle_spec(fstype@, mount@),
{
    let f = chars_of(fstype);
    let m = chars_of(mount);
    if m.len() == 0 {
        if f.len() == 0 {
            "not mounted".to_owned()
        } else {
            fstype.to_owned()
        }
    } else {
        let head = if f.len() == 0 {
            chars_of("?")
        } else {
            f
        };
        let mut out = concat(&head, &chars_of(" • "));
        push_all(&mut out, &m);
        string_of(&out)
    }
}

} // verus!
