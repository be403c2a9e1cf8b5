//! Network interfaces: which ones are listed and in what order, their state
//! text, what `ip -o addr`, `iw dev <if> link` and `lspci -mm` print about
//! them, and the Tailscale device list.
use vstd::prelude::*;
use crate::order::{key_of, lemma_sort_map, lex_less, sort_by_key, sort_ranked, Ranked, SortKey};
use crate::text::{
    chars_of, contains_seq, lemma_chars_deep_view, lemma_deep_view_push, lines, lines_of, push_all,
    split_char, split_char_of, starts_with, str_contains, str_eq, str_starts_with, strip_prefix,
    strip_prefix_str, string_of, to_uppercase, trim, trim_chars, uppercase, words, words_of,
};

verus! {

broadcast use lemma_chars_deep_view;

// ───────────────────────── interfaces ─────────────────────────

/// Interfaces that get a page: all but loopback and container veths.
pub open spec fn iface_listed_spec(name: Seq<char>) -> bool {
    name != "lo"@ && !starts_with(name, "veth"@)
}

pub fn iface_listed(name: &str) -> (b: bool)
    ensures
        b == iface_listed_spec(name@),
{
    let n = chars_of(name);
    !str_eq(&n, "lo") && !str_starts_with(&n, "veth")
}

/// A listed interface: its name, its kind (`Wired`, `Wireless` or `Other`)
/// and the rank it sorts by (wired first, then wireless, then the rest).
pub struct NetEntry {
    pub iface: String,
    pub kind: String,
    pub is_wireless: bool,
    pub rank: u8,
}

pub open spec fn net_kind(is_wireless: bool, has_dev: bool) -> (Seq<char>, u8) {
    if is_wireless {
        ("Wireless"@, 1)
    } else if has_dev {
        ("Wired"@, 0)
    } else {
        ("Other"@, 2)
    }
}

/// An interface with a `wireless` directory is wireless; one with a
/// `device` link is wired; anything else (virtual links) is `Other`.
pub fn classify_iface(iface: &str, is_wireless: bool, has_dev: bool) -> (e: NetEntry)
    ensures
        e.iface@ == iface@,
        (e.kind@, e.rank) == net_kind(is_wireless, has_dev),
        e.is_wireless == is_wireless,
{
    let (kind, rank) = if is_wireless {
        ("Wireless", 1u8)
    } else if has_dev {
        ("Wired", 0u8)
    } else {
        ("Other", 2u8)
    };
    NetEntry { iface: iface.to_owned(), kind: kind.to_owned(), is_wireless, rank }
}

impl Ranked for NetEntry {
    open spec fn sort_key(&self) -> SortKey {
        (self.rank as nat, self.iface@)
    }

    fn goes_after(&self, other: &Self) -> (b: bool) {
        if self.rank != other.rank {
            self.rank > other.rank
        } else {
            lex_less(&chars_of(other.iface.as_str()), &chars_of(self.iface.as_str()))
        }
    }
}

/// Orders the interfaces by kind (wired, wireless, other) and then by name.
pub fn sort_ifaces(v: &mut Vec<NetEntry>)
    ensures
        final(v)@ == sort_by_key(old(v)@, key_of::<NetEntry>()),
{
    sort_ranked(v);
}

/// The interface's connection status from `operstate`.
pub open spec fn net_status_text(oper: Seq<char>, total_rx: u64, total_tx: u64) -> Seq<char> {
    if oper == "up"@ {
        "Connected"@
    } else if oper == "unknown"@ {
        if total_rx > 0 || total_tx > 0 {
            "Connected"@
        } else {
            "Unknown"@
        }
    } else if oper == "down"@ {
        "Unavailable"@
    } else if oper.len() > 0 {
        oper
    } else {
        "—"@
    }
}

pub fn net_status(operstate: &str, total_rx: u64, total_tx: u64) -> (r: String)
    ensures
        r@ == net_status_text(operstate@, total_rx, total_tx),
{
    let o = chars_of(operstate);
    if str_eq(&o, "up") {
        "Connected".to_owned()
    } else if str_eq(&o, "unknown") {
        if total_rx > 0 || total_tx > 0 {
            "Connected".to_owned()
        } else {
            "Unknown".to_owned()
        }
    } else if str_eq(&o, "down") {
        "Unavailable".to_owned()
    } else if o.len() > 0 {
        operstate.to_owned()
    } else {
        "—".to_owned()
    }
}

/// Structural signature of the interface list.
pub open spec fn net_sig(ifaces: Seq<Seq<char>>) -> Seq<char>
    decreases ifaces.len(),
{
    if ifaces.len() == 0 {
        Seq::empty()
    } else {
        net_sig(ifaces.drop_last()) + ifaces.last() + seq![';']
    }
}

pub fn net_signature(ifaces: &Vec<String>) -> (s: String)
    ensures
        s@ == net_sig(ifaces.deep_view()),
{
    let mut out: Vec<char> = Vec::new();
    let mut i: usize = 0;
    while i < ifaces.len()
        invariant
            i <= ifaces@.len(),
            out@ == net_sig(ifaces.deep_view().take(i as int)),
        decreases ifaces@.len() - i,
    {
        push_all(&mut out, &chars_of(ifaces[i].as_str()));
        out.push(';');
        proof {
            let v = ifaces.deep_view();
            assert(v.take(i + 1).drop_last() =~= v.take(i as int));
            assert(v.take(i + 1).last() == ifaces@[i as int]@);
            assert(out@ =~= net_sig(v.take(i + 1)));
        }
        i += 1;
    }
    assert(ifaces.deep_view().take(ifaces@.len() as int) =~= ifaces.deep_view());
    string_of(&out)
}

// ───────────────────────── lspci ─────────────────────────

/// The slot to ask `lspci -s` about: the PCI address without its `0000:`
/// domain.
pub open spec fn pci_slot_text(bus: Seq<char>) -> Seq<char> {
    match strip_prefix(bus, "0000:"@) {
        Some(s) => s,
        None => bus,
    }
}

pub fn pci_slot(bus: &str) -> (r: String)
    ensures
        r@ == pci_slot_text(bus@),
{
    match strip_prefix_str(&chars_of(bus), "0000:") {
        Some(s) => string_of(&s),
        None => bus.to_owned(),
    }
}

/// The device name of an `lspci -mm` line: its third quoted field, trimmed
/// (empty when the line has fewer).
pub open spec fn lspci_device_text(out: Seq<char>) -> Seq<char> {
    let q = split_char(out, '"');
    if q.len() > 5 {
        trim(q[5])
    } else {
        Seq::empty()
    }
}

pub fn lspci_device(out: &str) -> (r: String)
    ensures
        r@ == lspci_device_text(out@),
{
    let q = split_char_of(&chars_of(out), '"');
    if q.len() > 5 {
        proof {
            assert(q.deep_view()[5] == q@[5]@);
        }
        string_of(&trim_chars(&q[5]))
    } else {
        String::new()
    }
}

// ───────────────────────── ip -o addr / iw link ─────────────────────────

/// Index of the first word equal to `w`.
pub open spec fn word_pos(f: Seq<Seq<char>>, w: Seq<char>) -> Option<int>
    decreases f.len(),
{
    if f.len() == 0 {
        None
    } else if f[0] == w {
        Some(0)
    } else {
        match word_pos(f.drop_first(), w) {
            Some(i) => Some(i + 1),
            None => None,
        }
    }
}

fn word_pos_of(f: &Vec<Vec<char>>, w: &str) -> (r: Option<usize>)
    ensures
        match r {
            Some(i) => i < f@.len() && word_pos(f.deep_view(), w@) == Some(i as int),
            None => word_pos(f.deep_view(), w@) is None,
        },
{
    let wc = chars_of(w);
    let ghost fv = f.deep_view();
    let mut i: usize = 0;
    assert(fv.skip(0) =~= fv);
    while i < f.len()
        invariant
            i <= f@.len(),
            fv == f.deep_view(),
            wc@ == w@,
            forall|k: int| 0 <= k < i ==> fv[k] != w@,
            match word_pos(fv.skip(i as int), w@) {
                Some(j) => word_pos(fv, w@) == Some(j + i),
                None => word_pos(fv, w@) is None,
            },
        decreases f@.len() - i,
    {
        proof {
            assert(fv.skip(i as int)[0] == f@[i as int]@);
            assert(fv.skip(i as int).drop_first() =~= fv.skip(i + 1));
        }
        if crate::text::chars_eq(&f[i], &wc) {
            return Some(i);
        }
        i += 1;
    }
    proof {
        assert(fv.skip(i as int) =~= Seq::<Seq<char>>::empty());
    }
    None
}

/// The address part of `a/prefix`.
pub open spec fn addr_part(a: Seq<char>) -> Seq<char> {
    split_char(a, '/')[0]
}

/// `(IPv4, IPv6)` after the lines of `ip -o addr show <if>`: the first `inet`
/// address, and the first `inet6` address that is not link-local (`fe80`).
pub open spec fn addrs_after(ls: Seq<Seq<char>>) -> (Seq<char>, Seq<char>)
    decreases ls.len(),
{
    if ls.len() == 0 {
        (Seq::empty(), Seq::empty())
    } else {
        let p = addrs_after(ls.drop_last());
        let f = words(ls.last());
        match word_pos(f, "inet"@) {
            Some(i) => {
                if p.0.len() == 0 {
                    (
                        if i + 1 < f.len() {
                            addr_part(f[i + 1])
                        } else {
                            Seq::empty()
                        },
                        p.1,
                    )
                } else {
                    p
                }
            },
            None => match word_pos(f, "inet6"@) {
                Some(i) => {
                    if i + 1 < f.len() && !starts_with(f[i + 1], "fe80"@) && p.1.len() == 0 {
                        (p.0, addr_part(f[i + 1]))
                    } else {
                        p
                    }
                },
                None => p,
            },
        }
    }
}

fn addr_part_of(a: &[char]) -> (r: Vec<char>)
    ensures
        r@ == addr_part(a@),
{
    let parts = split_char_of(a, '/');
    proof {
        assert(parts.deep_view()[0] == parts@[0]@);
    }
    crate::text::copy_of(&parts[0])
}

pub fn parse_ip_addrs(out: &str) -> (r: (String, String))
    ensures
        (r.0@, r.1@) == addrs_after(lines(out@)),
{
    let ls = lines_of(&chars_of(out));
    let ghost lv = ls.deep_view();
    let mut v4: Vec<char> = Vec::new();
    let mut v6: Vec<char> = Vec::new();
    let mut i: usize = 0;
    while i < ls.len()
        invariant
            i <= ls@.len(),
            lv == ls.deep_view(),
            (v4@, v6@) == addrs_after(lv.take(i as int)),
        decreases ls@.len() - i,
    {
        proof {
            assert(lv.take(i + 1).drop_last() =~= lv.take(i as int));
            assert(lv.take(i + 1).last() == ls@[i as int]@);
        }
        let f = words_of(&ls[i]);
        match word_pos_of(&f, "inet") {
            Some(p) => {
                if v4.len() == 0 {
                    if p + 1 < f.len() {
                        proof {
                            assert(f.deep_view()[p + 1] == f@[p + 1]@);
                        }
                        v4 = addr_part_of(&f[p + 1]);
                    } else {
                        v4 = Vec::new();
                    }
                }
            },
            None => match word_pos_of(&f, "inet6") {
                Some(p) => {
                    if p + 1 < f.len() {
                        proof {
                            assert(f.deep_view()[p + 1] == f@[p + 1]@);
                        }
                        if !str_starts_with(&f[p + 1], "fe80") && v6.len() == 0 {
                            v6 = addr_part_of(&f[p + 1]);
                        }
                    }
                },
                None => {},
            },
        }
        i += 1;
    }
    assert(lv.take(ls@.len() as int) =~= lv);
    (string_of(&v4), string_of(&v6))
}

/// What `iw dev <if> link` says: the SSID, the signal, and the whole-MHz part
/// of every `freq:` line in order (the page shows the last of them that
/// reads as a number, in GHz).
pub struct WifiLink {
    pub ssid: String,
    pub signal: String,
    pub freq_mhz: Vec<String>,
}

pub open spec fn wifi_after(ls: Seq<Seq<char>>) -> (Seq<char>, Seq<char>, Seq<Seq<char>>)
    decreases ls.len(),
{
    if ls.len() == 0 {
        (Seq::empty(), Seq::empty(), Seq::empty())
    } else {
        let p = wifi_after(ls.drop_last());
        let t = trim(ls.last());
        match strip_prefix(t, "SSID:"@) {
            Some(v) => (trim(v), p.1, p.2),
            None => match strip_prefix(t, "signal:"@) {
                Some(v) => (p.0, trim(v), p.2),
                None => match strip_prefix(t, "freq:"@) {
                    Some(v) => (p.0, p.1, p.2.push(split_char(trim(v), '.')[0])),
                    None => p,
                },
            },
        }
    }
}

pub fn parse_wifi_link(out: &str) -> (r: WifiLink)
    ensures
        (r.ssid@, r.signal@, r.freq_mhz.deep_view()) == wifi_after(lines(out@)),
{
    let ls = lines_of(&chars_of(out));
    let ghost lv = ls.deep_view();
    let mut ssid: Vec<char> = Vec::new();
    let mut signal: Vec<char> = Vec::new();
    let mut freqs: Vec<String> = Vec::new();
    let mut i: usize = 0;
    assert(freqs.deep_view() =~= Seq::<Seq<char>>::empty());
    while i < ls.len()
        invariant
            i <= ls@.len(),
            lv == ls.deep_view(),
            (ssid@, signal@, freqs.deep_view()) == wifi_after(lv.take(i as int)),
        decreases ls@.len() - i,
    {
        proof {
            assert(lv.take(i + 1).drop_last() =~= lv.take(i as int));
            assert(lv.take(i + 1).last() == ls@[i as int]@);
        }
        let t = trim_chars(&ls[i]);
        match strip_prefix_str(&t, "SSID:") {
            Some(v) => {
                ssid = trim_chars(&v);
            },
            None => match strip_prefix_str(&t, "signal:") {
                Some(v) => {
                    signal = trim_chars(&v);
                },
                None => match strip_prefix_str(&t, "freq:") {
                    Some(v) => {
                        let parts = split_char_of(&trim_chars(&v), '.');
                        proof {
                            assert(parts.deep_view()[0] == parts@[0]@);
                        }
                        let s = string_of(&parts[0]);
                        let ghost old_v = freqs@;
                        let ghost old_d = freqs.deep_view();
                        let ghost sv = s;
                        freqs.push(s);
                        proof {
                            lemma_deep_view_push(freqs, old_v, sv);
                        }
                    },
                    None => {},
                },
            },
        }
        i += 1;
    }
    assert(lv.take(ls@.len() as int) =~= lv);
    WifiLink { ssid: string_of(&ssid), signal: string_of(&signal), freq_mhz: freqs }
}

// ───────────────────────── Tailscale ─────────────────────────

/// A device of the tailnet.
pub struct TsPeer {
    pub name: String,
    pub ip: String,
    pub os: String,
    pub online: bool,
    pub is_self: bool,
}

pub ghost struct PeerSpec {
    pub name: Seq<char>,
    pub ip: Seq<char>,
    pub os: Seq<char>,
    pub online: bool,
    pub is_self: bool,
}

impl View for TsPeer {
    type V = PeerSpec;

    open spec fn view(&self) -> PeerSpec {
        PeerSpec {
            name: self.name@,
            ip: self.ip@,
            os: self.os@,
            online: self.online,
            is_self: self.is_self,
        }
    }
}

pub open spec fn peer_views(v: Seq<TsPeer>) -> Seq<PeerSpec> {
    v.map_values(|p: TsPeer| p@)
}

/// Number of occurrences of `c` in `s`.
pub open spec fn count_char(s: Seq<char>, c: char) -> nat
    decreases s.len(),
{
    if s.len() == 0 {
        0
    } else {
        count_char(s.drop_last(), c) + if s.last() == c {
            1nat
        } else {
            0
        }
    }
}

fn count_char_of(s: &[char], c: char) -> (n: usize)
    ensures
        n == count_char(s@, c),
{
    let mut n: usize = 0;
    let mut i: usize = 0;
    while i < s.len()
        invariant
            i <= s@.len(),
            n <= i,
            n == count_char(s@.take(i as int), c),
        decreases s@.len() - i,
    {
        proof {
            assert(s@.take(i + 1).drop_last() =~= s@.take(i as int));
        }
        if s[i] == c {
            n += 1;
        }
        i += 1;
    }
    assert(s@.take(s@.len() as int) =~= s@);
    n
}

/// Some word of the status tail (the words after the fourth field) says
/// `offline`.
pub open spec fn tail_offline(f: Seq<Seq<char>>) -> bool {
    exists|k: int| 4 <= k < f.len() && contains_seq(#[trigger] f[k], "offline"@)
}

/// The peer that a line of `tailscale status` describes:
/// `<ip> <name> <user> <os> <status...>` with a `100.x.y.z` address. `first`
/// says whether no line before it described a peer: the first such data row
/// is this machine. `offline` in the status tail marks a peer offline.
pub open spec fn peer_of(line: Seq<char>, first: bool) -> Option<PeerSpec> {
    let t = trim(line);
    let f = words(t);
    if t.len() == 0 || f.len() < 4 {
        None
    } else if !starts_with(f[0], "100."@) || count_char(f[0], '.') != 3 {
        None
    } else {
        Some(
            PeerSpec {
                name: f[1],
                ip: f[0],
                os: f[3],
                online: !tail_offline(f),
                is_self: first,
            },
        )
    }
}

/// The peers that the lines describe, in order.
pub open spec fn peers_after(ls: Seq<Seq<char>>) -> Seq<PeerSpec>
    decreases ls.len(),
{
    if ls.len() == 0 {
        Seq::empty()
    } else {
        let rest = peers_after(ls.drop_last());
        match peer_of(ls.last(), rest.len() == 0) {
            Some(p) => rest.push(p),
            None => rest,
        }
    }
}

/// Whether a word after the fourth says `offline`.
fn status_tail_offline(f: &Vec<Vec<char>>) -> (b: bool)
    ensures
        b == tail_offline(f.deep_view()),
{
    let ghost fv = f.deep_view();
    let mut k: usize = 4;
    while k < f.len()
        invariant
            4 <= k,
            fv == f.deep_view(),
            forall|j: int| 4 <= j < k && j < fv.len() ==> !contains_seq(#[trigger] fv[j], "offline"@),
        decreases f@.len() - k,
    {
        assert(fv[k as int] == f@[k as int]@);
        if str_contains(&f[k], "offline") {
            assert(4 <= k < fv.len() && contains_seq(fv[k as int], "offline"@));
            return true;
        }
        k += 1;
    }
    false
}

/// Sort rank of a peer: online before offline, this machine first within
/// each group.
pub open spec fn peer_rank(online: bool, is_self: bool) -> nat {
    (if online {
        0nat
    } else {
        2nat
    }) + (if is_self {
        0nat
    } else {
        1nat
    })
}

pub open spec fn peer_key() -> spec_fn(PeerSpec) -> SortKey {
    |p: PeerSpec| (peer_rank(p.online, p.is_self), p.name)
}

impl Ranked for TsPeer {
    open spec fn sort_key(&self) -> SortKey {
        (peer_rank(self.online, self.is_self), self.name@)
    }

    fn goes_after(&self, other: &Self) -> (b: bool) {
        let ra: u8 = (if self.online {
            0u8
        } else {
            2u8
        }) + (if self.is_self {
            0u8
        } else {
            1u8
        });
        let rb: u8 = (if other.online {
            0u8
        } else {
            2u8
        }) + (if other.is_self {
            0u8
        } else {
            1u8
        });
        if ra != rb {
            ra > rb
        } else {
            lex_less(&chars_of(other.name.as_str()), &chars_of(self.name.as_str()))
        }
    }
}

/// Whether the Tailscale backend runs: the command succeeded and did not
/// say it is stopped.
pub open spec fn ts_running_spec(success: bool, out: Seq<char>) -> bool {
    success && !contains_seq(out, "Tailscale is stopped"@)
}

/// The tailnet from `tailscale status`: whether the backend runs, and the
/// devices, online ones first, this machine first among them, then by name.
pub fn parse_tailscale_status(success: bool, out: &str) -> (r: (bool, Vec<TsPeer>))
    ensures
        r.0 == ts_running_spec(success, out@),
        peer_views(r.1@) == sort_by_key(peers_after(lines(out@)), peer_key()),
{
    let text = chars_of(out);
    let running = success && !str_contains(&text, "Tailscale is stopped");
    let ls = lines_of(&text);
    let ghost lv = ls.deep_view();
    let mut peers: Vec<TsPeer> = Vec::new();
    let mut i: usize = 0;
    assert(peer_views(peers@) =~= Seq::<PeerSpec>::empty());
    while i < ls.len()
        invariant
            i <= ls@.len(),
            lv == ls.deep_view(),
            lv == lines(out@),
            peer_views(peers@) == peers_after(lv.take(i as int)),
        decreases ls@.len() - i,
    {
        proof {
            assert(lv.take(i + 1).drop_last() =~= lv.take(i as int));
            assert(lv.take(i + 1).last() == ls@[i as int]@);
        }
        let t = trim_chars(&ls[i]);
        let f = words_of(&t);
        if t.len() > 0 && f.len() >= 4 {
            proof {
                assert(f.deep_view()[0] == f@[0]@);
                assert(f.deep_view()[1] == f@[1]@);
                assert(f.deep_view()[3] == f@[3]@);
            }
            if str_starts_with(&f[0], "100.") && count_char_of(&f[0], '.') == 3 {
                let p = TsPeer {
                    name: string_of(&f[1]),
                    ip: string_of(&f[0]),
                    os: string_of(&f[3]),
                    online: !status_tail_offline(&f),
                    is_self: peers.len() == 0,
                };
                let ghost before = peer_views(peers@);
                peers.push(p);
                assert(peer_views(peers@) =~= before.push(p@));
            }
        }
        i += 1;
    }
    assert(lv.take(ls@.len() as int) =~= lv);
    let ghost unsorted = peers@;
    sort_ranked(&mut peers);
    proof {
        let f = |p: TsPeer| p@;
        assert forall|a: TsPeer| #[trigger] peer_key()(f(a)) == key_of::<TsPeer>()(a) by {}
        lemma_sort_map(unsorted, f, key_of::<TsPeer>(), peer_key());
    }
    (running, peers)
}

/// Signature of the tailnet device list: the rows are rebuilt only when a
/// device appears, goes, changes address or goes on- or offline.
pub open spec fn peer_sig(ps: Seq<PeerSpec>) -> Seq<char>
    decreases ps.len(),
{
    if ps.len() == 0 {
        Seq::empty()
    } else {
        peer_sig(ps.drop_last()) + ps.last().name + seq!['|'] + ps.last().ip + seq![
            '|',
            if ps.last().online {
                '1'
            } else {
                '0'
            },
            ';',
        ]
    }
}

pub fn peer_signature(peers: &Vec<TsPeer>) -> (s: String)
    ensures
        s@ == peer_sig(peer_views(peers@)),
{
    let ghost pv = peer_views(peers@);
    let mut out: Vec<char> = Vec::new();
    let mut i: usize = 0;
    while i < peers.len()
        invariant
            i <= peers@.len(),
            pv == peer_views(peers@),
            out@ == peer_sig(pv.take(i as int)),
        decreases peers@.len() - i,
    {
        push_all(&mut out, &chars_of(peers[i].name.as_str()));
        out.push('|');
        push_all(&mut out, &chars_of(peers[i].ip.as_str()));
        out.push('|');
        out.push(
            if peers[i].online {
                '1'
            } else {
                '0'
            },
        );
        out.push(';');
        proof {
            assert(pv.take(i + 1).drop_last() =~= pv.take(i as int));
            assert(pv.take(i + 1).last() == peers@[i as int]@);
            assert(out@ =~= peer_sig(pv.take(i + 1)));
        }
        i += 1;
    }
    assert(pv.take(peers@.len() as int) =~= pv);
    string_of(&out)
}

/// A device row's title: its name, marked when it is this machine.
pub fn peer_title(p: &TsPeer) -> (r: String)
    ensures
        r@ == (if p.is_self {
            p.name@ + " (this device)"@
        } else {
            p.name@
        }),
{
    if p.is_self {
        let mut out = chars_of(p.name.as_str());
        push_all(&mut out, &chars_of(" (this device)"));
        string_of(&out)
    } else {
        p.name.clone()
    }
}

/// A device row's subtitle: `ip • os`.
pub fn peer_subtitle(p: &TsPeer) -> (r: String)
    ensures
        r@ == p.ip@ + " • "@ + p.os@,
{
    let mut out = chars_of(p.ip.as_str());
    push_all(&mut out, &chars_of(" • "));
    push_all(&mut out, &chars_of(p.os.as_str()));
    string_of(&out)
}

/// Whether any interface is a Tailscale one (the tailnet list is only asked
/// for then).
pub open spec fn any_tailscale(ifaces: Seq<Seq<char>>) -> bool {
    exists|i: int| 0 <= i < ifaces.len() && starts_with(#[trigger] ifaces[i], "tailscale"@)
}

pub fn has_tailscale(ifaces: &Vec<String>) -> (b: bool)
    ensures
        b == any_tailscale(ifaces.deep_view()),
{
    let ghost v = ifaces.deep_view();
    let mut i: usize = 0;
    while i < ifaces.len()
        invariant
            i <= ifaces@.len(),
            v == ifaces.deep_view(),
            forall|k: int| 0 <= k < i ==> !starts_with(#[trigger] v[k], "tailscale"@),
        decreases ifaces@.len() - i,
    {
        proof {
            assert(v[i as int] == ifaces@[i as int]@);
        }
        if str_starts_with(&chars_of(ifaces[i].as_str()), "tailscale") {
            return true;
        }
        i += 1;
    }
    false
}

/// The PCI address of an interface's device, upper-cased, from the name its
/// `device` link points to.
pub fn net_bus(link_name: &str) -> (r: String)
    ensures
        r@ == uppercase(link_name@),
{
    string_of(&to_uppercase(&chars_of(link_name)))
}

} // verus!
