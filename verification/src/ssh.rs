//! The SSH page: the connectable hosts of `~/.ssh/config` and how each is
//! described.
use vstd::prelude::*;
use crate::text::{
    ascii_lower_of, ascii_lower_seq, chars_of, contains_seq, has_char, lemma_chars_deep_view,
    lemma_word_len, lines, lines_of, push_all, slice_of, str_contains, str_eq, string_of, trim,
    trim_chars, word_len, words, words_of,
};

verus! {

broadcast use lemma_chars_deep_view;

/// A host entry of the SSH configuration.
pub struct SshHost {
    pub alias: String,
    pub hostname: String,
    pub user: String,
    pub port: String,
    pub identity: String,
}

pub ghost struct HostSpec {
    pub alias: Seq<char>,
    pub hostname: Seq<char>,
    pub user: Seq<char>,
    pub port: Seq<char>,
    pub identity: Seq<char>,
}

impl View for SshHost {
    type V = HostSpec;

    open spec fn view(&self) -> HostSpec {
        HostSpec {
            alias: self.alias@,
            hostname: self.hostname@,
            user: self.user@,
            port: self.port@,
            identity: self.identity@,
        }
    }
}

pub open spec fn host_views(hs: Seq<SshHost>) -> Seq<HostSpec> {
    hs.map_values(|h: SshHost| h@)
}

/// A configuration line cut at its first whitespace character into keyword
/// and (trimmed) argument; a line without whitespace is all keyword.
pub open spec fn keyword_split(t: Seq<char>) -> (Seq<char>, Seq<char>) {
    let w = word_len(t);
    if w < t.len() {
        (ascii_lower_seq(t.take(w as int)), trim(t.skip(w as int + 1)))
    } else {
        (ascii_lower_seq(t), Seq::empty())
    }
}

/// Aliases that are no real destination: empty, wildcard patterns, URLs.
pub open spec fn alias_skipped(alias: Seq<char>) -> bool {
    alias.len() == 0 || alias.contains('*') || alias.contains('?') || contains_seq(alias, "://"@)
}

pub open spec fn first_word(v: Seq<char>) -> Seq<char> {
    if words(v).len() > 0 {
        words(v)[0]
    } else {
        Seq::empty()
    }
}

pub open spec fn empty_host(alias: Seq<char>) -> HostSpec {
    HostSpec {
        alias,
        hostname: Seq::empty(),
        user: Seq::empty(),
        port: Seq::empty(),
        identity: Seq::empty(),
    }
}

/// The hosts so far after closing the open entry `cur`: it is kept unless it
/// was marked skipped or has no alias.
pub open spec fn flushed(hosts: Seq<HostSpec>, cur: Option<HostSpec>, skip: bool) -> Seq<HostSpec> {
    match cur {
        Some(h) => {
            if !skip && h.alias.len() > 0 {
                hosts.push(h)
            } else {
                hosts
            }
        },
        None => hosts,
    }
}

/// The parser's state after the lines `ls`: the finished hosts, the entry
/// being filled in, and whether that entry is skipped.
pub open spec fn ssh_after(ls: Seq<Seq<char>>) -> (Seq<HostSpec>, Option<HostSpec>, bool)
    decreases ls.len(),
{
    if ls.len() == 0 {
        (Seq::empty(), None, false)
    } else {
        let p = ssh_after(ls.drop_last());
        let t = trim(ls.last());
        if t.len() == 0 || t[0] == '#' {
            p
        } else {
            let (key, val) = keyword_split(t);
            if key == "host"@ {
                let alias = first_word(val);
                (flushed(p.0, p.1, p.2), Some(empty_host(alias)), alias_skipped(alias))
            } else if key == "hostname"@ {
                (p.0, match p.1 { Some(h) => Some(HostSpec { hostname: val, ..h }), None => None }, p.2)
            } else if key == "user"@ {
                (p.0, match p.1 { Some(h) => Some(HostSpec { user: val, ..h }), None => None }, p.2)
            } else if key == "port"@ {
                (p.0, match p.1 { Some(h) => Some(HostSpec { port: val, ..h }), None => None }, p.2)
            } else if key == "identityfile"@ {
                (p.0, match p.1 { Some(h) => Some(HostSpec { identity: val, ..h }), None => None }, p.2)
            } else {
                p
            }
        }
    }
}

/// The connectable hosts of an SSH configuration text.
pub open spec fn ssh_hosts_spec(text: Seq<char>) -> Seq<HostSpec> {
    let st = ssh_after(lines(text));
    flushed(st.0, st.1, st.2)
}

fn keyword_split_of(t: &[char]) -> (r: (Vec<char>, Vec<char>))
    ensures
        (r.0@, r.1@) == keyword_split(t@),
{
    let mut w: usize = 0;
    proof {
        lemma_word_len(t@);
    }
    while w < t.len() && !crate::text::is_ws_char(t[w])
        invariant
            w <= t@.len(),
            forall|j: int| 0 <= j < w ==> !crate::text::is_ws(t@[j]),
        decreases t@.len() - w,
    {
        w += 1;
    }
    proof {
        lemma_word_len_is(t@, w as int);
    }
    if w < t.len() {
        let k = ascii_lower_of(&slice_of(t, 0, w));
        let v = trim_chars(&slice_of(t, w + 1, t.len()));
        (k, v)
    } else {
        (ascii_lower_of(t), Vec::new())
    }
}

proof fn lemma_word_len_is(s: Seq<char>, k: int)
    requires
        0 <= k <= s.len(),
        forall|j: int| 0 <= j < k ==> !crate::text::is_ws(s[j]),
        k == s.len() || crate::text::is_ws(s[k]),
    ensures
        word_len(s) == k,
    decreases k,
{
    if k > 0 {
        assert forall|j: int| 0 <= j < k - 1 implies !crate::text::is_ws(s.drop_first()[j]) by {
            assert(s.drop_first()[j] == s[j + 1]);
        }
        if k < s.len() {
            assert(s.drop_first()[k - 1] == s[k]);
        }
        lemma_word_len_is(s.drop_first(), k - 1);
    }
}

fn first_word_of(v: &[char]) -> (r: Vec<char>)
    ensures
        r@ == first_word(v@),
{
    let ws = words_of(v);
    if ws.len() > 0 {
        proof {
            assert(ws.deep_view()[0] == ws@[0]@);
        }
        crate::text::copy_of(&ws[0])
    } else {
        Vec::new()
    }
}

fn alias_skipped_of(a: &[char]) -> (b: bool)
    ensures
        b == alias_skipped(a@),
{
    a.len() == 0 || has_char(a, '*') || has_char(a, '?') || str_contains(a, "://")
}

fn flush(hosts: &mut Vec<SshHost>, cur: Option<SshHost>, skip: bool)
    ensures
        host_views(final(hosts)@) == flushed(
            host_views(old(hosts)@),
            match cur {
                Some(h) => Some(h@),
                None => None,
            },
            skip,
        ),
{
    match cur {
        Some(h) => {
            if !skip && chars_of(h.alias.as_str()).len() > 0 {
                let ghost hv = h@;
                hosts.push(h);
                proof {
                    assert(host_views(final(hosts)@) =~= host_views(old(hosts)@).push(hv));
                }
            }
        },
        None => {},
    }
}

pub open spec fn cur_view(c: Option<SshHost>) -> Option<HostSpec> {
    match c {
        Some(h) => Some(h@),
        None => None,
    }
}

/// The connectable hosts of an SSH configuration: `Host` opens an entry
/// named by its first alias (wildcard and URL-like aliases are dropped);
/// `HostName`, `User`, `Port` and `IdentityFile` fill in the open entry;
/// keywords are matched without regard to ASCII case; blank lines and
/// `#` comments are ignored.
pub fn parse_ssh_hosts(text: &str) -> (r: Vec<SshHost>)
    ensures
        host_views(r@) == ssh_hosts_spec(text@),
{
    let ls = lines_of(&chars_of(text));
    let ghost lv = ls.deep_view();
    let mut hosts: Vec<SshHost> = Vec::new();
    let mut cur: Option<SshHost> = None;
    let mut skip = false;
    let mut i: usize = 0;
    assert(host_views(hosts@) =~= Seq::<HostSpec>::empty());
    while i < ls.len()
        invariant
            i <= ls@.len(),
            lv == ls.deep_view(),
            (host_views(hosts@), cur_view(cur), skip) == ssh_after(lv.take(i as int)),
        decreases ls@.len() - i,
    {
        proof {
            assert(lv.take(i + 1).drop_last() =~= lv.take(i as int));
            assert(lv.take(i + 1).last() == ls@[i as int]@);
        }
        let t = trim_chars(&ls[i]);
        if t.len() == 0 || t[0] == '#' {
        } else {
            let (key, val) = keyword_split_of(&t);
            if str_eq(&key, "host") {
                let c = cur;
                cur = None;
                flush(&mut hosts, c, skip);
                let alias = first_word_of(&val);
                skip = alias_skipped_of(&alias);
                cur = Some(
                    SshHost {
                        alias: string_of(&alias),
                        hostname: String::new(),
                        user: String::new(),
                        port: String::new(),
                        identity: String::new(),
                    },
                );
            } else if str_eq(&key, "hostname") {
                cur = match cur {
                    Some(h) => Some(SshHost { hostname: string_of(&val), ..h }),
                    None => None,
                };
            } else if str_eq(&key, "user") {
                cur = match cur {
                    Some(h) => Some(SshHost { user: string_of(&val), ..h }),
                    None => None,
                };
            } else if str_eq(&key, "port") {
                cur = match cur {
                    Some(h) => Some(SshHost { port: string_of(&val), ..h }),
                    None => None,
                };
            } else if str_eq(&key, "identityfile") {
                cur = match cur {
                    Some(h) => Some(SshHost { identity: string_of(&val), ..h }),
                    None => None,
                };
            }
        }
        i += 1;
    }
    assert(lv.take(ls@.len() as int) =~= lv);
    flush(&mut hosts, cur, skip);
    hosts
}

pub open spec fn ssh_state_ok(st: (Seq<HostSpec>, Option<HostSpec>, bool)) -> bool {
    &&& forall|i: int| 0 <= i < st.0.len() ==> !alias_skipped(#[trigger] st.0[i].alias)
    &&& st.1 matches Some(h) ==> st.2 == alias_skipped(h.alias)
}

proof fn lemma_ssh_state_ok(ls: Seq<Seq<char>>)
    ensures
        ssh_state_ok(ssh_after(ls)),
    decreases ls.len(),
{
    if ls.len() > 0 {
        lemma_ssh_state_ok(ls.drop_last());
        let p = ssh_after(ls.drop_last());
        let f = flushed(p.0, p.1, p.2);
        assert forall|i: int| 0 <= i < f.len() implies !alias_skipped(#[trigger] f[i].alias) by {
            if i < p.0.len() {
                assert(f[i] == p.0[i]);
            }
        }
    }
}

/// Only connectable hosts are listed: every host has an alias, and none is
/// a wildcard pattern or looks like a URL.
pub proof fn lemma_ssh_hosts_connectable(text: Seq<char>)
    ensures
        forall|i: int|
            0 <= i < ssh_hosts_spec(text).len() ==> !alias_skipped(
                #[trigger] ssh_hosts_spec(text)[i].alias,
            ),
{
    let st = ssh_after(lines(text));
    lemma_ssh_state_ok(lines(text));
    let f = flushed(st.0, st.1, st.2);
    assert forall|i: int| 0 <= i < f.len() implies !alias_skipped(#[trigger] f[i].alias) by {
        if i < st.0.len() {
            assert(f[i] == st.0[i]);
        }
    }
}

/// How a host is described under its alias: `user@` when a user is set,
/// the host name (or the alias when none is set), and `:port` for a port
/// other than 22.
pub open spec fn host_subtitle(h: HostSpec) -> Seq<char> {
    (if h.user.len() > 0 {
        h.user + "@"@
    } else {
        Seq::empty()
    }) + (if h.hostname.len() == 0 {
        h.alias
    } else {
        h.hostname
    }) + (if h.port.len() > 0 && h.port != "22"@ {
        ":"@ + h.port
    } else {
        Seq::empty()
    })
}

pub fn ssh_subtitle(h: &SshHost) -> (r: String)
    ensures
        r@ == host_subtitle(h@),
{
    let user = chars_of(h.user.as_str());
    let hostname = chars_of(h.hostname.as_str());
    let port = chars_of(h.port.as_str());
    let mut out: Vec<char> = Vec::new();
    if user.len() > 0 {
        push_all(&mut out, &user);
        out.push('@');
    }
    if hostname.len() == 0 {
        push_all(&mut out, &chars_of(h.alias.as_str()));
    } else {
        push_all(&mut out, &hostname);
    }
    if port.len() > 0 && !str_eq(&port, "22") {
        out.push(':');
        push_all(&mut out, &port);
    }
    proof {
        reveal_strlit("@");
        reveal_strlit(":");
    }
    assert(out@ =~= host_subtitle(h@));
    string_of(&out)
}

} // verus!
