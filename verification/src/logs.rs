//! The log viewer (which `journalctl` call, client-side search, paging) and
//! the network speed test (reading the tools' output, showing results).
use vstd::prelude::*;
use crate::lists::keep_last;
use crate::text::{
    chars_of, contains_seq, join, join_of, lemma_chars_deep_view, lemma_deep_view_push, lines,
    lines_of, lowercase, lowered_rows, lowered_rows_of, push_all, starts_with, str_contains,
    str_starts_with, strip_prefix, strip_prefix_str, string_of, to_lowercase, trim, trim_chars,
    trims_to_empty, words, words_of, contains_chars, is_ws, lemma_lines_cons, lemma_trim_no_ws,
    lemma_words_no_ws, strip_cr,
};

verus! {

broadcast use lemma_chars_deep_view;

// ───────────────────────── journalctl ─────────────────────────

/// The `journalctl` command line for the priority filter (All, Error,
/// Warning, Info) and time range (1 hour, 6 hours, 24 hours, 7 days) picked
/// in the two drop-downs.
pub open spec fn journal_args_spec(prio: u32, time: u32) -> Seq<Seq<char>> {
    seq!["journalctl"@, "--no-pager"@, "-o"@, "short-iso"@, "-n"@, "500"@] + (if prio == 1 {
        seq!["-p"@, "err"@]
    } else if prio == 2 {
        seq!["-p"@, "warning"@]
    } else if prio == 3 {
        seq!["-p"@, "info"@]
    } else {
        Seq::empty()
    }) + seq![
        "--since"@,
        if time == 1 {
            "6 hours ago"@
        } else if time == 2 {
            "24 hours ago"@
        } else if time == 3 {
            "7 days ago"@
        } else {
            "1 hour ago"@
        },
    ]
}

fn push_str(v: &mut Vec<String>, s: &str)
    ensures
        final(v).deep_view() == old(v).deep_view().push(s@),
{
    let ghost old_v = v@;
    let x = s.to_owned();
    let ghost xv = x;
    v.push(x);
    proof {
        lemma_deep_view_push(*v, old_v, xv);
    }
}

pub fn journal_args(prio: u32, time: u32) -> (r: Vec<String>)
    ensures
        r.deep_view() == journal_args_spec(prio, time),
{
    let mut r: Vec<String> = Vec::new();
    push_str(&mut r, "journalctl");
    push_str(&mut r, "--no-pager");
    push_str(&mut r, "-o");
    push_str(&mut r, "short-iso");
    push_str(&mut r, "-n");
    push_str(&mut r, "500");
    if prio == 1 {
        push_str(&mut r, "-p");
        push_str(&mut r, "err");
    } else if prio == 2 {
        push_str(&mut r, "-p");
        push_str(&mut r, "warning");
    } else if prio == 3 {
        push_str(&mut r, "-p");
        push_str(&mut r, "info");
    }
    push_str(&mut r, "--since");
    let since = if time == 1 {
        "6 hours ago"
    } else if time == 2 {
        "24 hours ago"
    } else if time == 3 {
        "7 days ago"
    } else {
        "1 hour ago"
    };
    push_str(&mut r, since);
    assert(r.deep_view() =~= journal_args_spec(prio, time));
    r
}

/// What the viewer shows of `journalctl`'s output: a note when it printed
/// nothing but whitespace.
pub fn journal_text(raw: &str) -> (r: String)
    ensures
        r@ == (if trim(raw@).len() == 0 {
            "(no log entries found)"@
        } else {
            raw@
        }),
{
    if trims_to_empty(&chars_of(raw)) {
        "(no log entries found)".to_owned()
    } else {
        raw.to_owned()
    }
}

/// The lines whose lower-cased form (the second of each pair) contains
/// `needle`.
pub open spec fn matching_lines(rows: Seq<(Seq<char>, Seq<char>)>, needle: Seq<char>) -> Seq<Seq<char>>
    decreases rows.len(),
{
    if rows.len() == 0 {
        Seq::empty()
    } else if contains_seq(rows.last().1, needle) {
        matching_lines(rows.drop_last(), needle).push(rows.last().0)
    } else {
        matching_lines(rows.drop_last(), needle)
    }
}

/// The lines of `rows` (each with its lower-cased form) that contain the
/// lower-cased search `needle`, joined with newlines.
pub fn filter_rows(rows: &Vec<(String, String)>, needle: &str) -> (r: String)
    ensures
        r@ == join(matching_lines(rows.deep_view(), needle@), "\n"@),
{
    let nd = chars_of(needle);
    let ghost rv = rows.deep_view();
    let mut kept: Vec<Vec<char>> = Vec::new();
    let mut i: usize = 0;
    while i < rows.len()
        invariant
            i <= rows@.len(),
            rv == rows.deep_view(),
            nd@ == needle@,
            kept.deep_view() == matching_lines(rv.take(i as int), needle@),
        decreases rows@.len() - i,
    {
        proof {
            assert(rv.take(i + 1).drop_last() =~= rv.take(i as int));
            assert(rv.take(i + 1).last() == (rows@[i as int].0@, rows@[i as int].1@));
        }
        if contains_chars(&chars_of(rows[i].1.as_str()), &nd) {
            let c = chars_of(rows[i].0.as_str());
            let ghost old_v = kept@;
            let ghost cv = c;
            kept.push(c);
            proof {
                lemma_deep_view_push(kept, old_v, cv);
            }
        }
        i += 1;
    }
    assert(rv.take(rows@.len() as int) =~= rv);
    string_of(&join_of(&kept, "\n"))
}

/// The search box: with a search, only the lines that contain it, ignoring
/// case (full Unicode lower-casing on both sides), joined with newlines.
pub fn search_log(text: &str, search: &str) -> (r: String)
    ensures
        search@.len() == 0 ==> r@ == text@,
        search@.len() > 0 ==> r@ == join(
            matching_lines(lowered_rows(lines(text@)), lowercase(search@)),
            "\n"@,
        ),
{
    if chars_of(search).len() == 0 {
        return text.to_owned();
    }
    let needle = string_of(&to_lowercase(&chars_of(search)));
    let rows = lowered_rows_of(text);
    filter_rows(&rows, needle.as_str())
}

/// "Load More": the page starting `offset` lines into the filtered text, or
/// a note when there is nothing past it; offset 0 is the whole text.
pub open spec fn log_page_spec(text: Seq<char>, offset: u32) -> Seq<char> {
    if offset > 0 {
        let ls = lines(text);
        if offset >= ls.len() {
            "(no more entries)"@
        } else {
            join(ls.skip(offset as int), "\n"@)
        }
    } else {
        text
    }
}

pub fn log_page(text: &str, offset: u32) -> (r: String)
    ensures
        r@ == log_page_spec(text@, offset),
{
    if offset == 0 {
        return text.to_owned();
    }
    let ls = lines_of(&chars_of(text));
    let skip = offset as usize;
    if skip >= ls.len() {
        return "(no more entries)".to_owned();
    }
    let mut rest: Vec<Vec<char>> = Vec::new();
    let mut i = skip;
    while i < ls.len()
        invariant
            skip <= i <= ls@.len(),
            rest.deep_view() == ls.deep_view().subrange(skip as int, i as int),
        decreases ls@.len() - i,
    {
        let c = crate::text::copy_of(&ls[i]);
        let ghost old_v = rest@;
        let ghost cv = c;
        rest.push(c);
        proof {
            lemma_deep_view_push(rest, old_v, cv);
            assert(ls.deep_view()[i as int] == ls@[i as int]@);
            assert(rest.deep_view() =~= ls.deep_view().subrange(skip as int, i + 1));
        }
        i += 1;
    }
    assert(ls.deep_view().subrange(skip as int, ls@.len() as int) =~= ls.deep_view().skip(
        skip as int,
    ));
    string_of(&join_of(&rest, "\n"))
}

/// How many lines a page holds (as the offset counter takes it).
pub fn page_lines(text: &str) -> (n: u32)
    ensures
        n == lines(text@).len() as u32,
{
    let ls = lines_of(&chars_of(text));
    ls.len() as u32
}

/// The offset after showing a page of `count` lines: it grows when the page
/// was appended and restarts otherwise.
pub fn next_offset(append: bool, offset: u32, count: u32) -> (r: u32)
    requires
        append ==> offset + count <= u32::MAX,
    ensures
        r == (if append {
            offset + count
        } else {
            count as int
        }),
{
    if append {
        offset + count
    } else {
        count
    }
}

// ───────────────────────── speed test ─────────────────────────

/// `(download, upload, ping)` after the rows (line and its lower-cased form)
/// of `speedtest --simple`: a line whose lower-cased form starts with
/// `download:`, `upload:` or `ping:` gives its second word.
pub open spec fn speedtest_after(rows: Seq<(Seq<char>, Seq<char>)>) -> (Seq<char>, Seq<char>, Seq<char>)
    decreases rows.len(),
{
    if rows.len() == 0 {
        (Seq::empty(), Seq::empty(), Seq::empty())
    } else {
        let p = speedtest_after(rows.drop_last());
        let (line, low) = rows.last();
        let w = words(line);
        if starts_with(low, "download:"@) {
            (if w.len() > 1 {
                w[1]
            } else {
                p.0
            }, p.1, p.2)
        } else if starts_with(low, "upload:"@) {
            (p.0, if w.len() > 1 {
                w[1]
            } else {
                p.1
            }, p.2)
        } else if starts_with(low, "ping:"@) {
            (p.0, p.1, if w.len() > 1 {
                w[1]
            } else {
                p.2
            })
        } else {
            p
        }
    }
}

/// The report in the `KEY=value` form of the speed test script.
pub open spec fn speed_report(r: (Seq<char>, Seq<char>, Seq<char>)) -> Seq<char> {
    "DOWNLOAD_MBPS="@ + r.0 + "\nUPLOAD_MBPS="@ + r.1 + "\nPING_MS="@ + r.2 + "\n"@
}

/// Reads rows of `speedtest --simple` output, each with its lower-cased form.
pub fn speedtest_report(rows: &Vec<(String, String)>) -> (r: String)
    ensures
        r@ == speed_report(speedtest_after(rows.deep_view())),
{
    let ghost rv = rows.deep_view();
    let mut dl: Vec<char> = Vec::new();
    let mut ul: Vec<char> = Vec::new();
    let mut ping: Vec<char> = Vec::new();
    let mut i: usize = 0;
    while i < rows.len()
        invariant
            i <= rows@.len(),
            rv == rows.deep_view(),
            (dl@, ul@, ping@) == speedtest_after(rv.take(i as int)),
        decreases rows@.len() - i,
    {
        proof {
            assert(rv.take(i + 1).drop_last() =~= rv.take(i as int));
            assert(rv.take(i + 1).last() == (rows@[i as int].0@, rows@[i as int].1@));
        }
        let low = chars_of(rows[i].1.as_str());
        let w = words_of(&chars_of(rows[i].0.as_str()));
        proof {
            if w@.len() > 1 {
                assert(w.deep_view()[1] == w@[1]@);
            }
        }
        if str_starts_with(&low, "download:") {
            if w.len() > 1 {
                dl = crate::text::copy_of(&w[1]);
            }
        } else if str_starts_with(&low, "upload:") {
            if w.len() > 1 {
                ul = crate::text::copy_of(&w[1]);
            }
        } else if str_starts_with(&low, "ping:") {
            if w.len() > 1 {
                ping = crate::text::copy_of(&w[1]);
            }
        }
        i += 1;
    }
    assert(rv.take(rows@.len() as int) =~= rv);
    let mut out = chars_of("DOWNLOAD_MBPS=");
    push_all(&mut out, &dl);
    push_all(&mut out, &chars_of("\nUPLOAD_MBPS="));
    push_all(&mut out, &ul);
    push_all(&mut out, &chars_of("\nPING_MS="));
    push_all(&mut out, &ping);
    push_all(&mut out, &chars_of("\n"));
    string_of(&out)
}

/// What `speedtest --simple` (or `speedtest-cli --simple`) printed, as the
/// speed test script would report it.
pub fn parse_speedtest_cli(raw: &str) -> (r: String)
    ensures
        r@ == speed_report(speedtest_after(lowered_rows(lines(raw@)))),
{
    let rows = lowered_rows_of(raw);
    speedtest_report(&rows)
}

/// A finished speed test: download and upload in Mbps and ping in ms as
/// printed (empty when not reported), and whether no tool was available.
pub struct SpeedResult {
    pub download: String,
    pub upload: String,
    pub ping: String,
    pub missing: bool,
}

pub open spec fn speed_result_after(ls: Seq<Seq<char>>) -> (Seq<char>, Seq<char>, Seq<char>, bool)
    decreases ls.len(),
{
    if ls.len() == 0 {
        (Seq::empty(), Seq::empty(), Seq::empty(), false)
    } else {
        let p = speed_result_after(ls.drop_last());
        let l = ls.last();
        match strip_prefix(l, "DOWNLOAD_MBPS="@) {
            Some(v) => (trim(v), p.1, p.2, p.3),
            None => match strip_prefix(l, "UPLOAD_MBPS="@) {
                Some(v) => (p.0, trim(v), p.2, p.3),
                None => match strip_prefix(l, "PING_MS="@) {
                    Some(v) => (p.0, p.1, trim(v), p.3),
                    None => if contains_seq(l, "TOOL_MISSING=1"@) {
                        (p.0, p.1, p.2, true)
                    } else {
                        p
                    },
                },
            },
        }
    }
}

pub fn parse_speed_result(text: &str) -> (r: SpeedResult)
    ensures
        (r.download@, r.upload@, r.ping@, r.missing) == speed_result_after(lines(text@)),
{
    let ls = lines_of(&chars_of(text));
    let ghost lv = ls.deep_view();
    let mut dl: Vec<char> = Vec::new();
    let mut ul: Vec<char> = Vec::new();
    let mut ping: Vec<char> = Vec::new();
    let mut missing = false;
    let mut i: usize = 0;
    while i < ls.len()
        invariant
            i <= ls@.len(),
            lv == ls.deep_view(),
            (dl@, ul@, ping@, missing) == speed_result_after(lv.take(i as int)),
        decreases ls@.len() - i,
    {
        proof {
            assert(lv.take(i + 1).drop_last() =~= lv.take(i as int));
            assert(lv.take(i + 1).last() == ls@[i as int]@);
        }
        match strip_prefix_str(&ls[i], "DOWNLOAD_MBPS=") {
            Some(v) => {
                dl = trim_chars(&v);
            },
            None => match strip_prefix_str(&ls[i], "UPLOAD_MBPS=") {
                Some(v) => {
                    ul = trim_chars(&v);
                },
                None => match strip_prefix_str(&ls[i], "PING_MS=") {
                    Some(v) => {
                        ping = trim_chars(&v);
                    },
                    None => {
                        if str_contains(&ls[i], "TOOL_MISSING=1") {
                            missing = true;
                        }
                    },
                },
            },
        }
        i += 1;
    }
    assert(lv.take(ls@.len() as int) =~= lv);
    SpeedResult {
        download: string_of(&dl),
        upload: string_of(&ul),
        ping: string_of(&ping),
        missing,
    }
}

/// No character of `s` is whitespace.
pub open spec fn no_ws(s: Seq<char>) -> bool {
    forall|i: int| 0 <= i < s.len() ==> !is_ws(#[trigger] s[i])
}

proof fn lemma_speedtest_fields_no_ws(rows: Seq<(Seq<char>, Seq<char>)>)
    ensures
        no_ws(speedtest_after(rows).0),
        no_ws(speedtest_after(rows).1),
        no_ws(speedtest_after(rows).2),
    decreases rows.len(),
{
    if rows.len() > 0 {
        lemma_speedtest_fields_no_ws(rows.drop_last());
        let w = words(rows.last().0);
        lemma_words_no_ws(rows.last().0);
        if w.len() > 1 {
            assert forall|i: int| 0 <= i < w[1].len() implies !is_ws(#[trigger] w[1][i]) by {
                assert(!is_ws(words(rows.last().0)[1][i]));
            }
        }
    }
}

proof fn lemma_report_line(key: Seq<char>, v: Seq<char>)
    requires
        no_ws(v),
        key.len() > 0,
        key.last() == '=',
        forall|i: int| 0 <= i < key.len() ==> key[i] != '\n',
    ensures
        forall|i: int| 0 <= i < (key + v).len() ==> (key + v)[i] != '\n',
        strip_cr(key + v) == key + v,
        trim(v) == v,
{
    assert(is_ws('\n'));
    assert(is_ws('\r'));
    assert forall|i: int| 0 <= i < (key + v).len() implies (key + v)[i] != '\n' by {
        if i >= key.len() {
            assert((key + v)[i] == v[i - key.len()]);
        }
    }
    if v.len() > 0 {
        assert((key + v).last() == v[v.len() - 1]);
    }
    lemma_trim_no_ws(v);
}

/// A report of values without whitespace (what `speed_report` writes of
/// `speedtest --simple` output) reads back, line by line, as those values,
/// with no tool missing.
pub proof fn lemma_speed_report_reads_back(d: Seq<char>, u: Seq<char>, p: Seq<char>)
    requires
        no_ws(d),
        no_ws(u),
        no_ws(p),
    ensures
        speed_result_after(lines(speed_report((d, u, p)))) == (d, u, p, false),
{
    reveal_strlit("DOWNLOAD_MBPS=");
    reveal_strlit("\nUPLOAD_MBPS=");
    reveal_strlit("UPLOAD_MBPS=");
    reveal_strlit("\nPING_MS=");
    reveal_strlit("PING_MS=");
    reveal_strlit("\n");
    reveal_strlit("TOOL_MISSING=1");
    let k1 = "DOWNLOAD_MBPS="@;
    let k2 = "UPLOAD_MBPS="@;
    let k3 = "PING_MS="@;
    let x1 = k1 + d;
    let x2 = k2 + u;
    let x3 = k3 + p;
    lemma_report_line(k1, d);
    lemma_report_line(k2, u);
    lemma_report_line(k3, p);
    let nl = seq!['\n'];
    assert(speed_report((d, u, p)) =~= x1 + nl + (x2 + nl + (x3 + nl + Seq::<char>::empty())));
    lemma_lines_cons(x3, Seq::<char>::empty());
    lemma_lines_cons(x2, x3 + nl + Seq::<char>::empty());
    lemma_lines_cons(x1, x2 + nl + (x3 + nl + Seq::<char>::empty()));
    let ls = lines(speed_report((d, u, p)));
    assert(ls =~= seq![x1, x2, x3]);
    assert(x1.take(k1.len() as int) =~= k1);
    assert(x1.skip(k1.len() as int) =~= d);
    assert(x2.take(k2.len() as int) =~= k2);
    assert(x2.skip(k2.len() as int) =~= u);
    assert(x3.take(k3.len() as int) =~= k3);
    assert(x3.skip(k3.len() as int) =~= p);
    assert(!starts_with(x2, k1)) by {
        if starts_with(x2, k1) {
            assert(x2.take(k1.len() as int)[0] == k1[0]);
        }
    }
    assert(!starts_with(x3, k1)) by {
        if starts_with(x3, k1) {
            assert(x3.take(k1.len() as int)[0] == k1[0]);
        }
    }
    assert(!starts_with(x3, k2)) by {
        if starts_with(x3, k2) {
            assert(x3.take(k2.len() as int)[0] == k2[0]);
        }
    }
    let e = Seq::<char>::empty();
    assert(strip_prefix(x1, k1) == Some(d));
    assert(strip_prefix(x2, k2) == Some(u));
    assert(strip_prefix(x3, k3) == Some(p));
    assert(speed_result_after(seq![x1]) == (d, e, e, false)) by {
        assert(seq![x1].drop_last() =~= Seq::<Seq<char>>::empty());
        assert(speed_result_after(Seq::<Seq<char>>::empty()) == (e, e, e, false));
        assert(seq![x1].last() == x1);
        assert(trim(d) == d);
    }
    assert(speed_result_after(seq![x1, x2]) == (d, u, e, false)) by {
        assert(seq![x1, x2].drop_last() =~= seq![x1]);
    }
    assert(speed_result_after(seq![x1, x2, x3]) == (d, u, p, false)) by {
        assert(seq![x1, x2, x3].drop_last() =~= seq![x1, x2]);
    }
}

/// What the speed test script reports of `speedtest --simple` output reads
/// back as the values it took from that output, with no tool missing.
pub proof fn lemma_speedtest_report_roundtrip(rows: Seq<(Seq<char>, Seq<char>)>)
    ensures
        speed_result_after(lines(speed_report(speedtest_after(rows)))) == (
            speedtest_after(rows).0,
            speedtest_after(rows).1,
            speedtest_after(rows).2,
            false,
        ),
{
    lemma_speedtest_fields_no_ws(rows);
    let r = speedtest_after(rows);
    lemma_speed_report_reads_back(r.0, r.1, r.2);
}

/// A result as shown: `N/A` when not reported, else with its unit.
pub fn speed_display(v: &str, unit: &str) -> (r: String)
    ensures
        r@ == (if v@.len() == 0 {
            "N/A"@
        } else {
            v@ + " "@ + unit@
        }),
{
    let c = chars_of(v);
    if c.len() == 0 {
        "N/A".to_owned()
    } else {
        let mut out = c;
        out.push(' ');
        push_all(&mut out, &chars_of(unit));
        proof {
            reveal_strlit(" ");
        }
        assert(out@ =~= v@ + " "@ + unit@);
        string_of(&out)
    }
}

/// A history line: `[time]  ↓download  ↑upload  Ping: ping`.
pub fn history_entry(time: &str, dl: &str, ul: &str, ping: &str) -> (r: String)
    ensures
        r@ == "["@ + time@ + "]  ↓"@ + dl@ + "  ↑"@ + ul@ + "  Ping: "@ + ping@,
{
    let mut out = chars_of("[");
    push_all(&mut out, &chars_of(time));
    push_all(&mut out, &chars_of("]  ↓"));
    push_all(&mut out, &chars_of(dl));
    push_all(&mut out, &chars_of("  ↑"));
    push_all(&mut out, &chars_of(ul));
    push_all(&mut out, &chars_of("  Ping: "));
    push_all(&mut out, &chars_of(ping));
    string_of(&out)
}

/// Number of results the history keeps.
pub const SPEED_HISTORY: usize = 5;

/// The history after adding `entry`: the oldest result goes once the
/// history is full.
pub open spec fn speed_history_push<T>(h: Seq<T>, entry: T) -> Seq<T> {
    if h.len() < SPEED_HISTORY {
        h.push(entry)
    } else {
        h.push(entry).drop_first()
    }
}

/// The history after adding `entries` one by one, in arrival order.
pub open spec fn speed_history_after<T>(h: Seq<T>, entries: Seq<T>) -> Seq<T>
    decreases entries.len(),
{
    if entries.len() == 0 {
        h
    } else {
        speed_history_push(speed_history_after(h, entries.drop_last()), entries.last())
    }
}

/// Adds a result to the history, dropping the oldest one when that takes
/// it past the limit (so a history within the limit stays within it).
pub fn push_speed_history(h: &mut Vec<String>, entry: String)
    ensures
        old(h)@.len() <= SPEED_HISTORY ==> final(h)@.len() <= SPEED_HISTORY,
        final(h)@ == speed_history_push(old(h)@, entry),
{
    h.push(entry);
    if h.len() > SPEED_HISTORY {
        let _ = h.remove(0);
        assert(final(h)@ =~= old(h)@.push(entry).drop_first());
    }
}

proof fn lemma_speed_history_from<T>(h: Seq<T>, entries: Seq<T>)
    requires
        h.len() <= SPEED_HISTORY,
    ensures
        speed_history_after(h, entries) == keep_last(h + entries, SPEED_HISTORY as nat),
    decreases entries.len(),
{
    let cap = SPEED_HISTORY as nat;
    if entries.len() == 0 {
        assert(h + entries =~= h);
    } else {
        let es = entries.drop_last();
        let e = entries.last();
        lemma_speed_history_from(h, es);
        let a = speed_history_after(h, es);
        let s1 = h + es;
        let s = h + entries;
        assert(s =~= s1.push(e));
        if s1.len() < cap {
            assert(a == s1);
        } else {
            assert(a =~= s1.skip(s1.len() - cap));
            assert(s1.push(e).skip(s.len() - cap) =~= a.push(e).drop_first());
        }
    }
}

/// Results added to a history within the limit leave it holding the most
/// recent `SPEED_HISTORY` of all results so far (all of them while there
/// are fewer), oldest first; from an empty history, after `n` results it
/// holds the last `min(n, SPEED_HISTORY)` of them in arrival order.
pub proof fn lemma_speed_history_recent<T>(h: Seq<T>, entries: Seq<T>)
    requires
        h.len() <= SPEED_HISTORY,
    ensures
        speed_history_after(h, entries) == keep_last(h + entries, SPEED_HISTORY as nat),
        speed_history_after(Seq::<T>::empty(), entries) == keep_last(entries, SPEED_HISTORY as nat),
{
    lemma_speed_history_from(h, entries);
    lemma_speed_history_from(Seq::<T>::empty(), entries);
    assert(Seq::<T>::empty() + entries =~= entries);
}

} // verus!
