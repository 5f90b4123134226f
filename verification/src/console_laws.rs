//! What holds of amounts of data, and of all that the console and the tray show and
//! decide.
use vstd::prelude::*;

use crate::console::{
    applied_message, autostart_line, boxes_for, comes_before, config_line, count_second,
    filled_lines, has_known_scheme, has_link_line, import_after, is_conflict, is_offer, is_ranking,
    is_running_notice, last_latency_view, latency_mark, latency_view, mode_view, name_at, node_hint,
    node_line, node_list, on_proxy_changed, on_tun_changed, parse_index, plan_start,
    proxy_line_after_start, proxy_wanted, ranked_names, scope_view, should_reload, started_line,
    stopped_line, successes, summary_view, test_all_line, tested_line, tip_view, welcome_lines,
    Boxes, ImportView, Labels, Notice, PortOffer, StartPlan,
};
use crate::format::{bytes_text, fmt_bytes, fmt_speed, rounded, spacing, to_53_bits};
use crate::nodes::StoreView;
use crate::singbox::{AppState, AppView, Process};
use crate::template_laws::is_rising;
use crate::text::{
    decimal, has_prefix, is_digit, joined_by, law_decimal_reads_back, law_decimals_differ,
    lemma_decimal_value, number_in, texts, trimmed,
};

verus! {

// ---- Amounts of data ----

/// A number is the quotient of two others to the nearest, where a half goes to the even
/// one.
pub open spec fn is_nearest(v: nat, n: nat, d: nat) -> bool {
    &&& 2 * n <= 2 * v * d + d
    &&& 2 * v * d <= 2 * n + d
    &&& 2 * n == 2 * v * d + d || 2 * v * d == 2 * n + d ==> v % 2 == 0
}

proof fn lemma_rounded(n: nat, d: nat)
    requires
        d > 0,
    ensures
        is_nearest(rounded(n, d), n, d),
{
    let q = n / d;
    let rest = n % d;
    assert(n == q * d + rest && rest < d) by (nonlinear_arith)
        requires
            q == n / d,
            rest == n % d,
            d > 0,
    ;
    let v = rounded(n, d);
    assert(2 * v * d == 2 * (v * d)) by (nonlinear_arith);
    assert((q + 1) * d == q * d + d) by (nonlinear_arith);
    if 2 * n == 2 * v * d + d || 2 * v * d == 2 * n + d {
        if v == q {
            assert(2 * rest == d);
        } else {
            assert(2 * rest == d);
            assert(q % 2 == 1);
        }
    }
}

/// The text of a number of tenths or hundredths with a unit: `10` or `100` stand in a
/// whole.
pub open spec fn is_amount(t: Seq<char>, v: nat, parts: nat, unit: Seq<char>) -> bool {
    if parts == 10 {
        t == decimal(v / 10) + "."@ + decimal(v % 10) + unit
    } else {
        t == decimal(v / 100) + "."@ + decimal(v % 100 / 10) + decimal(v % 10) + unit
    }
}

/// Amounts below a kilobyte are in bytes. Those below a megabyte are in kilobytes and
/// those below a gigabyte in megabytes, each to the nearest tenth.
pub proof fn law_small_amounts(n: u64)
    ensures
        n < 1024 ==> bytes_text(n) == decimal(n as nat) + " B"@,
        1024 <= n < 1024 * 1024 ==> exists|v: nat|
            is_nearest(v, 10 * n as nat, 1024) && #[trigger] is_amount(
                bytes_text(n),
                v,
                10,
                " KB"@,
            ),
        1024 * 1024 <= n < 1024 * 1024 * 1024 ==> exists|v: nat|
            is_nearest(v, 10 * n as nat, 1024 * 1024) && #[trigger] is_amount(
                bytes_text(n),
                v,
                10,
                " MB"@,
            ),
{
    lemma_rounded(n as nat * 10, 1024);
    lemma_rounded(n as nat * 10, 1_048_576);
    if 1024 <= n < 1024 * 1024 {
        assert(is_amount(bytes_text(n), rounded(n as nat * 10, 1024), 10, " KB"@));
    } else if 1024 * 1024 <= n < 1024 * 1024 * 1024 {
        assert(is_amount(bytes_text(n), rounded(n as nat * 10, 1_048_576), 10, " MB"@));
    }
}

proof fn lemma_spacing(n: nat)
    ensures
        spacing(n) > 0,
        n < 0x20_0000_0000_0000 ==> spacing(n) == 1,
        n >= 0x20_0000_0000_0000 ==> spacing(n) * 0x10_0000_0000_0000 <= n < spacing(n)
            * 0x20_0000_0000_0000,
    decreases n,
{
    if n >= 0x20_0000_0000_0000 {
        lemma_spacing(n / 2);
    }
}

/// Amounts from a gigabyte on are in gigabytes to the nearest hundredth. From 2^53
/// bytes on, where the amount itself is rounded first, that is off by at most two
/// kilobytes more.
pub proof fn law_large_amounts(n: u64)
    requires
        n >= 1024 * 1024 * 1024,
    ensures
        n < 0x20_0000_0000_0000 ==> exists|v: nat|
            is_nearest(v, 100 * n as nat, 1024 * 1024 * 1024) && #[trigger] is_amount(
                bytes_text(n),
                v,
                100,
                " GB"@,
            ),
        exists|v: nat|
            -1024 * 1024 * 1024 - 409_600 <= 2 * v * 1_073_741_824 - 200 * n <= 1024 * 1024 * 1024
                + 409_600 && #[trigger] is_amount(bytes_text(n), v, 100, " GB"@),
{
    let m = to_53_bits(n as nat);
    let s = spacing(n as nat);
    let v = rounded(m * 100, 1_073_741_824);
    lemma_spacing(n as nat);
    lemma_rounded(n as nat, s);
    lemma_rounded(m * 100, 1_073_741_824);
    let q = rounded(n as nat, s);
    assert(2 * q * s == 2 * m) by (nonlinear_arith)
        requires
            m == q * s,
    ;
    if n < 0x20_0000_0000_0000 {
        assert(m == n);
    }
    assert(s <= 4096);
    assert(is_amount(bytes_text(n), v, 100, " GB"@));
}

/// A speed is the amount of a second.
pub proof fn law_speeds(n: u64, amount: String, speed: String)
    requires
        call_ensures(fmt_bytes, (n,), amount),
        call_ensures(fmt_speed, (n,), speed),
    ensures
        speed@ == amount@ + "/s"@,
        amount@ == bytes_text(n),
{
}

// ---- Links ----

/// A line that begins with the scheme of a share link is one, whatever follows.
pub proof fn law_schemes_of_links(rest: Seq<char>)
    ensures
        has_known_scheme("http://"@ + rest),
        has_known_scheme("https://"@ + rest),
        has_known_scheme("vmess://"@ + rest),
        has_known_scheme("vless://"@ + rest),
        has_known_scheme("ss://"@ + rest),
        has_known_scheme("ssr://"@ + rest),
        has_known_scheme("trojan://"@ + rest),
        has_known_scheme("hysteria://"@ + rest),
        has_known_scheme("hysteria2://"@ + rest),
        has_known_scheme("hy2://"@ + rest),
        has_known_scheme("tuic://"@ + rest),
        has_known_scheme("socks://"@ + rest),
        has_known_scheme("ssh://"@ + rest),
{
    lemma_begins("http://"@, rest);
    lemma_begins("https://"@, rest);
    lemma_begins("vmess://"@, rest);
    lemma_begins("vless://"@, rest);
    lemma_begins("ss://"@, rest);
    lemma_begins("ssr://"@, rest);
    lemma_begins("trojan://"@, rest);
    lemma_begins("hysteria://"@, rest);
    lemma_begins("hysteria2://"@, rest);
    lemma_begins("hy2://"@, rest);
    lemma_begins("tuic://"@, rest);
    lemma_begins("socks://"@, rest);
    lemma_begins("ssh://"@, rest);
}

proof fn lemma_begins(a: Seq<char>, rest: Seq<char>)
    ensures
        has_prefix(a + rest, a),
{
    assert((a + rest).take(a.len() as int) =~= a);
}

/// `://` stands at an index.
pub open spec fn is_scheme_end(s: Seq<char>, k: int) -> bool {
    0 <= k && k + 3 <= s.len() && s[k] == ':' && s[k + 1] == '/' && s[k + 2] == '/'
}

proof fn lemma_scheme_end(line: Seq<char>, scheme: Seq<char>)
    requires
        has_prefix(line, scheme),
        2 <= scheme.len() - 3 <= 9,
        is_scheme_end(scheme, scheme.len() - 3),
        forall|i: int|
            0 <= i < scheme.len() - 3 ==> 'a' <= #[trigger] scheme[i] <= 'z' || scheme[i] == '2',
    ensures
        exists|k: int| 2 <= k <= 9 && #[trigger] is_scheme_end(line, k) && is_word(line.take(k)),
{
    let k = scheme.len() - 3;
    let head = line.take(scheme.len() as int);
    assert forall|i: int| 0 <= i < scheme.len() implies line[i] == #[trigger] scheme[i] by {
        assert(head[i] == line[i]);
    }
    assert(line[k] == scheme[k] && line[k + 1] == scheme[k + 1] && line[k + 2] == scheme[k + 2]);
    assert(is_scheme_end(line, k));
    assert forall|i: int| 0 <= i < k implies 'a' <= #[trigger] line.take(k)[i] <= 'z' || line.take(
        k,
    )[i] == '2' by {
        assert(line[i] == scheme[i]);
    }
    assert(is_word(line.take(k)));
}

/// A text is of small letters, and the digit that two of the schemes have.
pub open spec fn is_word(s: Seq<char>) -> bool {
    forall|i: int| 0 <= i < s.len() ==> 'a' <= #[trigger] s[i] <= 'z' || s[i] == '2'
}

/// A line that begins like a share link begins with a word of two to nine small
/// letters, followed by `://`.
pub proof fn law_links_have_schemes(line: Seq<char>)
    requires
        has_known_scheme(line),
    ensures
        exists|k: int| 2 <= k <= 9 && #[trigger] is_scheme_end(line, k) && is_word(line.take(k)),
{
    reveal_strlit("http://");
    reveal_strlit("https://");
    reveal_strlit("vmess://");
    reveal_strlit("vless://");
    reveal_strlit("ss://");
    reveal_strlit("ssr://");
    reveal_strlit("trojan://");
    reveal_strlit("hysteria://");
    reveal_strlit("hysteria2://");
    reveal_strlit("hy2://");
    reveal_strlit("tuic://");
    reveal_strlit("socks://");
    reveal_strlit("ssh://");
    let scheme = if has_prefix(line, "http://"@) {
        "http://"@
    } else if has_prefix(line, "https://"@) {
        "https://"@
    } else if has_prefix(line, "vmess://"@) {
        "vmess://"@
    } else if has_prefix(line, "vless://"@) {
        "vless://"@
    } else if has_prefix(line, "ss://"@) {
        "ss://"@
    } else if has_prefix(line, "ssr://"@) {
        "ssr://"@
    } else if has_prefix(line, "trojan://"@) {
        "trojan://"@
    } else if has_prefix(line, "hysteria://"@) {
        "hysteria://"@
    } else if has_prefix(line, "hysteria2://"@) {
        "hysteria2://"@
    } else if has_prefix(line, "hy2://"@) {
        "hy2://"@
    } else if has_prefix(line, "tuic://"@) {
        "tuic://"@
    } else if has_prefix(line, "socks://"@) {
        "socks://"@
    } else {
        "ssh://"@
    };
    lemma_scheme_end(line, scheme);
}

/// A text looks like a link if and only if one of its lines, without white space at its
/// ends, begins like one: one such line is enough, on whichever line it stands.
pub proof fn law_one_link_is_enough(a: Seq<Seq<char>>, line: Seq<char>, b: Seq<Seq<char>>)
    ensures
        has_known_scheme(trimmed(line)) ==> has_link_line(a + seq![line] + b),
        !has_known_scheme(trimmed(line)) ==> (has_link_line(a + seq![line] + b) <==> has_link_line(
            a + b,
        )),
        !has_link_line(Seq::<Seq<char>>::empty()),
{
    let all = a + seq![line] + b;
    let rest = a + b;
    let n = a.len() as int;
    assert(all[n] == line);
    if has_link_line(rest) {
        let i = choose|i: int| 0 <= i < rest.len() && has_known_scheme(trimmed(#[trigger] rest[i]));
        let j = if i < n { i } else { i + 1 };
        assert(all[j] == rest[i]);
    }
    if has_link_line(all) && !has_known_scheme(trimmed(line)) {
        let j = choose|j: int| 0 <= j < all.len() && has_known_scheme(trimmed(#[trigger] all[j]));
        let i = if j < n { j } else { j - 1 };
        assert(all[j] == rest[i]);
    }
}

/// The links of a text are its lines without white space at their ends, in their order:
/// the lines at `at`, which are all that are not blank.
pub open spec fn are_links(lines: Seq<Seq<char>>, links: Seq<Seq<char>>, at: Seq<int>) -> bool {
    &&& is_rising(at, lines.len() as int)
    &&& at.len() == links.len()
    &&& forall|k: int| 0 <= k < at.len() ==> #[trigger] links[k] == trimmed(lines[at[k]])
    &&& forall|i: int| 0 <= i < lines.len() ==> (at.contains(i) <==> trimmed(#[trigger] lines[i]) != Seq::<char>::empty())
}

/// The links of a text are its lines that are not blank, each without white space at
/// its ends, in their order and none twice.
pub proof fn law_links(lines: Seq<Seq<char>>)
    ensures
        exists|at: Seq<int>| are_links(lines, filled_lines(lines), at),
    decreases lines.len(),
{
    let links = filled_lines(lines);
    if lines.len() == 0 {
        assert(are_links(lines, links, Seq::empty()));
    } else {
        let shorter = lines.drop_last();
        law_links(shorter);
        let old_links = filled_lines(shorter);
        let before = choose|at: Seq<int>| are_links(shorter, old_links, at);
        let last = lines.len() - 1;
        let filled = trimmed(lines.last()).len() > 0;
        if !filled {
            assert(trimmed(lines.last()) =~= Seq::<char>::empty());
        }
        let at = if filled {
            before.push(last)
        } else {
            before
        };
        assert forall|k: int| 0 <= k < before.len() implies at[k] == #[trigger] before[k] && 0
            <= before[k] < last by {}
        assert forall|k: int| 0 <= k < at.len() implies #[trigger] links[k] == trimmed(
            lines[at[k]],
        ) by {
            if k < before.len() {
                assert(links[k] == old_links[k]);
                assert(shorter[before[k]] == lines[before[k]]);
            }
        }
        assert forall|i: int| 0 <= i < lines.len() implies (at.contains(i) <==> trimmed(
            #[trigger] lines[i],
        ) != Seq::<char>::empty()) by {
            if i < last {
                assert(shorter[i] == lines[i]);
                if at.contains(i) {
                    let k = choose|k: int| 0 <= k < at.len() && at[k] == i;
                    assert(before[k] == i);
                }
                if before.contains(i) {
                    let k = choose|k: int| 0 <= k < before.len() && before[k] == i;
                    assert(at[k] == i);
                }
            } else if filled {
                assert(at[before.len() as int] == i);
            } else if at.contains(i) {
                let k = choose|k: int| 0 <= k < at.len() && at[k] == i;
                assert(before[k] < last);
            }
        }
        assert(is_rising(at, lines.len() as int)) by {
            assert forall|a: int, b: int| 0 <= a < b < at.len() implies #[trigger] at[a]
                < #[trigger] at[b] by {
                assert(at[a] == before[a]);
                if b < before.len() {
                    assert(at[b] == before[b]);
                }
            }
        }
        assert(are_links(lines, links, at));
    }
}

// ---- Latencies ----

/// What a latency looks like names it: its digits, with a blank and `ms`, read back as
/// it; one below a millisecond and one that could not be measured have words of their
/// own. So different results look different.
pub proof fn law_latencies_shown(ms: u64, other: Option<u64>)
    ensures
        ms > 0 ==> ({
            let t = latency_view(Some(ms));
            &&& t.len() > 3
            &&& number_in(t.take(t.len() - 3)) == Some(ms as nat)
            &&& t.skip(t.len() - 3) == " ms"@
        }),
        latency_view(Some(0)) == "<1 ms"@,
        latency_view(None) == "不可达"@,
        latency_view(other) == latency_view(Some(ms)) ==> other == Some(ms),
{
    reveal_strlit(" ms");
    reveal_strlit("<1 ms");
    reveal_strlit("不可达");
    assert(" ms"@.len() == 3);
    assert("<1 ms"@.len() == 5 && "<1 ms"@[0] == '<');
    assert("不可达"@.len() == 3 && "不可达"@[0] == '不');
    lemma_decimal_value(ms as nat);
    law_decimal_reads_back(ms as nat);
    assert(is_digit(decimal(ms as nat)[0]));
    let t = latency_view(Some(ms));
    if ms > 0 {
        assert(t[0] == decimal(ms as nat)[0]);
        assert(t.take(t.len() - 3) =~= decimal(ms as nat));
        assert(t.skip(t.len() - 3) =~= " ms"@);
    }
    if other is Some && other->0 > 0 {
        let u = latency_view(other);
        lemma_decimal_value(other->0 as nat);
        assert(is_digit(decimal(other->0 as nat)[0]));
        assert(u[0] == decimal(other->0 as nat)[0]);
        assert(u.take(u.len() - 3) =~= decimal(other->0 as nat));
        if u == t && ms > 0 {
            law_decimals_differ(other->0 as nat, ms as nat);
        }
    }
}

/// A latency that is kept looks the same in the list of nodes and above it as its
/// measurement did: none was made where it is 0, and the node could not be reached where
/// it is the largest number.
pub proof fn law_kept_latencies_shown(ms: u64)
    ensures
        last_latency_view(0) == "未测试"@,
        last_latency_view(u64::MAX) == latency_view(None),
        0 < ms < u64::MAX ==> last_latency_view(ms) == latency_view(Some(ms)),
        latency_mark(0).len() == 0,
        latency_mark(u64::MAX) == " ⏱不可达"@,
        0 < ms < u64::MAX ==> latency_mark(ms) == " ⏱"@ + decimal(ms as nat) + "ms"@,
{
}

// ---- The list of nodes ----

/// A text begins with another.
pub open spec fn begins(t: Seq<char>, a: Seq<char>) -> bool {
    exists|rest: Seq<char>| t == #[trigger] (a + rest)
}

/// A text ends with another.
pub open spec fn ends(t: Seq<char>, a: Seq<char>) -> bool {
    exists|front: Seq<char>| t == #[trigger] (front + a)
}

/// A text holds another.
pub open spec fn shows(t: Seq<char>, a: Seq<char>) -> bool {
    exists|front: Seq<char>, rest: Seq<char>| t == #[trigger] (front + a + rest)
}

proof fn lemma_shows(t: Seq<char>, front: Seq<char>, a: Seq<char>, rest: Seq<char>)
    requires
        t =~= front + a + rest,
    ensures
        shows(t, a),
        front.len() == 0 ==> begins(t, a),
        rest.len() == 0 ==> ends(t, a),
{
    assert(t == front + a + rest);
    if front.len() == 0 {
        assert(t =~= a + rest);
    }
    if rest.len() == 0 {
        assert(t =~= front + a);
    }
}

/// The line of a node begins with its number, after a mark if it is the selected one
/// and after blanks if not. It ends with the node's name and latency, and shows how
/// traffic is taken over.
pub proof fn law_node_lines(s: StoreView, i: int)
    requires
        0 <= i < s.nodes.len(),
    ensures
        ({
            let t = node_line(s, i);
            &&& i == s.current ==> begins(t, "▶"@ + " "@ + decimal(i as nat) + " "@)
            &&& i != s.current ==> begins(t, "  "@ + " "@ + decimal(i as nat) + " "@)
            &&& s.nodes[i].latency == 0 ==> ends(t, "  "@ + s.nodes[i].name)
            &&& ends(t, "  "@ + s.nodes[i].name + latency_mark(s.nodes[i].latency))
            &&& s.use_tun ==> shows(t, "[全应用]"@)
            &&& !s.use_tun ==> shows(t, "[代理]"@)
        }),
{
    let t = node_line(s, i);
    let mark = if i == s.current {
        "▶"@
    } else {
        "  "@
    };
    let way = if s.use_tun {
        "[全应用]"@
    } else {
        "[代理]"@
    };
    let name = s.nodes[i].name;
    let latency = latency_mark(s.nodes[i].latency);
    let head = mark + " "@ + decimal(i as nat) + " "@;
    let none = Seq::<char>::empty();
    lemma_shows(t, none, head, way + "  "@ + name + latency);
    lemma_shows(t, head, way, "  "@ + name + latency);
    lemma_shows(t, head + way, "  "@ + name + latency, none);
    if s.nodes[i].latency == 0 {
        lemma_shows(t, head + way, "  "@ + name, none);
    }
}

proof fn lemma_list_of(s: StoreView, lines: Seq<Seq<char>>, i: int)
    requires
        0 <= i < lines.len(),
    ensures
        shows(joined_by(lines, "\r\n"@), lines[i]),
        lines.len() > 1 && i == lines.len() - 1 ==> ends(
            joined_by(lines, "\r\n"@),
            "\r\n"@ + lines[i],
        ),
    decreases lines.len(),
{
    let all = joined_by(lines, "\r\n"@);
    let none = Seq::<char>::empty();
    if lines.len() == 1 {
        lemma_shows(all, none, lines[0], none);
    } else {
        let front = joined_by(lines.drop_last(), "\r\n"@);
        if i == lines.len() - 1 {
            lemma_shows(all, front + "\r\n"@, lines[i], none);
            lemma_shows(all, front, "\r\n"@ + lines[i], none);
        } else {
            lemma_list_of(s, lines.drop_last(), i);
            let (a, b) = choose|a: Seq<char>, b: Seq<char>|
                front == #[trigger] (a + lines.drop_last()[i] + b);
            lemma_shows(all, a, lines[i], b + "\r\n"@ + lines.last());
        }
    }
}

/// The list of nodes has a line for each, and says so where there is none.
pub proof fn law_node_list(s: StoreView, i: int)
    ensures
        0 <= i < s.nodes.len() ==> shows(node_list(s), node_line(s, i)),
        s.nodes.len() == 1 ==> node_list(s) == node_line(s, 0),
        s.nodes.len() > 1 ==> ends(node_list(s), "\r\n"@ + node_line(s, s.nodes.len() - 1)),
        s.nodes.len() == 0 ==> node_list(s) == "（暂无节点）"@,
{
    let lines = Seq::new(s.nodes.len(), |k: int| node_line(s, k));
    if 0 <= i < s.nodes.len() {
        lemma_list_of(s, lines, i);
    }
    if s.nodes.len() > 1 {
        lemma_list_of(s, lines, s.nodes.len() - 1);
    }
}

/// A number that is typed with blanks around it is read.
pub proof fn law_typed_numbers(n: u32, input: &str, r: Option<usize>)
    requires
        call_ensures(parse_index, (input,), r),
        trimmed(input@) == decimal(n as nat),
    ensures
        r == Some(n as usize),
{
    law_decimal_reads_back(n as nat);
}

// ---- Measuring all nodes ----

/// A ranking names each node that was reached once, with what was measured, and no
/// other; a node of less latency comes first, and of two with the same the one with the
/// lower number.
pub proof fn law_ranking(results: Seq<Option<u64>>, ranked: Seq<(usize, u64)>, a: int, b: int)
    requires
        is_ranking(results, ranked),
        results.len() <= usize::MAX,
    ensures
        0 <= a < b < ranked.len() ==> ranked[a].1 <= ranked[b].1,
        0 <= a < b < ranked.len() && ranked[a].1 == ranked[b].1 ==> ranked[a].0 < ranked[b].0,
        0 <= a < ranked.len() ==> 0 <= ranked[a].0 < results.len() && results[ranked[a].0 as int]
            == Some(ranked[a].1),
        0 <= a < results.len() && results[a] is Some ==> exists|k: int|
            0 <= k < ranked.len() && #[trigger] ranked[k] == (a as usize, results[a]->0),
        0 <= a < b < ranked.len() ==> ranked[a].0 != ranked[b].0,
{
    if 0 <= a < b < ranked.len() {
        assert(comes_before(ranked[a], ranked[b]));
        assert(results[ranked[a].0 as int] == Some(ranked[a].1));
        assert(results[ranked[b].0 as int] == Some(ranked[b].1));
    }
    if 0 <= a < results.len() && results[a] is Some {
        assert(ranked.contains((a as usize, results[a]->0)));
    }
}

/// A summary of up to ten nodes names each with its latency, in the order of the
/// ranking: one more node is named after those before it. Of more the first ten are
/// named, and it says that there are more.
pub proof fn law_summaries(s: StoreView, ranked: Seq<(usize, u64)>, next: (usize, u64))
    requires
        next.0 < s.nodes.len(),
    ensures
        ranked.len() == 0 ==> summary_view(s, ranked) == "测速完成：所有节点均不可达"@,
        summary_view(s, seq![next]) == "测速完成（由快到慢）："@ + " "@ + s.nodes[next.0 as int].name + ":"@
            + decimal(next.1 as nat) + "ms"@,
        0 < ranked.len() < 10 ==> summary_view(s, ranked.push(next)) == summary_view(s, ranked) + " "@
            + s.nodes[next.0 as int].name + ":"@ + decimal(next.1 as nat) + "ms"@,
        ranked.len() > 10 ==> summary_view(s, ranked) == summary_view(s, ranked.take(10)) + " …"@,
{
    let more = ranked.push(next);
    assert(more.drop_last() =~= ranked);
    let one = seq![next];
    assert(one.drop_last() =~= Seq::empty());
    let name = s.nodes[next.0 as int].name;
    assert(name_at(s, next.0 as int) == name);
    let intro = "测速完成（由快到慢）："@;
    reveal_with_fuel(ranked_names, 2);
    assert(ranked_names(s, one) =~= " "@ + name + ":"@ + decimal(next.1 as nat)
        + "ms"@);
    assert(summary_view(s, one) =~= intro + " "@ + name + ":"@ + decimal(next.1 as nat) + "ms"@);
    if 0 < ranked.len() < 10 {
        assert(summary_view(s, more) =~= summary_view(s, ranked) + " "@ + name + ":"@ + decimal(
            next.1 as nat,
        ) + "ms"@);
    }
    if ranked.len() > 10 {
        assert(summary_view(s, ranked.take(10)) == intro + ranked_names(
            s,
            ranked.take(10),
        ));
    }
}

// ---- Choices ----

/// The two boxes are never ticked both, and never none of them: ticking one clears the
/// other, and clearing it ticks the other.
pub proof fn law_boxes(checked: bool, a: Boxes, b: Boxes, c: Boxes)
    requires
        call_ensures(on_tun_changed, (checked,), a),
        call_ensures(on_proxy_changed, (checked,), b),
        call_ensures(boxes_for, (checked,), c),
    ensures
        a.tun == checked,
        a.proxy == !checked,
        b.proxy == checked,
        b.tun == !checked,
        c == a,
{
}

/// While sing-box runs, the system proxy is to be on exactly without the virtual network
/// card; while it does not, the proxy is left as it is.
pub proof fn law_wanted_proxy(tun: bool)
    ensures
        proxy_wanted(tun, false) is None,
        proxy_wanted(tun, true) == Some(!tun),
{
}

/// What is logged of the choice of the virtual network card is one line, whatever else
/// holds. Of the choice of the system proxy it is two: the first names the address of
/// the proxy if it could be turned on and else why not, or asks to start sing-box.
pub proof fn law_choices_logged(running: bool, port: u16, outcome: Result<(), String>)
    ensures
        mode_view(true, running, port, outcome) == seq!["已应用：虚拟网卡（接管所有应用）模式"@],
        ({
            let lines = mode_view(false, running, port, outcome);
            &&& lines.len() == 2
            &&& lines[1] == "已应用：系统代理 模式"@
            &&& running && outcome is Ok ==> begins(lines[0], "系统代理已开启"@) && shows(
                lines[0],
                "127.0.0.1:"@ + decimal(port as nat) + "）"@,
            )
            &&& running ==> (outcome matches Err(e) ==> begins(lines[0], "系统代理开启失败："@) && ends(
                lines[0],
                e@,
            ))
            &&& !running ==> lines[0] == "⚠ 已设为系统代理模式，请先「启动」sing-box，代理才会生效"@
        }),
{
    let none = Seq::<char>::empty();
    let lines = mode_view(false, running, port, outcome);
    reveal_strlit("（127.0.0.1:");
    reveal_strlit("127.0.0.1:");
    reveal_strlit("（");
    assert("（127.0.0.1:"@ =~= "（"@ + "127.0.0.1:"@);
    if running {
        match outcome {
            Ok(_) => {
                let done = "系统代理已开启"@;
                let address = "127.0.0.1:"@ + decimal(port as nat) + "）"@;
                lemma_shows(lines[0], none, done, "（"@ + address);
                lemma_shows(lines[0], done + "（"@, address, none);
            },
            Err(e) => {
                lemma_shows(lines[0], none, "系统代理开启失败："@, e@);
                lemma_shows(lines[0], "系统代理开启失败："@, e@, none);
            },
        }
    }
}

/// A configuration that was written makes sing-box start again exactly if it runs.
pub proof fn law_reloads(written: bool, process: Process, r: bool)
    requires
        call_ensures(should_reload, (written, process), r),
    ensures
        r <==> written && process is Alive,
{
}

// ---- Importing ----

/// A link that was added counts once, wherever it stands, and one that was not does not.
/// The reason why the first could not be added is passed on.
pub proof fn law_imports_counted(count: nat, outcomes: Seq<Result<(), String>>, e: String)
    ensures
        successes(Seq::empty()) == 0,
        successes(outcomes.push(Ok(()))) == successes(outcomes) + 1,
        successes(outcomes.push(Err(e))) == successes(outcomes),
        outcomes.len() > 0 && outcomes[0] == Err::<(), String>(e) ==> import_after(count, outcomes)
            == ImportView::Failed("导入失败："@ + e@),
        outcomes.len() < count && (outcomes.len() > 0 ==> outcomes[0] is Ok) ==> import_after(
            count,
            outcomes,
        ) == ImportView::Add(outcomes.len() as int),
        outcomes.len() >= count && (outcomes.len() > 0 ==> outcomes[0] is Ok) ==> import_after(
            count,
            outcomes,
        ) == ImportView::Done(successes(outcomes)),
{
    assert(outcomes.push(Ok(())).drop_last() =~= outcomes);
    assert(outcomes.push(Err(e)).drop_last() =~= outcomes);
}

/// Once the first node was added, and then only, it is logged that there is a
/// configuration.
pub proof fn law_configuration_logged(outcomes: Vec<Result<(), String>>, r: Option<String>)
    requires
        call_ensures(config_line, (&outcomes,), r),
    ensures
        r is Some <==> outcomes@.len() == 1 && outcomes@[0] is Ok,
        r matches Some(line) ==> line@ == "已生成 config.json"@,
{
}

/// What is shown at the end names how many nodes were added, if there were links, and
/// the way that traffic is taken over if it is the system proxy.
pub proof fn law_applied(n: usize, with_links: String, without: String, use_tun: bool)
    requires
        call_ensures(applied_message, (Some(n), use_tun), with_links),
        call_ensures(applied_message, (None, use_tun), without),
    ensures
        with_links@ == "已导入 "@ + decimal(n as nat) + " 个节点，"@ + without@,
        use_tun ==> without@ == "已应用配置"@,
        !use_tun ==> without@ == "已应用配置"@ + "（系统代理模式）"@,
{
    assert(with_links@ =~= "已导入 "@ + decimal(n as nat) + " 个节点，"@ + without@);
    if use_tun {
        assert(without@ =~= "已应用配置"@);
    } else {
        assert(without@ =~= "已应用配置"@ + "（系统代理模式）"@);
    }
}

/// What is logged of a measurement names the node. It tells the latency where there is
/// one, and only where there is none that the node could not be reached.
pub proof fn law_measurements_logged(name: &str, ms: u64, running: bool, a: String, b: String)
    requires
        call_ensures(tested_line, (name, Some(ms), running), a),
        call_ensures(tested_line, (name, None, running), b),
    ensures
        begins(a@, "「"@ + name@ + "」延迟："@ + latency_view(Some(ms))),
        b@ == "「"@ + name@ + "」延迟测试失败（节点不可达）"@,
        running ==> ends(a@, " "@ + "（直连节点）"@),
        !running ==> ends(a@, " "@ + "（直连节点·未启动）"@),
{
    let none = Seq::<char>::empty();
    lemma_shows(
        a@,
        none,
        "「"@ + name@ + "」延迟："@ + latency_view(Some(ms)),
        " "@ + scope_view(running),
    );
    lemma_shows(
        a@,
        "「"@ + name@ + "」延迟："@ + latency_view(Some(ms)),
        " "@ + scope_view(running),
        none,
    );
}

/// What is logged before all nodes are measured names their number.
pub proof fn law_count_logged(count: usize, r: String)
    requires
        call_ensures(test_all_line, (count,), r),
    ensures
        count == 0 ==> r@ == "（暂无节点，无法测速）"@,
        count > 0 ==> shows(r@, "共 "@ + decimal(count as nat) + " 个节点"@),
{
    if count > 0 {
        reveal_strlit("⚡ 开始测速：共 ");
        reveal_strlit("⚡ 开始测速：");
        reveal_strlit("共 ");
        reveal_strlit(" 个节点（未启动亦可比线）…");
        reveal_strlit(" 个节点");
        reveal_strlit("（未启动亦可比线）…");
        assert("⚡ 开始测速：共 "@ =~= "⚡ 开始测速："@ + "共 "@);
        assert(" 个节点（未启动亦可比线）…"@ =~= " 个节点"@ + "（未启动亦可比线）…"@);
        lemma_shows(
            r@,
            "⚡ 开始测速："@,
            "共 "@ + decimal(count as nat) + " 个节点"@,
            "（未启动亦可比线）…"@,
        );
    }
}

// ---- Starting ----

/// The port of the control interface that goes with a port: 7010 above it, but never
/// above the last.
pub open spec fn control_port(port: u16) -> int {
    if port + 7010 > 65535 {
        65535
    } else {
        port + 7010
    }
}

/// The notice that another sing-box seems to run names the port by which it was seen.
pub proof fn law_running_notice(notice: Notice)
    requires
        is_running_notice(notice),
    ensures
        notice.caption@ == "已有 sing-box 在运行"@,
        shows(notice.content@, "9090 端口已被其他程序占用"@),
        shows(notice.log@, "9090 被占用"@),
{
    let none = Seq::<char>::empty();
    let content =
        "检测到 9090 端口已被其他程序占用，很可能已有 sing-box 实例正在运行。\n\n无需重复启动；如希望由本程序接管，请先停止已有的 sing-box 实例，再点击启动。"@;
    let log = "⚠ 检测到 9090 被占用，可能已有 sing-box 在运行，未启动"@;
    reveal_strlit(
        "检测到 9090 端口已被其他程序占用，很可能已有 sing-box 实例正在运行。\n\n无需重复启动；如希望由本程序接管，请先停止已有的 sing-box 实例，再点击启动。",
    );
    reveal_strlit("⚠ 检测到 9090 被占用，可能已有 sing-box 在运行，未启动");
    reveal_strlit("9090 端口已被其他程序占用");
    reveal_strlit("9090 被占用");
    let a = "9090 端口已被其他程序占用"@;
    let b = "9090 被占用"@;
    assert(content.subrange(4, 4 + a.len() as int) =~= a);
    assert(log.subrange(6, 6 + b.len() as int) =~= b);
    lemma_shows(notice.content@, content.take(4), a, content.skip(4 + a.len() as int));
    lemma_shows(notice.log@, log.take(6), b, log.skip(6 + b.len() as int));
}

/// What is planned for a start, where asking for a port always gives the same answer.
/// It goes ahead if and only if both of its ports are free. Else, if the port is taken
/// that sing-box's control interface has by default, another sing-box seems to run;
/// if that is free, other ports are offered, which are above the one that was asked
/// for.
pub proof fn law_plans<F: Fn(u16) -> bool>(
    port: u16,
    in_use: F,
    taken: spec_fn(int) -> bool,
    r: StartPlan,
)
    requires
        forall|q: u16, b: bool| #[trigger] call_ensures(in_use, (q,), b) ==> b == taken(q as int),
        call_ensures(plan_start::<F>, (port, in_use), r),
    ensures
        r is Start <==> !taken(port as int) && !taken(control_port(port)),
        r is AlreadyRunning ==> taken(9090),
        r is Offer ==> !taken(9090),
        r matches StartPlan::Offer(offer) ==> offer.port > port && offer.api == control_port(
            offer.port,
        ),
{
    match r {
        StartPlan::AlreadyRunning(_) => {
            let what = choose|what: Seq<char>| is_conflict(in_use, port, what);
            assert(is_conflict(in_use, port, what));
        },
        StartPlan::Offer(offer) => {
            let what = choose|what: Seq<char>|
                is_conflict(in_use, port, what) && #[trigger] is_offer(offer, what);
            assert(is_conflict(in_use, port, what));
        },
        StartPlan::Start => {},
    }
}

/// An offer names the port that is taken and both ports that it offers.
pub proof fn law_offers<F: Fn(u16) -> bool>(
    in_use: F,
    taken: spec_fn(int) -> bool,
    port: u16,
    what: Seq<char>,
    offer: PortOffer,
)
    requires
        forall|q: u16, b: bool| #[trigger] call_ensures(in_use, (q,), b) ==> b == taken(q as int),
        is_conflict(in_use, port, what),
        is_offer(offer, what),
    ensures
        taken(port as int) ==> begins(what, decimal(port as nat)),
        !taken(port as int) ==> taken(control_port(port)) && begins(
            what,
            decimal(control_port(port) as nat),
        ),
        shows(offer.content@, what),
        shows(offer.content@, decimal(offer.port as nat)),
        shows(offer.content@, decimal(offer.api as nat)),
        ends(offer.accepted@, decimal(offer.port as nat) + " / API "@ + decimal(offer.api as nat)),
        shows(offer.declined@, what),
{
    let none = Seq::<char>::empty();
    if taken(port as int) {
        lemma_shows(what, none, decimal(port as nat), "（代理）"@);
    } else {
        lemma_shows(what, none, decimal(control_port(port) as nat), "（API）"@);
    }
    let a = " 已被其他程序占用，\n无法在该端口启动 sing-box。\n\n是否改用 代理端口 "@;
    let b = " / API 端口 "@;
    let c = " 启动？\n\n（建议点「是」改端口；若想保留原端口，请先关闭占用程序后重试）"@;
    let p = decimal(offer.port as nat);
    let q = decimal(offer.api as nat);
    lemma_shows(offer.content@, "端口 "@, what, a + p + b + q + c);
    lemma_shows(offer.content@, "端口 "@ + what + a, p, b + q + c);
    lemma_shows(offer.content@, "端口 "@ + what + a + p + b, q, c);
    lemma_shows(offer.accepted@, "端口冲突，已改用 代理 "@, p + " / API "@ + q, none);
    lemma_shows(
        offer.declined@,
        "端口 "@,
        what,
        " 被占用，已取消启动。请先关闭占用该端口的程序（如 box 服务）"@,
    );
}

/// What is logged of a start tells success from failure, and passes on why it failed.
pub proof fn law_starts_logged(e: String, done: String, failed: String)
    requires
        call_ensures(started_line, (&Ok(()),), done),
        call_ensures(started_line, (&Err(e),), failed),
    ensures
        done@ == "已启动 sing-box"@,
        failed@ == "启动失败："@ + e@,
{
}

/// After a start, what is logged of the system proxy names its address, or why it could
/// not be turned on; with the virtual network card nothing is.
pub proof fn law_proxy_after_start(
    port: u16,
    outcome: Result<(), String>,
    with_tun: Option<String>,
    without: Option<String>,
)
    requires
        call_ensures(proxy_line_after_start, (true, port, &outcome), with_tun),
        call_ensures(proxy_line_after_start, (false, port, &outcome), without),
    ensures
        with_tun is None,
        without matches Some(line) && match outcome {
            Ok(_) => line@ == "已自动开启系统代理"@ + "（127.0.0.1:"@ + decimal(port as nat) + "）"@,
            Err(e) => line@ == "系统代理开启失败："@ + e@,
        },
{
}

/// What is logged of a stop tells whether the system proxy was turned off with it.
pub proof fn law_stops_logged(with_proxy: String, without: String)
    requires
        call_ensures(stopped_line, (true,), with_proxy),
        call_ensures(stopped_line, (false,), without),
    ensures
        without@ == "已停止 sing-box"@,
        with_proxy@ == without@ + "，并同步关闭系统代理"@,
{
    reveal_strlit("已停止 sing-box，并同步关闭系统代理");
    reveal_strlit("已停止 sing-box");
    reveal_strlit("，并同步关闭系统代理");
    assert(with_proxy@ =~= without@ + "，并同步关闭系统代理"@);
}

/// What is logged of the start at logon tells what it was turned to, or why it could
/// not be.
pub proof fn law_autostart_logged(e: String, enable: bool, on: String, off: String, failed: String)
    requires
        call_ensures(autostart_line, (true, &Ok(())), on),
        call_ensures(autostart_line, (false, &Ok(())), off),
        call_ensures(autostart_line, (enable, &Err(e)), failed),
    ensures
        on@ == "开机自启已"@ + "开启"@,
        off@ == "开机自启已"@ + "关闭"@,
        failed@ == "开机自启切换失败："@ + e@,
{
}

/// At the start of the program a missing sing-box is told, and that there are no nodes.
pub proof fn law_welcome(binary_exists: bool, node_count: usize, r: Vec<String>)
    requires
        call_ensures(welcome_lines, (binary_exists, node_count), r),
    ensures
        texts(r@).contains("未找到 data/sing-box.exe"@) <==> !binary_exists,
        texts(r@).contains("尚未导入节点，请在控制台粘贴链接并点「应用配置」"@) <==> node_count == 0,
        r@.len() <= 2,
{
    reveal_strlit("未找到 data/sing-box.exe");
    reveal_strlit("尚未导入节点，请在控制台粘贴链接并点「应用配置」");
    let a = "未找到 data/sing-box.exe"@;
    let b = "尚未导入节点，请在控制台粘贴链接并点「应用配置」"@;
    assert(a[0] == '未' && b[0] == '尚');
    let all = texts(r@);
    assert(all.len() == r@.len());
    if !binary_exists {
        assert(all[0] == a);
        if node_count == 0 {
            assert(all[1] == b);
        }
    } else if node_count == 0 {
        assert(all[0] == b);
    }
}

// ---- What is shown each second ----

/// The tray tells whether sing-box runs, the name of the selected node, how traffic is
/// taken over and whether the system proxy is on; and last the speeds, what is sent
/// after the upward mark and what is received after the downward one.
pub proof fn law_tray(s: AppView, running: bool)
    ensures
        ({
            let t = tip_view(s, running);
            &&& running ==> begins(t, "Sing-box ● 运行中"@)
            &&& !running ==> begins(t, "Sing-box ○ 已停止"@)
            &&& 0 <= s.nodes.current < s.nodes.nodes.len() ==> shows(
                t,
                " ["@ + s.nodes.nodes[s.nodes.current].name + "]"@,
            )
            &&& s.nodes.use_tun ==> shows(t, " 模式:虚拟网卡"@)
            &&& !s.nodes.use_tun ==> shows(t, " 模式:系统代理"@)
            &&& s.system_proxy ==> shows(t, " 代理:开"@)
            &&& !s.system_proxy ==> shows(t, " 代理:关"@)
            &&& ends(
                t,
                "\n▲ "@ + bytes_text(s.status.up_speed) + "/s  ▼ "@ + bytes_text(
                    s.status.down_speed,
                ) + "/s"@,
            )
        }),
{
    reveal_strlit("Sing-box ");
    reveal_strlit("● 运行中");
    reveal_strlit("○ 已停止");
    reveal_strlit("Sing-box ● 运行中");
    reveal_strlit("Sing-box ○ 已停止");
    assert("Sing-box "@ + "● 运行中"@ =~= "Sing-box ● 运行中"@);
    assert("Sing-box "@ + "○ 已停止"@ =~= "Sing-box ○ 已停止"@);
    reveal_strlit(" 代理:");
    reveal_strlit("开");
    reveal_strlit("关");
    reveal_strlit(" 代理:开");
    reveal_strlit(" 代理:关");
    assert(" 代理:"@ + "开"@ =~= " 代理:开"@);
    assert(" 代理:"@ + "关"@ =~= " 代理:关"@);
    reveal_strlit("/s");
    reveal_strlit("  ▼ ");
    reveal_strlit("/s  ▼ ");
    assert("/s"@ + "  ▼ "@ =~= "/s  ▼ "@);
    let none = Seq::<char>::empty();
    let t = tip_view(s, running);
    let head = if running {
        "Sing-box ● 运行中"@
    } else {
        "Sing-box ○ 已停止"@
    };
    let node = node_hint(s);
    let way = if s.nodes.use_tun {
        " 模式:虚拟网卡"@
    } else {
        " 模式:系统代理"@
    };
    let proxy = if s.system_proxy {
        " 代理:开"@
    } else {
        " 代理:关"@
    };
    let speeds = "\n▲ "@ + bytes_text(s.status.up_speed) + "/s  ▼ "@ + bytes_text(
        s.status.down_speed,
    ) + "/s"@;
    assert(t =~= head + node + way + proxy + speeds);
    lemma_shows(t, none, head, node + way + proxy + speeds);
    lemma_shows(t, head, node, way + proxy + speeds);
    lemma_shows(t, head + node, way, proxy + speeds);
    lemma_shows(t, head + node + way, proxy, speeds);
    lemma_shows(t, head + node + way + proxy, speeds, none);
}

/// Each label of the console shows what it is for: what is sent goes up and what is
/// received goes down, speeds with their unit and totals without.
pub proof fn law_labels(s: AppState, running: bool, r: Labels)
    requires
        call_ensures(AppState::labels, (&s, running), r),
    ensures
        running ==> r.running@ == "● 运行中"@,
        !running ==> r.running@ == "○ 已停止"@,
        r.up@ == "▲ 上行  "@ + bytes_text(s.status.up_speed) + "/s"@,
        r.down@ == "▼ 下行  "@ + bytes_text(s.status.down_speed) + "/s"@,
        ends(r.up_total@, "上行 "@ + bytes_text(s.status.up_total)),
        ends(r.down_total@, "下行 "@ + bytes_text(s.status.down_total)),
        shows(r.conns@, decimal(s.status.conns as nat)),
        s.latency == 0 ==> ends(r.latency@, "未测试"@),
        s.latency == u64::MAX ==> ends(r.latency@, "不可达"@),
        0 < s.latency < u64::MAX ==> ends(r.latency@, decimal(s.latency as nat) + " ms"@),
        s.system_proxy ==> shows(r.proxy@, "代理：开"@),
        !s.system_proxy ==> shows(r.proxy@, "代理：关"@),
        s.autostart ==> ends(r.proxy@, "自启：开"@),
        !s.autostart ==> ends(r.proxy@, "自启：关"@),
{
    let none = Seq::<char>::empty();
    let up = bytes_text(s.status.up_speed);
    let down = bytes_text(s.status.down_speed);
    assert("▲ 上行  "@ + (up + "/s"@) =~= "▲ 上行  "@ + up + "/s"@);
    assert("▼ 下行  "@ + (down + "/s"@) =~= "▼ 下行  "@ + down + "/s"@);
    reveal_strlit("累计 上行 ");
    reveal_strlit("累计 下行 ");
    reveal_strlit("累计 ");
    reveal_strlit("上行 ");
    reveal_strlit("下行 ");
    assert("累计 上行 "@ =~= "累计 "@ + "上行 "@);
    assert("累计 下行 "@ =~= "累计 "@ + "下行 "@);
    lemma_shows(r.up_total@, "累计 "@, "上行 "@ + bytes_text(s.status.up_total), none);
    lemma_shows(r.down_total@, "累计 "@, "下行 "@ + bytes_text(s.status.down_total), none);
    lemma_shows(r.conns@, "≡ "@, decimal(s.status.conns as nat), " 连接"@);
    lemma_shows(r.latency@, "⏱ "@, last_latency_view(s.latency), none);
    reveal_strlit("🌐 代理：");
    reveal_strlit("🌐 ");
    reveal_strlit("代理：开");
    reveal_strlit("代理：关");
    reveal_strlit("代理：");
    reveal_strlit("  ·  📌 自启：");
    reveal_strlit("  ·  📌 ");
    reveal_strlit("自启：开");
    reveal_strlit("自启：关");
    reveal_strlit("自启：");
    reveal_strlit("开");
    reveal_strlit("关");
    let proxy = if s.system_proxy {
        "代理：开"@
    } else {
        "代理：关"@
    };
    let start = if s.autostart {
        "自启：开"@
    } else {
        "自启：关"@
    };
    assert(r.proxy@ =~= "🌐 "@ + proxy + "  ·  📌 "@ + start);
    lemma_shows(r.proxy@, "🌐 "@, proxy, "  ·  📌 "@ + start);
    lemma_shows(r.proxy@, "🌐 "@ + proxy + "  ·  📌 "@, start, none);
}

// ---- What is asked each second ----

/// The count at an index is the one after that before it, or after 0.
pub open spec fn is_next_count(counts: Seq<(u32, bool)>, i: int) -> bool {
    call_ensures(
        count_second,
        (if i == 0 {
            0u32
        } else {
            counts[i - 1].0
        },),
        counts[i],
    )
}

/// Counting from 0 on, the totals are saved in each thirtieth second and in no other.
pub proof fn law_saved_each_half_minute(counts: Seq<(u32, bool)>, i: int)
    requires
        forall|k: int| 0 <= k < counts.len() ==> #[trigger] is_next_count(counts, k),
        0 <= i < counts.len(),
    ensures
        counts[i].1 <==> (i + 1) % 30 == 0,
        counts[i].0 == (i + 1) % 30,
    decreases i,
{
    assert(is_next_count(counts, i));
    if i > 0 {
        law_saved_each_half_minute(counts, i - 1);
    }
}

} // verus!
