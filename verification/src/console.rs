//! The console and the tray: what they show, and what the program does on their
//! buttons.
use vstd::prelude::*;

use crate::format::{bytes_text, fmt_bytes, fmt_speed};
use crate::nodes::{NodeInfo, NodeView, NodesStore, StoreView};
use crate::ports::{api_port_of, is_next_pair};
use crate::singbox::{selected_name, AppState, AppView, Process, StatusData};
use crate::system::unless_blank;
use crate::text::{
    decimal, has_prefix, join, joined, joined_by, number_in, number_text, parse_number, pieces,
    split, starts_with, texts, trim, trimmed,
};

verus! {

// ---- Links ----

/// A line begins like a share link.
pub open spec fn has_known_scheme(line: Seq<char>) -> bool {
    ||| has_prefix(line, "http://"@)
    ||| has_prefix(line, "https://"@)
    ||| has_prefix(line, "vmess://"@)
    ||| has_prefix(line, "vless://"@)
    ||| has_prefix(line, "ss://"@)
    ||| has_prefix(line, "ssr://"@)
    ||| has_prefix(line, "trojan://"@)
    ||| has_prefix(line, "hysteria://"@)
    ||| has_prefix(line, "hysteria2://"@)
    ||| has_prefix(line, "hy2://"@)
    ||| has_prefix(line, "tuic://"@)
    ||| has_prefix(line, "socks://"@)
    ||| has_prefix(line, "ssh://"@)
}

/// One of some lines begins like a share link.
pub open spec fn has_link_line(lines: Seq<Seq<char>>) -> bool {
    exists|i: int| 0 <= i < lines.len() && has_known_scheme(trimmed(#[trigger] lines[i]))
}

/// The lines that are not blank, without white space at their ends.
pub open spec fn filled_lines(lines: Seq<Seq<char>>) -> Seq<Seq<char>>
    decreases lines.len(),
{
    if lines.len() == 0 {
        Seq::empty()
    } else if trimmed(lines.last()).len() > 0 {
        filled_lines(lines.drop_last()).push(trimmed(lines.last()))
    } else {
        filled_lines(lines.drop_last())
    }
}

/// Whether a line begins like a share link.
fn known_scheme(line: &str) -> (r: bool)
    ensures
        r == has_known_scheme(line@),
{
    starts_with(line, "http://") || starts_with(line, "https://") || starts_with(line, "vmess://")
        || starts_with(line, "vless://") || starts_with(line, "ss://") || starts_with(
        line,
        "ssr://",
    ) || starts_with(line, "trojan://") || starts_with(line, "hysteria://") || starts_with(
        line,
        "hysteria2://",
    ) || starts_with(line, "hy2://") || starts_with(line, "tuic://") || starts_with(
        line,
        "socks://",
    ) || starts_with(line, "ssh://")
}

/// Whether a text, such as that of the clipboard, has a line that begins like a
/// share link.
pub fn looks_like_link(clip: &str) -> (r: bool)
    ensures
        r == has_link_line(pieces(clip@, '\n')),
{
    let lines = split(clip, '\n');
    let ghost all = texts(lines@);
    let mut i: usize = 0;
    while i < lines.len()
        invariant
            i <= lines.len(),
            all == texts(lines@),
            all == pieces(clip@, '\n'),
            forall|j: int| 0 <= j < i ==> !has_known_scheme(trimmed(#[trigger] all[j])),
        decreases lines.len() - i,
    {
        let line = trim(lines[i].as_str());
        assert(all[i as int] == lines[i as int]@);
        if known_scheme(line.as_str()) {
            assert(has_known_scheme(trimmed(all[i as int])));
            return true;
        }
        i = i + 1;
    }
    false
}

/// The links of a text, one on each line.
pub fn links_in(text: &str) -> (r: Vec<String>)
    ensures
        texts(r@) == filled_lines(pieces(text@, '\n')),
{
    let lines = split(text, '\n');
    let ghost all = texts(lines@);
    let mut out: Vec<String> = Vec::new();
    let mut i: usize = 0;
    assert(texts(out@) =~= Seq::empty());
    while i < lines.len()
        invariant
            i <= lines.len(),
            all == texts(lines@),
            all == pieces(text@, '\n'),
            texts(out@) == filled_lines(all.take(i as int)),
        decreases lines.len() - i,
    {
        assert(all.take(i + 1).drop_last() =~= all.take(i as int));
        assert(all.take(i + 1).last() == lines[i as int]@);
        let ghost done = out@;
        match unless_blank(lines[i].as_str()) {
            Some(line) => {
                out.push(line);
                assert(texts(out@) =~= texts(done).push(line@));
            },
            None => {},
        }
        i = i + 1;
    }
    assert(all.take(i as int) =~= all);
    out
}

// ---- The list of nodes ----

/// A latency as the list of nodes shows it.
pub open spec fn latency_mark(latency: u64) -> Seq<char> {
    if latency == 0 {
        Seq::empty()
    } else if latency == u64::MAX {
        " ⏱不可达"@
    } else {
        " ⏱"@ + decimal(latency as nat) + "ms"@
    }
}

/// A line of the list of nodes.
pub open spec fn node_line(s: StoreView, i: int) -> Seq<char> {
    (if i == s.current {
        "▶"@
    } else {
        "  "@
    }) + " "@ + decimal(i as nat) + " "@ + (if s.use_tun {
        "[全应用]"@
    } else {
        "[代理]"@
    }) + "  "@ + s.nodes[i].name + latency_mark(s.nodes[i].latency)
}

/// The list of nodes.
pub open spec fn node_list(s: StoreView) -> Seq<char> {
    if s.nodes.len() == 0 {
        "（暂无节点）"@
    } else {
        joined_by(Seq::new(s.nodes.len(), |i: int| node_line(s, i)), "\r\n"@)
    }
}

/// The list of nodes.
pub fn node_list_text_from(nodes: &NodesStore) -> (r: String)
    ensures
        r@ == node_list(nodes@),
{
    let ghost all = Seq::new(nodes@.nodes.len(), |i: int| node_line(nodes@, i));
    let mut lines: Vec<String> = Vec::new();
    let mut i: usize = 0;
    while i < nodes.nodes.len()
        invariant
            i <= nodes.nodes.len(),
            all == Seq::new(nodes@.nodes.len(), |i: int| node_line(nodes@, i)),
            lines.len() == i,
            forall|j: int| 0 <= j < i ==> (#[trigger] lines[j])@ == all[j],
        decreases nodes.nodes.len() - i,
    {
        let node: &NodeInfo = &nodes.nodes[i];
        assert(nodes@.nodes[i as int] == node@);
        let mut line = (if i == nodes.current {
            "▶"
        } else {
            "  "
        }).to_owned();
        line.append(" ");
        line.append(number_text(i as u64).as_str());
        line.append(" ");
        line.append(
            if nodes.use_tun {
                "[全应用]"
            } else {
                "[代理]"
            },
        );
        line.append("  ");
        line.append(node.name.as_str());
        if node.latency == 0 {
            assert(line@ + latency_mark(0) =~= line@);
        } else if node.latency == u64::MAX {
            line.append(" ⏱不可达");
        } else {
            let mark = joined(" ⏱", number_text(node.latency).as_str());
            line.append(joined(mark.as_str(), "ms").as_str());
        }
        lines.push(line);
        i = i + 1;
    }
    if lines.len() == 0 {
        "（暂无节点）".to_owned()
    } else {
        assert(texts(lines@) =~= all);
        join(&lines, "\r\n")
    }
}

/// The number that was typed for a node.
pub fn parse_index(input: &str) -> (r: Option<usize>)
    ensures
        match r {
            Some(i) => number_in(trimmed(input@)) == Some(i as nat),
            None => number_in(trimmed(input@)) matches Some(n) ==> n > usize::MAX,
        },
{
    let text = trim(input);
    match parse_number(text.as_str(), usize::MAX as u64) {
        Some(n) => Some(n as usize),
        None => None,
    }
}

// ---- Latencies ----

/// The result of a measurement.
pub open spec fn latency_view(latency: Option<u64>) -> Seq<char> {
    match latency {
        Some(ms) => if ms == 0 {
            "<1 ms"@
        } else {
            decimal(ms as nat) + " ms"@
        },
        None => "不可达"@,
    }
}

/// What a measurement is of.
pub open spec fn scope_view(running: bool) -> Seq<char> {
    if running {
        "（直连节点）"@
    } else {
        "（直连节点·未启动）"@
    }
}

/// A latency as it is kept: one that could not be measured is the largest number.
pub open spec fn kept_latency(latency: Option<u64>) -> u64 {
    match latency {
        Some(ms) => ms,
        None => u64::MAX,
    }
}

/// The state with the latency of the selected node noted.
pub open spec fn with_latency(s: AppView, latency: Option<u64>) -> AppView {
    AppView {
        latency: kept_latency(latency),
        nodes: match s.nodes.selected() {
            Some(n) => StoreView {
                nodes: s.nodes.nodes.update(
                    s.nodes.current,
                    NodeView { latency: kept_latency(latency), ..n },
                ),
                ..s.nodes
            },
            None => s.nodes,
        },
        ..s
    }
}

/// The result of a measurement.
pub fn latency_text(latency: Option<u64>) -> (r: String)
    ensures
        r@ == latency_view(latency),
{
    match latency {
        Some(ms) => if ms == 0 {
            "<1 ms".to_owned()
        } else {
            joined(number_text(ms).as_str(), " ms")
        },
        None => "不可达".to_owned(),
    }
}

/// What a measurement is of.
fn scope_text(running: bool) -> (r: &'static str)
    ensures
        r@ == scope_view(running),
{
    if running {
        "（直连节点）"
    } else {
        "（直连节点·未启动）"
    }
}

/// What is logged before the latency of a node is measured.
pub fn test_line(name: &str, running: bool) -> (r: String)
    ensures
        r@ == "测延迟 "@ + name@ + " "@ + scope_view(running) + "…"@,
{
    let mut line = joined("测延迟 ", name);
    line.append(" ");
    line.append(scope_text(running));
    line.append("…");
    line
}

/// What is logged after the latency of a node was measured.
pub fn tested_line(name: &str, latency: Option<u64>, running: bool) -> (r: String)
    ensures
        r@ == "「"@ + name@ + (match latency {
            Some(_) => "」延迟："@ + latency_view(latency) + " "@ + scope_view(running),
            None => "」延迟测试失败（节点不可达）"@,
        }),
{
    let line = joined("「", name);
    match latency {
        Some(_) => {
            let mut result = joined("」延迟：", latency_text(latency).as_str());
            result.append(" ");
            result.append(scope_text(running));
            joined(line.as_str(), result.as_str())
        },
        None => joined(line.as_str(), "」延迟测试失败（节点不可达）"),
    }
}

/// What is logged of one of many nodes after its latency was measured.
pub fn tested_one_line(name: &str, latency: Option<u64>) -> (r: String)
    ensures
        r@ == "「"@ + name@ + "」延迟："@ + latency_view(latency),
{
    let mut line = joined("「", name);
    line.append("」延迟：");
    line.append(latency_text(latency).as_str());
    line
}

/// What is logged before the latencies of all nodes are measured.
pub fn test_all_line(count: usize) -> (r: String)
    ensures
        r@ == (if count == 0 {
            "（暂无节点，无法测速）"@
        } else {
            "⚡ 开始测速：共 "@ + decimal(count as nat) + " 个节点（未启动亦可比线）…"@
        }),
{
    if count == 0 {
        "（暂无节点，无法测速）".to_owned()
    } else {
        let line = joined("⚡ 开始测速：共 ", number_text(count as u64).as_str());
        joined(line.as_str(), " 个节点（未启动亦可比线）…")
    }
}

/// One node comes before another: its latency is less, or the same and its number
/// is less.
pub open spec fn comes_before(a: (usize, u64), b: (usize, u64)) -> bool {
    a.1 < b.1 || (a.1 == b.1 && a.0 < b.0)
}

/// `ranked` are the nodes that were reached, each with its latency, the fastest
/// first.
pub open spec fn is_ranking(results: Seq<Option<u64>>, ranked: Seq<(usize, u64)>) -> bool {
    &&& forall|a: int, b: int|
        0 <= a < b < ranked.len() ==> comes_before(#[trigger] ranked[a], #[trigger] ranked[b])
    &&& forall|k: int|
        0 <= k < ranked.len() ==> (#[trigger] ranked[k]).0 < results.len()
            && results[ranked[k].0 as int] == Some(ranked[k].1)
    &&& forall|i: int|
        0 <= i < results.len() && (#[trigger] results[i]) is Some ==> ranked.contains(
            (i as usize, results[i]->0),
        )
}

/// The nodes that were reached, each with its latency, the fastest first.
pub fn rank(results: &Vec<Option<u64>>) -> (r: Vec<(usize, u64)>)
    ensures
        is_ranking(results@, r@),
{
    let mut ranked: Vec<(usize, u64)> = Vec::new();
    let mut i: usize = 0;
    while i < results.len()
        invariant
            i <= results.len(),
            ranked.len() <= i,
            is_ranking(results@.take(i as int), ranked@),
        decreases results.len() - i,
    {
        let ghost seen = results@.take(i as int);
        let ghost more = results@.take(i + 1);
        let ghost before = ranked@;
        assert forall|j: int| 0 <= j < i implies more[j] == #[trigger] seen[j] by {}
        match results[i] {
            Some(ms) => {
                let mut at: usize = ranked.len();
                while at > 0 && ranked[at - 1].1 > ms
                    invariant
                        at <= ranked.len(),
                        forall|k: int| at <= k < ranked.len() ==> (#[trigger] ranked[k]).1 > ms,
                    decreases at,
                {
                    at = at - 1;
                }
                ranked.insert(at, (i, ms));
                proof {
                    let item = (i, ms);
                    assert(ranked@ =~= before.insert(at as int, item));
                    assert forall|k: int| 0 <= k < at implies (#[trigger] before[k]).1 <= ms by {
                        if k < at - 1 {
                            assert(comes_before(before[k], before[at - 1]));
                        }
                    }
                    assert forall|a: int, b: int| 0 <= a < b < ranked.len() implies comes_before(
                        #[trigger] ranked[a],
                        #[trigger] ranked[b],
                    ) by {
                        let old_a = if a < at { a } else { a - 1 };
                        let old_b = if b < at { b } else { b - 1 };
                        if a != at && b != at {
                            assert(comes_before(before[old_a], before[old_b]));
                        } else if a == at {
                            assert(before[old_b] == ranked[b]);
                        } else {
                            assert(before[old_a] == ranked[a]);
                            assert(before[old_a].0 < seen.len());
                        }
                    }
                    assert forall|k: int| 0 <= k < ranked.len() implies (#[trigger] ranked[k]).0
                        < more.len() && more[ranked[k].0 as int] == Some(ranked[k].1) by {
                        if k != at {
                            let old_k = if k < at { k } else { k - 1 };
                            assert(before[old_k] == ranked[k]);
                            assert(seen[before[old_k].0 as int] == Some(before[old_k].1));
                        }
                    }
                    assert forall|j: int|
                        0 <= j < more.len() && (#[trigger] more[j]) is Some implies ranked@.contains(
                        (j as usize, more[j]->0),
                    ) by {
                        if j == i {
                            assert(ranked[at as int] == (j as usize, more[j]->0));
                        } else {
                            assert(seen[j] is Some);
                            let k = choose|k: int|
                                0 <= k < before.len() && before[k] == (j as usize, seen[j]->0);
                            assert(before.contains((j as usize, seen[j]->0)));
                            let new_k = if k < at { k } else { k + 1 };
                            assert(ranked[new_k] == before[k]);
                        }
                    }
                }
            },
            None => {
                proof {
                    assert forall|k: int| 0 <= k < ranked.len() implies (#[trigger] ranked[k]).0
                        < more.len() && more[ranked[k].0 as int] == Some(ranked[k].1) by {
                        assert(seen[ranked[k].0 as int] == Some(ranked[k].1));
                    }
                    assert forall|j: int|
                        0 <= j < more.len() && (#[trigger] more[j]) is Some implies ranked@.contains(
                        (j as usize, more[j]->0),
                    ) by {
                        assert(seen[j] is Some);
                    }
                }
            },
        }
        i = i + 1;
    }
    assert(results@.take(i as int) =~= results@);
    ranked
}

/// How many nodes a summary names.
pub const NAMED_NODES: usize = 10;

/// The name of the node with a number, empty where there is none.
pub open spec fn name_at(s: StoreView, i: int) -> Seq<char> {
    if 0 <= i < s.nodes.len() {
        s.nodes[i].name
    } else {
        ""@
    }
}

/// The first nodes of a ranking in words.
pub open spec fn ranked_names(s: StoreView, ranked: Seq<(usize, u64)>) -> Seq<char>
    decreases ranked.len(),
{
    if ranked.len() == 0 {
        Seq::empty()
    } else {
        ranked_names(s, ranked.drop_last()) + " "@ + name_at(s, ranked.last().0 as int) + ":"@
            + decimal(ranked.last().1 as nat) + "ms"@
    }
}

/// The summary of a ranking.
pub open spec fn summary_view(s: StoreView, ranked: Seq<(usize, u64)>) -> Seq<char> {
    if ranked.len() == 0 {
        "测速完成：所有节点均不可达"@
    } else if ranked.len() <= NAMED_NODES {
        "测速完成（由快到慢）："@ + ranked_names(s, ranked)
    } else {
        "测速完成（由快到慢）："@ + ranked_names(s, ranked.take(NAMED_NODES as int)) + " …"@
    }
}

/// The name of the node with a number, empty where there is none.
pub fn node_name_at(nodes: &NodesStore, i: usize) -> (r: &str)
    ensures
        r@ == name_at(nodes@, i as int),
{
    if i < nodes.nodes.len() {
        nodes.nodes[i].name.as_str()
    } else {
        ""
    }
}

/// What is logged after the latencies of all nodes were measured.
pub fn summary_line(nodes: &NodesStore, ranked: &Vec<(usize, u64)>) -> (r: String)
    ensures
        r@ == summary_view(nodes@, ranked@),
{
    if ranked.len() == 0 {
        return "测速完成：所有节点均不可达".to_owned();
    }
    let to: usize = if ranked.len() > NAMED_NODES {
        NAMED_NODES
    } else {
        ranked.len()
    };
    let mut names = String::new();
    let mut i: usize = 0;
    assert(names@ =~= Seq::empty());
    while i < to
        invariant
            i <= to <= ranked.len(),
            names@ == ranked_names(nodes@, ranked@.take(i as int)),
        decreases to - i,
    {
        assert(ranked@.take(i + 1).drop_last() =~= ranked@.take(i as int));
        assert(ranked@.take(i + 1).last() == ranked[i as int]);
        names.append(" ");
        names.append(node_name_at(nodes, ranked[i].0));
        names.append(":");
        names.append(number_text(ranked[i].1).as_str());
        names.append("ms");
        i = i + 1;
    }
    let mut line = joined("测速完成（由快到慢）：", names.as_str());
    if ranked.len() > NAMED_NODES {
        line.append(" …");
    } else {
        assert(ranked@.take(to as int) =~= ranked@);
    }
    line
}

impl AppState {
    /// Notes the latency of the selected node.
    pub fn note_latency(&mut self, latency: Option<u64>)
        ensures
            final(self)@ == with_latency(old(self)@, latency),
    {
        let kept: u64 = match latency {
            Some(ms) => ms,
            None => u64::MAX,
        };
        self.latency = kept;
        match self.nodes.current_node_mut() {
            Some(n) => {
                n.latency = kept;
            },
            None => {},
        }
    }

    /// The name of the selected node, empty where there is none.
    pub fn current_name(&self) -> (r: String)
        ensures
            r@ == selected_name(self@),
    {
        match self.nodes.current_node() {
            Some(n) => n.name.clone(),
            None => "".to_owned(),
        }
    }
}

// ---- The two ways of taking over traffic ----

/// The boxes for the virtual network card and for the system proxy.
#[derive(Debug, Clone, Copy, PartialEq, Eq)]
pub struct Boxes {
    pub tun: bool,
    pub proxy: bool,
}

/// Of the two boxes exactly one is ticked.
pub open spec fn is_exclusive(b: Boxes) -> bool {
    b.tun != b.proxy
}

/// The boxes for a setting.
pub fn boxes_for(use_tun: bool) -> (r: Boxes)
    ensures
        r.tun == use_tun,
        is_exclusive(r),
{
    Boxes { tun: use_tun, proxy: !use_tun }
}

/// The boxes after that for the virtual network card was ticked or not.
pub fn on_tun_changed(checked: bool) -> (r: Boxes)
    ensures
        r.tun == checked,
        is_exclusive(r),
{
    boxes_for(checked)
}

/// The boxes after that for the system proxy was ticked or not.
pub fn on_proxy_changed(checked: bool) -> (r: Boxes)
    ensures
        r.proxy == checked,
        is_exclusive(r),
{
    boxes_for(!checked)
}

/// What the system proxy is to be set to: off with the virtual network card and on
/// without it, while sing-box runs.
pub open spec fn proxy_wanted(tun: bool, running: bool) -> Option<bool> {
    if running {
        Some(!tun)
    } else {
        None
    }
}

/// What the system proxy is to be set to, if it is to be set.
pub fn wanted_proxy(tun: bool, running: bool) -> (r: Option<bool>)
    ensures
        r == proxy_wanted(tun, running),
{
    if running {
        Some(!tun)
    } else {
        None
    }
}

/// What is logged of turning the system proxy on.
pub open spec fn proxy_view(done: Seq<char>, port: u16, outcome: Result<(), String>) -> Seq<char> {
    match outcome {
        Ok(_) => done + "（127.0.0.1:"@ + decimal(port as nat) + "）"@,
        Err(e) => "系统代理开启失败："@ + e@,
    }
}

/// What is logged of turning the system proxy on.
fn proxy_line(done: &str, port: u16, outcome: &Result<(), String>) -> (r: String)
    ensures
        r@ == proxy_view(done@, port, *outcome),
{
    match outcome {
        Ok(_) => {
            let mut line = joined(done, "（127.0.0.1:");
            line.append(number_text(port as u64).as_str());
            line.append("）");
            line
        },
        Err(e) => joined("系统代理开启失败：", e.as_str()),
    }
}

/// What is logged of a choice between the two ways, given how setting the system
/// proxy went.
pub open spec fn mode_view(
    tun: bool,
    running: bool,
    port: u16,
    outcome: Result<(), String>,
) -> Seq<Seq<char>> {
    if tun {
        seq!["已应用：虚拟网卡（接管所有应用）模式"@]
    } else {
        seq![
            if running {
                proxy_view("系统代理已开启"@, port, outcome)
            } else {
                "⚠ 已设为系统代理模式，请先「启动」sing-box，代理才会生效"@
            },
            "已应用：系统代理 模式"@,
        ]
    }
}

/// What is logged of a choice between the two ways, given how setting the system
/// proxy went.
pub fn mode_lines(tun: bool, running: bool, port: u16, outcome: &Result<(), String>) -> (r: Vec<
    String,
>)
    ensures
        texts(r@) == mode_view(tun, running, port, *outcome),
{
    let mut lines: Vec<String> = Vec::new();
    if tun {
        lines.push("已应用：虚拟网卡（接管所有应用）模式".to_owned());
    } else {
        lines.push(
            if running {
                proxy_line("系统代理已开启", port, outcome)
            } else {
                "⚠ 已设为系统代理模式，请先「启动」sing-box，代理才会生效".to_owned()
            },
        );
        lines.push("已应用：系统代理 模式".to_owned());
    }
    assert(texts(lines@) =~= mode_view(tun, running, port, *outcome));
    lines
}

/// What is logged of the system proxy after a start, if it was turned on.
pub fn proxy_line_after_start(tun: bool, port: u16, outcome: &Result<(), String>) -> (r: Option<
    String,
>)
    ensures
        match r {
            Some(line) => !tun && line@ == proxy_view("已自动开启系统代理"@, port, *outcome),
            None => tun,
        },
{
    if tun {
        None
    } else {
        Some(proxy_line("已自动开启系统代理", port, outcome))
    }
}

/// Whether sing-box is to be started again so that a configuration that was written
/// takes effect: if it runs.
pub fn should_reload(written: bool, process: Process) -> (r: bool)
    ensures
        r == (written && process is Alive),
{
    written && AppState::is_running(process)
}

// ---- Importing ----

/// How many of some results are successes.
pub open spec fn successes(outcomes: Seq<Result<(), String>>) -> nat
    decreases outcomes.len(),
{
    if outcomes.len() == 0 {
        0
    } else {
        successes(outcomes.drop_last()) + (if outcomes.last() is Ok {
            1nat
        } else {
            0nat
        })
    }
}

/// How importing goes on.
#[derive(Debug, PartialEq, Eq)]
pub enum Import {
    /// The node for the link with this index is to be added.
    Add(usize),
    /// Importing is over with nothing added, for this reason.
    Failed(String),
    /// Importing is over with so many nodes added.
    Done(usize),
}

/// How importing goes on, as mathematical values.
pub enum ImportView {
    Add(int),
    Failed(Seq<char>),
    Done(nat),
}

impl View for Import {
    type V = ImportView;

    open spec fn view(&self) -> ImportView {
        match *self {
            Import::Add(i) => ImportView::Add(i as int),
            Import::Failed(m) => ImportView::Failed(m@),
            Import::Done(n) => ImportView::Done(n as nat),
        }
    }
}

/// How importing `count` links goes on after some results: the links are taken in
/// their order, a first one that cannot be added ends it, and later ones that
/// cannot are passed over.
pub open spec fn import_after(count: nat, outcomes: Seq<Result<(), String>>) -> ImportView {
    if outcomes.len() > 0 && outcomes[0] is Err {
        ImportView::Failed("导入失败："@ + outcomes[0]->Err_0@)
    } else if outcomes.len() < count {
        ImportView::Add(outcomes.len() as int)
    } else {
        ImportView::Done(successes(outcomes))
    }
}

/// Tells how importing `count` links goes on, given the results of adding the nodes
/// for the first of them.
pub fn next_import(count: usize, outcomes: &Vec<Result<(), String>>) -> (r: Import)
    ensures
        r@ == import_after(count as nat, outcomes@),
{
    if outcomes.len() > 0 {
        match &outcomes[0] {
            Ok(_) => {},
            Err(e) => {
                return Import::Failed(joined("导入失败：", e.as_str()));
            },
        }
    }
    if outcomes.len() < count {
        return Import::Add(outcomes.len());
    }
    let mut n: usize = 0;
    let mut i: usize = 0;
    while i < outcomes.len()
        invariant
            n <= i <= outcomes.len(),
            n == successes(outcomes@.take(i as int)),
        decreases outcomes.len() - i,
    {
        assert(outcomes@.take(i + 1).drop_last() =~= outcomes@.take(i as int));
        match &outcomes[i] {
            Ok(_) => {
                n = n + 1;
            },
            Err(_) => {},
        }
        i = i + 1;
    }
    assert(outcomes@.take(i as int) =~= outcomes@);
    Import::Done(n)
}

/// What is logged after the last of some results of adding nodes: that there is a
/// configuration, once the first node was added.
pub fn config_line(outcomes: &Vec<Result<(), String>>) -> (r: Option<String>)
    ensures
        match r {
            Some(line) => outcomes.len() == 1 && outcomes[0] is Ok && line@ == "已生成 config.json"@,
            None => outcomes.len() != 1 || outcomes[0] is Err,
        },
{
    if outcomes.len() == 1 {
        match &outcomes[0] {
            Ok(_) => Some("已生成 config.json".to_owned()),
            Err(_) => None,
        }
    } else {
        None
    }
}

/// What is logged after nodes were added.
pub fn import_line(count: usize) -> (r: String)
    ensures
        r@ == "批量导入 "@ + decimal(count as nat) + " 个节点"@,
{
    let line = joined("批量导入 ", number_text(count as u64).as_str());
    joined(line.as_str(), " 个节点")
}

/// What is shown after everything was applied. `imported` is how many nodes were
/// added, if there were links.
pub fn applied_message(imported: Option<usize>, use_tun: bool) -> (r: String)
    ensures
        r@ == (match imported {
            Some(n) => "已导入 "@ + decimal(n as nat) + " 个节点，"@,
            None => Seq::empty(),
        }) + "已应用配置"@ + (if use_tun {
            Seq::empty()
        } else {
            "（系统代理模式）"@
        }),
{
    let mut message = String::new();
    assert(message@ =~= Seq::empty());
    match imported {
        Some(n) => {
            message.append("已导入 ");
            message.append(number_text(n as u64).as_str());
            message.append(" 个节点，");
            assert(message@ =~= "已导入 "@ + decimal(n as nat) + " 个节点，"@);
        },
        None => {},
    }
    message.append("已应用配置");
    if !use_tun {
        message.append("（系统代理模式）");
    } else {
        assert(message@ + Seq::<char>::empty() =~= message@);
    }
    message
}

// ---- Starting and stopping ----

/// The port of the control interface that sing-box has by default.
pub const DEFAULT_API_PORT: u16 = 9090;

/// What to show and what to log.
#[derive(Debug, PartialEq, Eq)]
pub struct Notice {
    pub caption: String,
    pub content: String,
    pub log: String,
}

/// An offer to use other ports: what to ask, and what to log for either answer.
#[derive(Debug, PartialEq, Eq)]
pub struct PortOffer {
    pub port: u16,
    pub api: u16,
    pub caption: String,
    pub content: String,
    pub accepted: String,
    pub declined: String,
}

/// What to do on the button that starts sing-box.
#[derive(Debug, PartialEq, Eq)]
pub enum StartPlan {
    /// The ports are free: start.
    Start,
    /// Another sing-box seems to run: say so.
    AlreadyRunning(Notice),
    /// A port is taken: offer others.
    Offer(PortOffer),
}

/// `what` says which of the two ports was taken.
pub open spec fn is_conflict<F: Fn(u16) -> bool>(in_use: F, port: u16, what: Seq<char>) -> bool {
    ||| call_ensures(in_use, (port,), true) && what == decimal(port as nat) + "（代理）"@
    ||| call_ensures(in_use, (port,), false) && call_ensures(in_use, (api_port_of(port),), true)
        && what == decimal(api_port_of(port) as nat) + "（API）"@
}

/// An offer of ports in place of those that were taken.
pub open spec fn is_offer(offer: PortOffer, what: Seq<char>) -> bool {
    &&& offer.api == api_port_of(offer.port)
    &&& offer.caption@ == "端口被占用"@
    &&& offer.content@ == "端口 "@ + what
        + " 已被其他程序占用，\n无法在该端口启动 sing-box。\n\n是否改用 代理端口 "@ + decimal(
        offer.port as nat,
    ) + " / API 端口 "@ + decimal(offer.api as nat)
        + " 启动？\n\n（建议点「是」改端口；若想保留原端口，请先关闭占用程序后重试）"@
    &&& offer.accepted@ == "端口冲突，已改用 代理 "@ + decimal(offer.port as nat) + " / API "@
        + decimal(offer.api as nat)
    &&& offer.declined@ == "端口 "@ + what
        + " 被占用，已取消启动。请先关闭占用该端口的程序（如 box 服务）"@
}

/// A start on a port can be planned: there is a port above it to offer, or none has
/// to be offered.
pub open spec fn can_plan<F: Fn(u16) -> bool>(in_use: F, port: u16) -> bool {
    ||| port < u16::MAX
    ||| forall|taken: bool| call_ensures(in_use, (port,), taken) ==> !taken
    ||| forall|taken: bool| call_ensures(in_use, (DEFAULT_API_PORT,), taken) ==> taken
}

/// The notice that another sing-box seems to run.
pub open spec fn is_running_notice(notice: Notice) -> bool {
    &&& notice.caption@ == "已有 sing-box 在运行"@
    &&& notice.content@
        == "检测到 9090 端口已被其他程序占用，很可能已有 sing-box 实例正在运行。\n\n无需重复启动；如希望由本程序接管，请先停止已有的 sing-box 实例，再点击启动。"@
    &&& notice.log@ == "⚠ 检测到 9090 被占用，可能已有 sing-box 在运行，未启动"@
}

/// Which of the two ports is taken, if one is.
fn find_conflict<F: Fn(u16) -> bool>(port: u16, in_use: &F) -> (r: Option<String>)
    requires
        call_requires(*in_use, (port,)),
        call_requires(*in_use, (api_port_of(port),)),
    ensures
        match r {
            Some(what) => is_conflict(*in_use, port, what@),
            None => call_ensures(*in_use, (port,), false) && call_ensures(
                *in_use,
                (api_port_of(port),),
                false,
            ),
        },
{
    let api: u16 = AppState::api_port_for(port);
    if in_use(port) {
        Some(joined(number_text(port as u64).as_str(), "（代理）"))
    } else if in_use(api) {
        Some(joined(number_text(api as u64).as_str(), "（API）"))
    } else {
        None
    }
}

/// Offers a port, and the one of the control interface that goes with it.
fn make_offer(port: u16, what: &str) -> (r: PortOffer)
    ensures
        r.port == port,
        is_offer(r, what@),
{
    let api: u16 = AppState::api_port_for(port);
    let mut content = joined("端口 ", what);
    content.append(" 已被其他程序占用，\n无法在该端口启动 sing-box。\n\n是否改用 代理端口 ");
    content.append(number_text(port as u64).as_str());
    content.append(" / API 端口 ");
    content.append(number_text(api as u64).as_str());
    content.append(
        " 启动？\n\n（建议点「是」改端口；若想保留原端口，请先关闭占用程序后重试）",
    );
    let mut accepted = joined("端口冲突，已改用 代理 ", number_text(port as u64).as_str());
    accepted.append(" / API ");
    accepted.append(number_text(api as u64).as_str());
    let mut declined = joined("端口 ", what);
    declined.append(" 被占用，已取消启动。请先关闭占用该端口的程序（如 box 服务）");
    PortOffer { port, api, caption: "端口被占用".to_owned(), content, accepted, declined }
}

/// Plans a start on a port. `in_use` tries whether a port is taken.
pub fn plan_start<F: Fn(u16) -> bool>(port: u16, in_use: F) -> (r: StartPlan)
    requires
        can_plan(in_use, port),
        forall|p: u16|
            p >= port || p == DEFAULT_API_PORT ==> #[trigger] call_requires(in_use, (p,)),
    ensures
        match r {
            StartPlan::Start => call_ensures(in_use, (port,), false) && call_ensures(
                in_use,
                (api_port_of(port),),
                false,
            ),
            StartPlan::AlreadyRunning(notice) => {
                &&& exists|what: Seq<char>| is_conflict(in_use, port, what)
                &&& call_ensures(in_use, (DEFAULT_API_PORT,), true)
                &&& is_running_notice(notice)
            },
            StartPlan::Offer(offer) => {
                &&& call_ensures(in_use, (DEFAULT_API_PORT,), false)
                &&& is_next_pair(in_use, port, offer.port)
                &&& exists|what: Seq<char>|
                    is_conflict(in_use, port, what) && #[trigger] is_offer(offer, what)
            },
        },
{
    match find_conflict(port, &in_use) {
        None => StartPlan::Start,
        Some(what) => {
            assert(is_conflict(in_use, port, what@));
            if in_use(DEFAULT_API_PORT) {
                StartPlan::AlreadyRunning(
                    Notice {
                        caption: "已有 sing-box 在运行".to_owned(),
                        content:
                            "检测到 9090 端口已被其他程序占用，很可能已有 sing-box 实例正在运行。\n\n无需重复启动；如希望由本程序接管，请先停止已有的 sing-box 实例，再点击启动。".to_owned(),
                        log: "⚠ 检测到 9090 被占用，可能已有 sing-box 在运行，未启动".to_owned(),
                    },
                )
            } else {
                let new_port: u16 = AppState::next_free_pair(port, &in_use);
                StartPlan::Offer(make_offer(new_port, what.as_str()))
            }
        },
    }
}

/// What is logged of a start.
pub fn started_line(outcome: &Result<(), String>) -> (r: String)
    ensures
        r@ == (match *outcome {
            Ok(_) => "已启动 sing-box"@,
            Err(e) => "启动失败："@ + e@,
        }),
{
    match outcome {
        Ok(_) => "已启动 sing-box".to_owned(),
        Err(e) => joined("启动失败：", e.as_str()),
    }
}

/// What is logged of a stop. `with_proxy` tells whether the system proxy was turned
/// off with it.
pub fn stopped_line(with_proxy: bool) -> (r: String)
    ensures
        r@ == (if with_proxy {
            "已停止 sing-box，并同步关闭系统代理"@
        } else {
            "已停止 sing-box"@
        }),
{
    if with_proxy {
        "已停止 sing-box，并同步关闭系统代理".to_owned()
    } else {
        "已停止 sing-box".to_owned()
    }
}

/// What is logged of turning the start at logon on or off.
pub fn autostart_line(enable: bool, outcome: &Result<(), String>) -> (r: String)
    ensures
        r@ == (match *outcome {
            Ok(_) => "开机自启已"@ + (if enable {
                "开启"@
            } else {
                "关闭"@
            }),
            Err(e) => "开机自启切换失败："@ + e@,
        }),
{
    match outcome {
        Ok(_) => joined(
            "开机自启已",
            if enable {
                "开启"
            } else {
                "关闭"
            },
        ),
        Err(e) => joined("开机自启切换失败：", e.as_str()),
    }
}

/// What is logged when the program starts.
pub fn welcome_lines(binary_exists: bool, node_count: usize) -> (r: Vec<String>)
    ensures
        texts(r@) == (if binary_exists {
            Seq::<Seq<char>>::empty()
        } else {
            seq!["未找到 data/sing-box.exe"@]
        }) + (if node_count > 0 {
            Seq::<Seq<char>>::empty()
        } else {
            seq!["尚未导入节点，请在控制台粘贴链接并点「应用配置」"@]
        }),
{
    let mut lines: Vec<String> = Vec::new();
    if !binary_exists {
        lines.push("未找到 data/sing-box.exe".to_owned());
    }
    let ghost first = texts(lines@);
    assert(first =~= (if binary_exists {
        Seq::<Seq<char>>::empty()
    } else {
        seq!["未找到 data/sing-box.exe"@]
    }));
    if node_count == 0 {
        lines.push("尚未导入节点，请在控制台粘贴链接并点「应用配置」".to_owned());
        assert(texts(lines@) =~= first + seq!["尚未导入节点，请在控制台粘贴链接并点「应用配置」"@]);
    } else {
        assert(first + Seq::<Seq<char>>::empty() =~= first);
    }
    lines
}

// ---- What is shown each second ----

/// Whether sing-box runs, in words.
pub open spec fn running_view(running: bool) -> Seq<char> {
    if running {
        "● 运行中"@
    } else {
        "○ 已停止"@
    }
}

/// On or off, in words.
pub open spec fn on_off(on: bool) -> Seq<char> {
    if on {
        "开"@
    } else {
        "关"@
    }
}

/// The name of the selected node in brackets, if there is one.
pub open spec fn node_hint(s: AppView) -> Seq<char> {
    match s.nodes.selected() {
        Some(n) => " ["@ + n.name + "]"@,
        None => Seq::empty(),
    }
}

/// What the tray shows.
pub open spec fn tip_view(s: AppView, running: bool) -> Seq<char> {
    "Sing-box "@ + running_view(running) + node_hint(s) + (if s.nodes.use_tun {
        " 模式:虚拟网卡"@
    } else {
        " 模式:系统代理"@
    }) + " 代理:"@ + on_off(s.system_proxy) + "\n▲ "@ + bytes_text(s.status.up_speed) + "/s"@
        + "  ▼ "@ + bytes_text(s.status.down_speed) + "/s"@
}

/// The last latency in words.
pub open spec fn last_latency_view(latency: u64) -> Seq<char> {
    if latency == 0 {
        "未测试"@
    } else if latency == u64::MAX {
        "不可达"@
    } else {
        decimal(latency as nat) + " ms"@
    }
}

/// What the console shows of sing-box.
#[derive(Debug, PartialEq, Eq)]
pub struct Labels {
    pub running: String,
    pub up: String,
    pub down: String,
    pub up_total: String,
    pub down_total: String,
    pub conns: String,
    pub latency: String,
    pub proxy: String,
}

/// Whether sing-box runs, in words.
fn running_text(running: bool) -> (r: &'static str)
    ensures
        r@ == running_view(running),
{
    if running {
        "● 运行中"
    } else {
        "○ 已停止"
    }
}

/// On or off, in words.
fn on_off_text(on: bool) -> (r: &'static str)
    ensures
        r@ == on_off(on),
{
    if on {
        "开"
    } else {
        "关"
    }
}

impl AppState {
    /// What the tray shows.
    pub fn tray_tip(&self, running: bool) -> (r: String)
        ensures
            r@ == tip_view(self@, running),
    {
        let mut tip = joined("Sing-box ", running_text(running));
        match self.nodes.current_node() {
            Some(n) => {
                let hint = joined(" [", n.name.as_str());
                tip.append(joined(hint.as_str(), "]").as_str());
            },
            None => {
                assert(tip@ + node_hint(self@) =~= tip@);
            },
        }
        tip.append(
            if self.nodes.use_tun {
                " 模式:虚拟网卡"
            } else {
                " 模式:系统代理"
            },
        );
        tip.append(" 代理:");
        tip.append(on_off_text(self.system_proxy));
        tip.append("\n▲ ");
        tip.append(fmt_bytes(self.status.up_speed).as_str());
        tip.append("/s");
        tip.append("  ▼ ");
        tip.append(fmt_bytes(self.status.down_speed).as_str());
        tip.append("/s");
        tip
    }

    /// What the console shows of sing-box.
    pub fn labels(&self, running: bool) -> (r: Labels)
        ensures
            r.running@ == running_view(running),
            r.up@ == "▲ 上行  "@ + (bytes_text(self@.status.up_speed) + "/s"@),
            r.down@ == "▼ 下行  "@ + (bytes_text(self@.status.down_speed) + "/s"@),
            r.up_total@ == "累计 上行 "@ + bytes_text(self@.status.up_total),
            r.down_total@ == "累计 下行 "@ + bytes_text(self@.status.down_total),
            r.conns@ == "≡ "@ + decimal(self@.status.conns as nat) + " 连接"@,
            r.latency@ == "⏱ "@ + last_latency_view(self@.latency),
            r.proxy@ == "🌐 代理："@ + on_off(self@.system_proxy) + "  ·  📌 自启："@ + on_off(
                self@.autostart,
            ),
    {
        let latency = if self.latency == 0 {
            "未测试".to_owned()
        } else if self.latency == u64::MAX {
            "不可达".to_owned()
        } else {
            joined(number_text(self.latency).as_str(), " ms")
        };
        let conns = joined("≡ ", number_text(self.status.conns as u64).as_str());
        let mut proxy = joined("🌐 代理：", on_off_text(self.system_proxy));
        proxy.append("  ·  📌 自启：");
        proxy.append(on_off_text(self.autostart));
        Labels {
            running: running_text(running).to_owned(),
            up: joined("▲ 上行  ", fmt_speed(self.status.up_speed).as_str()),
            down: joined("▼ 下行  ", fmt_speed(self.status.down_speed).as_str()),
            up_total: joined("累计 上行 ", fmt_bytes(self.status.up_total).as_str()),
            down_total: joined("累计 下行 ", fmt_bytes(self.status.down_total).as_str()),
            conns: joined(conns.as_str(), " 连接"),
            latency: joined("⏱ ", latency.as_str()),
            proxy,
        }
    }

    /// The log as the console shows it.
    pub fn log_text(&self) -> (r: String)
        ensures
            r@ == joined_by(self@.logs, "\r\n"@),
    {
        join(&self.logs, "\r\n")
    }
}

// ---- What is asked each second ----

/// After how many seconds the traffic totals are saved.
pub const FLUSH_SECONDS: u32 = 30;

/// The state while sing-box does not run.
pub open spec fn idle(s: AppView) -> AppView {
    AppView { status: StatusData { up_speed: 0, down_speed: 0, conns: 0, ..s.status }, ..s }
}

/// The state once sing-box was asked for its speeds, and for its totals and the
/// number of its connections. What it did not answer stays.
pub open spec fn polled(
    s: AppView,
    traffic: Option<(u64, u64)>,
    conns: Option<(u64, u64, usize)>,
) -> AppView {
    let a = match traffic {
        Some((up, down)) => AppView {
            status: StatusData { up_speed: up, down_speed: down, ..s.status },
            ..s
        },
        None => s,
    };
    match conns {
        Some((up, down, n)) => AppView {
            status: StatusData { up_total: up, down_total: down, conns: n, ..a.status },
            traffic_dirty: true,
            ..a
        },
        None => a,
    }
}

impl AppState {
    /// Notes that sing-box does not run.
    pub fn note_idle(&mut self)
        ensures
            final(self)@ == idle(old(self)@),
    {
        self.status.up_speed = 0;
        self.status.down_speed = 0;
        self.status.conns = 0;
    }

    /// Notes what sing-box answered.
    pub fn note_poll(&mut self, traffic: Option<(u64, u64)>, conns: Option<(u64, u64, usize)>)
        ensures
            final(self)@ == polled(old(self)@, traffic, conns),
    {
        match traffic {
            Some((up, down)) => {
                self.status.up_speed = up;
                self.status.down_speed = down;
            },
            None => {},
        }
        match conns {
            Some((up, down, n)) => {
                self.status.up_total = up;
                self.status.down_total = down;
                self.status.conns = n;
                self.mark_traffic_dirty();
            },
            None => {},
        }
    }
}

/// Counts a second, and tells whether the traffic totals are to be saved.
pub fn count_second(count: u32) -> (r: (u32, bool))
    requires
        count < u32::MAX,
    ensures
        r == (if count + 1 >= FLUSH_SECONDS {
            (0u32, true)
        } else {
            ((count + 1) as u32, false)
        }),
{
    let next: u32 = count + 1;
    if next >= FLUSH_SECONDS {
        (0, true)
    } else {
        (next, false)
    }
}

// ---- Laws ----

/// While sing-box runs, one of the two ways takes over traffic: the system proxy is
/// wanted exactly without the virtual network card.
pub proof fn law_one_way_at_a_time(b: Boxes)
    requires
        is_exclusive(b),
    ensures
        proxy_wanted(b.tun, true) == Some(b.proxy),
        proxy_wanted(b.tun, false) is None,
{
}

/// What sing-box answers never changes the nodes, the log or the settings.
pub proof fn law_polls_keep_the_rest(
    s: AppView,
    traffic: Option<(u64, u64)>,
    conns: Option<(u64, u64, usize)>,
)
    ensures
        polled(s, traffic, conns).nodes == s.nodes,
        polled(s, traffic, conns).logs == s.logs,
        polled(s, traffic, conns).proxy_port == s.proxy_port,
        polled(s, traffic, conns).system_proxy == s.system_proxy,
        polled(s, traffic, conns).watchdog == s.watchdog,
        conns is None ==> polled(s, traffic, conns).traffic_dirty == s.traffic_dirty,
{
}

proof fn lemma_rank_position(a: Seq<(usize, u64)>, b: Seq<(usize, u64)>, k: int)
    requires
        0 <= k < a.len(),
        k < b.len(),
        forall|i: int, j: int|
            0 <= i < j < a.len() ==> comes_before(#[trigger] a[i], #[trigger] a[j]),
        forall|i: int, j: int|
            0 <= i < j < b.len() ==> comes_before(#[trigger] b[i], #[trigger] b[j]),
        forall|i: int| 0 <= i < a.len() ==> b.contains(#[trigger] a[i]),
        forall|i: int| 0 <= i < b.len() ==> a.contains(#[trigger] b[i]),
        forall|i: int| 0 <= i < k ==> a[i] == b[i],
    ensures
        a[k] == b[k],
{
    let i = choose|i: int| 0 <= i < b.len() && b[i] == a[k];
    assert(b.contains(a[k]));
    let j = choose|j: int| 0 <= j < a.len() && a[j] == b[k];
    assert(a.contains(b[k]));
    if i < k {
        assert(a[i] == a[k]);
        assert(comes_before(a[i], a[k]));
    }
    if j < k {
        assert(b[j] == b[k]);
        assert(comes_before(b[j], b[k]));
    }
    if i > k && j > k {
        assert(comes_before(b[k], b[i]));
        assert(comes_before(a[k], a[j]));
    }
}

proof fn lemma_rank_prefix(a: Seq<(usize, u64)>, b: Seq<(usize, u64)>, k: int)
    requires
        0 <= k <= a.len(),
        k <= b.len(),
        forall|i: int, j: int|
            0 <= i < j < a.len() ==> comes_before(#[trigger] a[i], #[trigger] a[j]),
        forall|i: int, j: int|
            0 <= i < j < b.len() ==> comes_before(#[trigger] b[i], #[trigger] b[j]),
        forall|i: int| 0 <= i < a.len() ==> b.contains(#[trigger] a[i]),
        forall|i: int| 0 <= i < b.len() ==> a.contains(#[trigger] b[i]),
    ensures
        forall|i: int| 0 <= i < k ==> a[i] == b[i],
    decreases k,
{
    if k > 0 {
        lemma_rank_prefix(a, b, k - 1);
        lemma_rank_position(a, b, k - 1);
    }
}

/// Importing never asks for a link twice and leaves none out: it asks for each in its
/// turn until all were tried, unless the first could not be added. It is over then,
/// and no count of added nodes is above that of the links that were tried.
pub proof fn law_import(count: nat, outcomes: Seq<Result<(), String>>)
    ensures
        import_after(count, outcomes) matches ImportView::Add(i) ==> i == outcomes.len() && i < count,
        outcomes.len() > 0 && outcomes[0] is Err ==> import_after(count, outcomes) is Failed,
        outcomes.len() == count && (count > 0 ==> outcomes[0] is Ok) ==> import_after(count, outcomes)
            == ImportView::Done(successes(outcomes)),
        successes(outcomes) <= outcomes.len(),
        (forall|i: int| 0 <= i < outcomes.len() ==> (#[trigger] outcomes[i]) is Ok) ==> successes(
            outcomes,
        ) == outcomes.len(),
    decreases outcomes.len(),
{
    if outcomes.len() > 0 {
        let shorter = outcomes.drop_last();
        law_import(count, shorter);
        if forall|i: int| 0 <= i < outcomes.len() ==> (#[trigger] outcomes[i]) is Ok {
            assert forall|i: int| 0 <= i < shorter.len() implies (#[trigger] shorter[i]) is Ok by {
                assert(outcomes[i] is Ok);
            }
            assert(outcomes[outcomes.len() - 1] is Ok);
        }
    }
}

/// There is one ranking of some results only.
pub proof fn law_ranking_unique(
    results: Seq<Option<u64>>,
    a: Seq<(usize, u64)>,
    b: Seq<(usize, u64)>,
)
    requires
        is_ranking(results, a),
        is_ranking(results, b),
    ensures
        a == b,
{
    assert forall|i: int| 0 <= i < a.len() implies b.contains(#[trigger] a[i]) by {
        assert(results[a[i].0 as int] is Some);
    }
    assert forall|i: int| 0 <= i < b.len() implies a.contains(#[trigger] b[i]) by {
        assert(results[b[i].0 as int] is Some);
    }
    let n = if a.len() < b.len() { a.len() } else { b.len() };
    lemma_rank_prefix(a, b, n as int);
    if a.len() > n {
        let j = choose|j: int| 0 <= j < b.len() && b[j] == a[n as int];
        assert(b.contains(a[n as int]));
        assert(comes_before(a[j], a[n as int]));
    }
    if b.len() > n {
        let j = choose|j: int| 0 <= j < a.len() && a[j] == b[n as int];
        assert(a.contains(b[n as int]));
        assert(comes_before(b[j], b[n as int]));
    }
    assert(a =~= b);
}

} // verus!
