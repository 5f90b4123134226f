//! What the operations do to the state of the program, field by field.
use vstd::prelude::*;

use crate::config_gen::configured;
use crate::config_laws::law_listen_port;
use crate::console::{idle, polled, with_latency};
use crate::json::{parsed_json, JsonNumber, JsonView};
use crate::nodes::{
    empty_store, is_saved_form, loaded, mode_of, node_name, saved_nodes_view, SavedNodes, StoreView,
};
use crate::ports::{api_port_of, loaded_port};
use crate::singbox::{
    first_state, selected_name, settings_for, start_obstacle, started, stopped, with_mode,
    with_nodes, with_tun, AppView, Process, Startup,
};
use crate::system::{autostart_changes, is_own_proxy, own_address, proxy_changes, ChangeView};
use crate::template_laws::is_local_address;
use crate::text::{
    ascii_lower, decimal, equal_ignoring_case, is_digit, law_decimal_reads_back,
    law_decimals_differ, lemma_decimal_value, owned_view,
};
use crate::traffic::totals_in;

verus! {

// ---- What sing-box answers ----

/// What sing-box answers takes the place of what was known: its speeds, its totals and
/// the number of its connections, whatever they were before. So noting an answer twice
/// is noting it once. What it did not answer stays, and so does everything else.
pub proof fn law_answers_noted(
    s: AppView,
    traffic: Option<(u64, u64)>,
    conns: Option<(u64, u64, usize)>,
)
    ensures
        ({
            let p = polled(s, traffic, conns);
            &&& traffic matches Some((up, down)) ==> p.status.up_speed == up && p.status.down_speed
                == down
            &&& traffic is None ==> p.status.up_speed == s.status.up_speed && p.status.down_speed
                == s.status.down_speed
            &&& conns matches Some((up, down, n)) ==> p.status.up_total == up
                && p.status.down_total == down && p.status.conns == n && p.traffic_dirty
            &&& conns is None ==> p.status.up_total == s.status.up_total && p.status.down_total
                == s.status.down_total && p.status.conns == s.status.conns && p.traffic_dirty
                == s.traffic_dirty
            &&& p.status.running == s.status.running
            &&& p.elevated == s.elevated
            &&& p.logs == s.logs
            &&& p.log_seq == s.log_seq
            &&& p.nodes == s.nodes
            &&& p.autostart == s.autostart
            &&& p.system_proxy == s.system_proxy
            &&& p.latency == s.latency
            &&& p.proxy_port == s.proxy_port
            &&& p.watchdog == s.watchdog
            &&& polled(p, traffic, conns) == p
        }),
{
}

/// While sing-box does not run there are neither speeds nor connections; the totals
/// and everything else stay.
pub proof fn law_idle(s: AppView)
    ensures
        ({
            let p = idle(s);
            &&& p.status.up_speed == 0
            &&& p.status.down_speed == 0
            &&& p.status.conns == 0
            &&& p.status.up_total == s.status.up_total
            &&& p.status.down_total == s.status.down_total
            &&& p.status.running == s.status.running
            &&& p.elevated == s.elevated
            &&& p.logs == s.logs
            &&& p.log_seq == s.log_seq
            &&& p.nodes == s.nodes
            &&& p.autostart == s.autostart
            &&& p.system_proxy == s.system_proxy
            &&& p.latency == s.latency
            &&& p.proxy_port == s.proxy_port
            &&& p.traffic_dirty == s.traffic_dirty
            &&& p.watchdog == s.watchdog
        }),
{
}

// ---- Starting and stopping ----

/// Once sing-box was started it runs, and all counters of the watchdog are zero; once
/// it was stopped it does not run and has no speeds. Everything else stays.
pub proof fn law_started_and_stopped(s: AppView)
    ensures
        ({
            let a = started(s);
            let b = stopped(s);
            &&& a.status.running
            &&& a.watchdog.failures == 0
            &&& a.watchdog.stable_count == 0
            &&& a.watchdog.retries == 0
            &&& a.watchdog.suspended_until == 0
            &&& !a.watchdog.restarting
            &&& a.status.up_speed == s.status.up_speed
            &&& a.status.down_speed == s.status.down_speed
            &&& a.status.up_total == s.status.up_total
            &&& a.status.down_total == s.status.down_total
            &&& a.status.conns == s.status.conns
            &&& AppView { status: s.status, watchdog: s.watchdog, ..a } == s
            &&& !b.status.running
            &&& b.status.up_speed == 0
            &&& b.status.down_speed == 0
            &&& b.status.up_total == s.status.up_total
            &&& b.status.down_total == s.status.down_total
            &&& b.status.conns == s.status.conns
            &&& AppView { status: s.status, ..b } == s
        }),
{
}

/// sing-box is started exactly if none runs and its program and its configuration are
/// there; else the answer says which of these fails, in this order.
pub proof fn law_start_obstacles(
    process: Process,
    binary_exists: bool,
    config_exists: bool,
    data_dir: Seq<char>,
)
    ensures
        ({
            let why = start_obstacle(process, binary_exists, config_exists, data_dir);
            &&& why is None <==> !(process is Alive) && binary_exists && config_exists
            &&& process is Alive ==> why == Some("sing-box 已在运行中"@)
            &&& !(process is Alive) && !binary_exists ==> why == Some(
                "未找到 "@ + data_dir + "\\sing-box.exe，请把它放进 data 目录"@,
            )
            &&& !(process is Alive) && binary_exists && !config_exists ==> why == Some(
                "尚未生成配置，请先在控制台粘贴节点链接并点「应用配置」"@,
            )
        }),
{
}

// ---- Latencies ----

/// A latency that was measured is noted as it is, and one that could not be as the
/// largest number, which no other is, in the state and at the selected node. No other
/// node, no name and no link changes, nor does anything else.
pub proof fn law_latency_noted(s: AppView, latency: Option<u64>)
    ensures
        ({
            let p = with_latency(s, latency);
            let kept = if latency is Some {
                latency->0
            } else {
                0xffff_ffff_ffff_ffff
            };
            &&& p.latency == kept
            &&& p.nodes.nodes.len() == s.nodes.nodes.len()
            &&& forall|i: int|
                0 <= i < s.nodes.nodes.len() ==> (#[trigger] p.nodes.nodes[i]).name
                    == s.nodes.nodes[i].name && p.nodes.nodes[i].link == s.nodes.nodes[i].link
                    && p.nodes.nodes[i].latency == (if i == s.nodes.current {
                    kept
                } else {
                    s.nodes.nodes[i].latency
                })
            &&& p.nodes.current == s.nodes.current
            &&& p.nodes.use_tun == s.nodes.use_tun
            &&& p.nodes.route_mode == s.nodes.route_mode
            &&& AppView { latency: s.latency, nodes: s.nodes, ..p } == s
        }),
{
}

// ---- Settings ----

/// The configuration of a state is made for its port, with the control interface 7010
/// above it as far as there are ports, for its choice of the virtual network card, and
/// for the global mode exactly if that is its route mode.
pub proof fn law_settings_of_state(s: AppView)
    ensures
        settings_for(s).listen_port == s.proxy_port,
        s.proxy_port <= 58525 ==> settings_for(s).api_port == s.proxy_port + 7010,
        s.proxy_port > 58525 ==> settings_for(s).api_port == 65535,
        settings_for(s).use_tun == s.nodes.use_tun,
        settings_for(s).global <==> s.nodes.route_mode == "global"@,
{
    lemma_two_words();
}

proof fn lemma_two_words()
    ensures
        "global"@ != "rule"@,
{
    reveal_strlit("global");
    reveal_strlit("rule");
    assert("global"@.len() == 6 && "rule"@.len() == 4);
}

/// The port of the control interface is 7010 above the port that it goes with, and
/// the highest port where that would be beyond it.
pub proof fn law_api_port_above(port: u16)
    ensures
        port <= 58525 ==> api_port_of(port) == port + 7010,
        port > 58525 ==> api_port_of(port) == 65535,
        api_port_of(port) >= port,
{
}

/// The route mode is `global` for that text alone, and else `rule`.
pub proof fn law_route_modes(mode: Seq<char>)
    ensures
        mode_of(mode) == "global"@ <==> mode == "global"@,
        mode_of(mode) == "rule"@ <==> mode != "global"@,
{
    lemma_two_words();
}

/// Turning the virtual network card on or off, and choosing the route mode, change
/// that setting alone.
pub proof fn law_settings_change_alone(s: AppView, use_tun: bool, mode: Seq<char>)
    ensures
        with_tun(s, use_tun).nodes.use_tun == use_tun,
        with_tun(s, use_tun).nodes.nodes == s.nodes.nodes,
        with_tun(s, use_tun).nodes.current == s.nodes.current,
        with_tun(s, use_tun).nodes.route_mode == s.nodes.route_mode,
        (AppView { nodes: s.nodes, ..with_tun(s, use_tun) }) == s,
        with_mode(s, mode).nodes.route_mode == "global"@ <==> mode == "global"@,
        with_mode(s, mode).nodes.route_mode == "rule"@ <==> mode != "global"@,
        with_mode(s, mode).nodes.nodes == s.nodes.nodes,
        with_mode(s, mode).nodes.current == s.nodes.current,
        with_mode(s, mode).nodes.use_tun == s.nodes.use_tun,
        (AppView { nodes: s.nodes, ..with_mode(s, mode) }) == s,
{
    lemma_two_words();
}

// ---- The system proxy ----

/// The address of the system proxy is that of this machine with the port of the state,
/// and so states with different ports have different addresses.
pub proof fn law_proxy_address(s: AppView, t: AppView)
    ensures
        is_local_address(own_address(s), s.proxy_port),
        own_address(s) == own_address(t) <==> s.proxy_port == t.proxy_port,
{
    let host = "127.0.0.1:"@;
    law_decimal_reads_back(s.proxy_port as nat);
    lemma_decimal_value(s.proxy_port as nat);
    assert(own_address(s).take(host.len() as int) =~= host);
    assert(own_address(s).skip(host.len() as int) =~= decimal(s.proxy_port as nat));
    if own_address(s) == own_address(t) {
        assert(own_address(t).skip(host.len() as int) =~= decimal(t.proxy_port as nat));
        law_decimals_differ(s.proxy_port as nat, t.proxy_port as nat);
    }
}

/// Programs that use the system proxy reach sing-box: every mixed inbound of the
/// configuration that is made for a state listens on the port in the address that the
/// system proxy of that state has.
pub proof fn law_proxy_reaches_sing_box(
    s: AppView,
    template: JsonView,
    proxy: JsonView,
    inbounds: Seq<JsonView>,
    i: int,
)
    requires
        configured(template, proxy, settings_for(s)).field("inbounds"@) == Some(
            JsonView::Array(inbounds),
        ),
        0 <= i < inbounds.len(),
        inbounds[i].text_field("tag"@) == Some("mixed-in"@),
    ensures
        inbounds[i].field("listen_port"@) matches Some(JsonView::Number(JsonNumber::Unsigned(port)))
            && port <= 65535 && is_local_address(own_address(s), port as u16),
{
    law_listen_port(template, proxy, settings_for(s), inbounds, i);
    law_settings_of_state(s);
    law_proxy_address(s, s);
}

/// Turning the system proxy on says that there is one and then where it is; turning it
/// off says only that there is none, and leaves the address alone.
pub proof fn law_proxy_changes(s: AppView)
    ensures
        ({
            let on = proxy_changes(s, true);
            let off = proxy_changes(s, false);
            &&& on.len() == 2
            &&& on[0] == ChangeView::ProxyEnable(1)
            &&& on[1] matches ChangeView::ProxyServer(address) && is_local_address(
                address,
                s.proxy_port,
            )
            &&& off.len() == 1
            &&& off[0] == ChangeView::ProxyEnable(0)
        }),
{
    law_proxy_address(s, s);
}

/// The system proxy is the program's own exactly if its address is the one that the
/// program would write. So one at another port is not, and neither is one that is not
/// there.
pub proof fn law_own_proxy(s: AppView, t: AppView, server: Option<Seq<char>>)
    ensures
        is_own_proxy(s, server) <==> server == Some(own_address(s)),
        is_own_proxy(s, Some(own_address(t))) <==> s.proxy_port == t.proxy_port,
        !is_own_proxy(s, None),
{
    lemma_own_proxy(s, server);
    lemma_own_proxy(s, Some(own_address(t)));
    law_proxy_address(s, t);
}

proof fn lemma_own_proxy(s: AppView, server: Option<Seq<char>>)
    ensures
        is_own_proxy(s, server) <==> server == Some(own_address(s)),
{
    if server is Some {
        let (a, b) = (server->0, own_address(s));
        lemma_decimal_value(s.proxy_port as nat);
        reveal_strlit("127.0.0.1:");
        let host = "127.0.0.1:"@;
        assert(host.len() == 10);
        assert forall|i: int| 0 <= i < b.len() implies '.' <= #[trigger] b[i] <= ':' by {
            if i < 10 {
                assert(b[i] == host[i]);
            } else {
                assert(b[i] == decimal(s.proxy_port as nat)[i - 10]);
                assert(is_digit(decimal(s.proxy_port as nat)[i - 10]));
            }
        }
        if equal_ignoring_case(a, b) {
            assert forall|i: int| 0 <= i < b.len() implies a[i] == b[i] by {
                assert(ascii_lower(a[i]) == ascii_lower(b[i]));
                assert('.' <= b[i] <= ':');
            }
            assert(a =~= b);
        }
    }
}

/// The start at logon is one entry: the program, or nothing where it is turned off.
pub proof fn law_autostart_changes(exe: Seq<char>)
    ensures
        autostart_changes(true, exe).len() == 1,
        autostart_changes(true, exe)[0] == ChangeView::RunEntry(Some(exe)),
        autostart_changes(false, exe).len() == 1,
        autostart_changes(false, exe)[0] == ChangeView::RunEntry(None),
{
}

// ---- Nodes ----

/// Loading gives each saved node with its name and its link and no latency, in their
/// order, the selected index as far as there is such a node and else the last, and the
/// settings as they were saved; where the file lacks them, the virtual network card is
/// on and the mode is `rule`.
pub proof fn law_loaded(saved: SavedNodes)
    ensures
        ({
            let s = loaded(saved);
            &&& s.nodes.len() == saved.nodes@.len()
            &&& forall|i: int|
                0 <= i < s.nodes.len() ==> (#[trigger] s.nodes[i]).name == saved.nodes@[i].name@
                    && s.nodes[i].link == saved.nodes@[i].link@ && s.nodes[i].latency == 0
            &&& saved.current < saved.nodes@.len() ==> s.current == saved.current
            &&& saved.current >= saved.nodes@.len() > 0 ==> s.current == saved.nodes@.len() - 1
            &&& saved.nodes@.len() == 0 ==> s.current == 0
            &&& saved.use_tun matches Some(b) ==> s.use_tun == b
            &&& saved.use_tun is None ==> s.use_tun
            &&& saved.route_mode matches Some(m) ==> s.route_mode == m@
            &&& saved.route_mode is None ==> s.route_mode == "rule"@
        }),
{
}

/// Saving keeps the name and the link of each node, in their order, the selected index
/// if there is such a node and else 0, and both settings.
pub proof fn law_saved(s: StoreView, saved: SavedNodes)
    requires
        is_saved_form(s, saved),
    ensures
        saved.nodes@.len() == s.nodes.len(),
        forall|i: int|
            0 <= i < s.nodes.len() ==> (#[trigger] saved.nodes@[i]).name@ == s.nodes[i].name
                && saved.nodes@[i].link@ == s.nodes[i].link,
        0 <= s.current < s.nodes.len() ==> saved.current == s.current,
        s.current >= s.nodes.len() ==> saved.current == 0,
        saved.use_tun == Some(s.use_tun),
        saved.route_mode is Some,
        saved.route_mode->0@ == s.route_mode,
{
    let list = saved_nodes_view(saved.nodes@);
    assert(list.len() == s.nodes.len());
    assert forall|i: int| 0 <= i < s.nodes.len() implies (#[trigger] saved.nodes@[i]).name@
        == s.nodes[i].name && saved.nodes@[i].link@ == s.nodes[i].link by {
        assert(list[i] == s.without_latencies().nodes[i]);
    }
}

/// A store without a file has no nodes.
pub proof fn law_empty_store()
    ensures
        empty_store().nodes.len() == 0,
        empty_store().current == 0,
        !empty_store().use_tun,
        empty_store().route_mode.len() == 0,
{
    reveal_strlit("");
}

/// A node that is added comes last, with its link and no latency, and is selected; the
/// nodes before it and the settings stay.
pub proof fn law_added(s: StoreView, link: Seq<char>)
    ensures
        ({
            let a = s.added(link);
            let n = s.nodes.len() as int;
            &&& a.nodes.len() == n + 1
            &&& forall|i: int| 0 <= i < n ==> #[trigger] a.nodes[i] == s.nodes[i]
            &&& a.nodes[n].link == link
            &&& a.nodes[n].name == node_name(link, (n + 1) as nat)
            &&& a.nodes[n].latency == 0
            &&& a.current == n
            &&& a.use_tun == s.use_tun
            &&& a.route_mode == s.route_mode
        }),
{
}

/// Taking out a node leaves the others in their order. The selected index stays while
/// there is a node at it, and else is that of the last node; the settings stay.
pub proof fn law_removed(s: StoreView, index: int)
    requires
        0 <= index < s.nodes.len(),
        s.valid(),
    ensures
        ({
            let r = s.removed(index);
            let n = s.nodes.len() as int;
            &&& r.nodes.len() == n - 1
            &&& forall|i: int| 0 <= i < index ==> #[trigger] r.nodes[i] == s.nodes[i]
            &&& forall|i: int| index <= i < n - 1 ==> #[trigger] r.nodes[i] == s.nodes[i + 1]
            &&& s.current < n - 1 ==> r.current == s.current
            &&& s.current == n - 1 && n > 1 ==> r.current == n - 2
            &&& n == 1 ==> r.current == 0
            &&& r.use_tun == s.use_tun
            &&& r.route_mode == s.route_mode
        }),
{
}

/// Other nodes in a state change nothing else in it, and the selected node's name is
/// the one that is told.
pub proof fn law_nodes_change_alone(s: AppView, nodes: StoreView)
    ensures
        with_nodes(s, nodes).nodes == nodes,
        (AppView { nodes: s.nodes, ..with_nodes(s, nodes) }) == s,
        0 <= s.nodes.current < s.nodes.nodes.len() ==> selected_name(s)
            == s.nodes.nodes[s.nodes.current].name,
        s.nodes.nodes.len() == 0 ==> selected_name(s).len() == 0,
{
    reveal_strlit("");
}

// ---- The first state ----

/// The first state has what the last run and the system left, and of sing-box only the
/// totals of the last run; nothing was logged, measured or restarted yet.
pub proof fn law_first_state(s: Startup, doc: JsonView, n: u64)
    ensures
        ({
            let a = first_state(s);
            &&& a.elevated == s.elevated
            &&& a.autostart == s.autostart
            &&& a.system_proxy == s.system_proxy
            &&& !a.status.running
            &&& a.status.up_speed == 0
            &&& a.status.down_speed == 0
            &&& a.status.conns == 0
            &&& s.traffic_file is None ==> a.status.up_total == 0 && a.status.down_total == 0
            &&& s.traffic_file is Some && parsed_json(s.traffic_file->0@) == Ok::<
                JsonView,
                Seq<char>,
            >(doc) && doc.field("up_total"@) == Some(JsonView::Number(JsonNumber::Unsigned(n)))
                ==> a.status.up_total == n
            &&& s.traffic_file is Some && parsed_json(s.traffic_file->0@) == Ok::<
                JsonView,
                Seq<char>,
            >(doc) && doc.field("down_total"@) == Some(JsonView::Number(JsonNumber::Unsigned(n)))
                ==> a.status.down_total == n
            &&& a.logs.len() == 0
            &&& a.log_seq == 0
            &&& a.latency == 0
            &&& !a.traffic_dirty
            &&& a.watchdog.failures == 0
            &&& a.watchdog.stable_count == 0
            &&& a.watchdog.retries == 0
            &&& a.watchdog.suspended_until == 0
            &&& !a.watchdog.restarting
            &&& s.nodes matches Some(saved) ==> a.nodes == loaded(saved)
            &&& s.nodes is None ==> a.nodes.nodes.len() == 0
            &&& s.port_file is None && s.config_file is None ==> a.proxy_port == 2080
            &&& a.proxy_port == loaded_port(owned_view(s.port_file), owned_view(s.config_file))
        }),
{
}

/// The totals of the last run are those that its file holds, the sent ones under
/// `up_total` and the received ones under `down_total`.
pub proof fn law_totals_by_key(doc: JsonView, n: u64)
    ensures
        doc.field("up_total"@) == Some(JsonView::Number(JsonNumber::Unsigned(n))) ==> totals_in(
            Some(doc),
        ).0 == n,
        doc.field("down_total"@) == Some(JsonView::Number(JsonNumber::Unsigned(n))) ==> totals_in(
            Some(doc),
        ).1 == n,
        doc.field("up_total"@) is None ==> totals_in(Some(doc)).0 == 0,
        doc.field("down_total"@) is None ==> totals_in(Some(doc)).1 == 0,
        totals_in(None) == (0u64, 0u64),
{
}

} // verus!
