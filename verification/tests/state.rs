use singbox_commander::nodes::{NodesStore, SavedNode, SavedNodes};
use singbox_commander::singbox::{AppState, Process, Startup, StatusData};
use singbox_commander::watchdog::{Decision, Watchdog};
use std::cell::{Cell, RefCell};

fn startup() -> Startup {
    Startup {
        port_file: None,
        config_file: None,
        traffic_file: None,
        nodes: None,
        autostart: false,
        system_proxy: false,
        elevated: false,
    }
}

fn with_links(links: &[&str]) -> AppState {
    let nodes = links
        .iter()
        .enumerate()
        .map(|(i, l)| SavedNode { name: format!("n{}", i), link: l.to_string() })
        .collect();
    AppState::new(Startup {
        nodes: Some(SavedNodes { nodes, current: 0, use_tun: Some(true), route_mode: None }),
        ..startup()
    })
}

const LINK: &str = "vless://u@h.example:1#x";
const OTHER: &str = "trojan://p@g.example:2#y";

#[test]
fn the_first_state() {
    let st = AppState::new(startup());
    assert_eq!(st.proxy_port, 2080);
    assert_eq!(st.nodes, NodesStore::default());
    assert_eq!(
        st.status,
        StatusData { running: false, up_speed: 0, down_speed: 0, up_total: 0, down_total: 0, conns: 0 }
    );
    let st = AppState::new(Startup {
        port_file: Some("3000\n".to_string()),
        traffic_file: Some(r#"{"up_total":3,"down_total":4}"#.to_string()),
        autostart: true,
        system_proxy: true,
        elevated: true,
        ..startup()
    });
    assert_eq!(st.get_proxy_port(), 3000);
    assert_eq!((st.status.up_total, st.status.down_total), (3, 4));
    assert!(st.autostart && st.system_proxy && st.elevated);
    assert!(st.logs.is_empty());
    assert_eq!(st.watchdog.retries, 0);
}

#[test]
fn ports_of_earlier_runs() {
    assert_eq!(AppState::load_port(None, None), 2080);
    assert_eq!(AppState::load_port(Some(" 1024 "), None), 1024);
    assert_eq!(AppState::load_port(Some("+65535"), None), 65535);
    let config = r#"{"inbounds":[{"tag":"x","listen_port":1},{"tag":"mixed-in"},{"tag":"mixed-in","listen_port":2081}]}"#;
    for bad in ["1023", "65536", "", "x", "-1"] {
        assert_eq!(AppState::load_port(Some(bad), Some(config)), 2081, "{}", bad);
    }
    assert_eq!(AppState::read_port_from_config(Some("{")), 2080);
    assert_eq!(AppState::read_port_from_config(Some(r#"{"inbounds":{}}"#)), 2080);
    assert_eq!(AppState::read_port_from_config(Some("{}")), 2080);
    let large = r#"{"inbounds":[{"tag":"mixed-in","listen_port":67616}]}"#;
    assert_eq!(AppState::read_port_from_config(Some(large)), 2080);
    let large = r#"{"inbounds":[{"tag":"mixed-in","listen_port":65537}]}"#;
    assert_eq!(AppState::read_port_from_config(Some(large)), 1);
}

#[test]
fn chosen_ports_are_kept() {
    let mut st = AppState::new(startup());
    for port in [1024u16, 2080, 58525, 58526, 65535] {
        st.set_proxy_port(port);
        assert_eq!(AppState::load_port(Some(&st.port_file()), None), port);
        assert_eq!(st.api_port(), port.saturating_add(7010));
    }
}

#[test]
fn written_ports_are_found_again() {
    let st = {
        let mut st = with_links(&[LINK]);
        st.set_proxy_port(3456);
        st
    };
    let written = RefCell::new(String::new());
    let done = st.regenerate_config(|text: &str| {
        *written.borrow_mut() = text.to_string();
        Ok(())
    });
    assert_eq!(done, Ok(written.borrow().clone()));
    assert_eq!(AppState::load_port(None, Some(&written.borrow())), 3456);
}

#[test]
fn free_pairs_of_ports() {
    let taken = |list: Vec<u16>| move |p: u16| list.contains(&p);
    assert_eq!(AppState::next_free_pair(2080, &taken(vec![])), 2081);
    assert_eq!(AppState::next_free_pair(2080, &taken(vec![2081, 9092])), 2083);
    assert_eq!(AppState::next_free_pair(65000, &taken(vec![65001])), 65002);
    assert_eq!(AppState::next_free_pair(65000, &taken(vec![65535])), 65001);
    assert_eq!(AppState::next_free_pair(65534, &taken(vec![])), 65535);
    assert_eq!(AppState::next_free_pair(10, &|_p: u16| true), 11);
}

#[test]
fn heartbeats() {
    let mut st = AppState::new(startup());
    assert_eq!(st.wd_heartbeat_fail(), 1);
    assert_eq!(st.wd_heartbeat_fail(), 2);
    st.watchdog.retries = 3;
    for i in 0..59u32 {
        st.wd_heartbeat_ok();
        assert_eq!(st.watchdog.stable_count, i + 1);
        assert_eq!(st.watchdog.retries, 3);
    }
    st.wd_heartbeat_ok();
    assert_eq!(
        st.watchdog,
        Watchdog { failures: 0, stable_count: 0, retries: 0, suspended_until: 0, restarting: false }
    );
    st.wd_heartbeat_ok();
    assert_eq!(st.wd_heartbeat_fail(), 1);
    assert_eq!(st.watchdog.stable_count, 0);
}

#[test]
fn five_restarts_and_a_pause() {
    let mut st = AppState::new(startup());
    for i in 1..=5u32 {
        assert_eq!(st.wd_try_restart(1000, false), Decision::Restart(i));
        assert!(st.watchdog.restarting);
        assert_eq!(
            st.wd_try_restart(1000, false),
            Decision::Skip("watchdog 检测到 sing-box 仍在运行，不自动重启".to_string())
        );
        st.wd_reset();
        let line = st.wd_restarted(i, 1000, Ok(()));
        assert_eq!(line, format!("watchdog 已自动重启 sing-box（第 {} 次）", i));
        assert_eq!(st.watchdog.retries, i);
    }
    assert_eq!(
        st.wd_try_restart(1000, false),
        Decision::Skip("watchdog 连续自动重启 5 次失败，进入 5 分钟冷却".to_string())
    );
    assert!(st.wd_is_suspended(300_999));
    assert!(!st.wd_is_suspended(301_000));
    assert_eq!(
        st.wd_try_restart(2000, false),
        Decision::Skip("watchdog 处于冷却期，跳过自动重启".to_string())
    );
    st.wd_reset();
    assert_eq!(st.wd_try_restart(2000, false), Decision::Restart(1));
}

#[test]
fn restarts_that_fail() {
    let mut st = AppState::new(startup());
    assert_eq!(
        st.wd_try_restart(5, true),
        Decision::Skip("watchdog 检测到 sing-box 仍在运行，不自动重启".to_string())
    );
    assert_eq!(st.wd_try_restart(5, false), Decision::Restart(1));
    let line = st.wd_restarted(1, 5, Err("why".to_string()));
    assert_eq!(line, "watchdog 自动重启失败：why，30 秒后重试");
    assert_eq!(st.watchdog.suspended_until, 30_005);
    assert_eq!(st.watchdog.retries, 1);
    assert!(!st.watchdog.restarting);
}

#[test]
fn starting() {
    let mut st = AppState::new(startup());
    let started = st.start_proxy(Process::Alive(1), true, true, "d", || Ok(()));
    assert_eq!(started.unwrap_err(), "sing-box 已在运行中");
    let started = st.start_proxy(Process::Absent, false, true, "C:\\d", || Ok(()));
    assert_eq!(started.unwrap_err(), "未找到 C:\\d\\sing-box.exe，请把它放进 data 目录");
    let started = st.start_proxy(Process::Ended(1), true, false, "d", || Ok(()));
    assert_eq!(
        started.unwrap_err(),
        "尚未生成配置，请先在控制台粘贴节点链接并点「应用配置」"
    );
    let started = st.start_proxy(Process::Absent, true, true, "d", || Err("why".to_string()));
    assert_eq!(started.unwrap_err(), "启动 sing-box 失败: why");
    assert!(!st.status.running);
    st.watchdog.retries = 2;
    assert_eq!(st.start_proxy(Process::Ended(1), true, true, "d", || Ok(())), Ok(()));
    assert!(st.status.running);
    assert_eq!(st.watchdog.retries, 0);
    st.status.up_speed = 5;
    st.status.up_total = 6;
    st.stop_proxy();
    assert!(!st.status.running);
    assert_eq!(st.status.up_speed, 0);
    assert_eq!(st.status.up_total, 6);
}

#[test]
fn processes() {
    assert!(AppState::is_running(Process::Alive(3)));
    assert!(!AppState::is_running(Process::Ended(3)));
    assert!(!AppState::is_running(Process::Absent));
    assert!(!AppState::has_died(Process::Alive(3), 3));
    assert!(AppState::has_died(Process::Alive(4), 3));
    assert!(AppState::has_died(Process::Ended(3), 3));
    assert!(AppState::has_died(Process::Absent, 3));
}

#[test]
fn adding_nodes() {
    let mut st = AppState::new(startup());
    let written = RefCell::new(Vec::new());
    let write = |text: &str| {
        written.borrow_mut().push(text.to_string());
        Ok(())
    };
    assert_eq!(st.add_node(LINK, &write).unwrap(), "已添加节点「x」并生成配置");
    assert_eq!(st.node_count(), 1);
    assert!(written.borrow()[0].contains("h.example"));
    assert!(!written.borrow()[0].contains("tun-in"));
    let before = st.nodes.save();
    assert_eq!(st.add_node("", &write).unwrap_err(), "链接为空");
    assert_eq!(written.borrow().len(), 1);
    let failed = st.add_node(OTHER, |_text: &str| Err("disk".to_string()));
    assert_eq!(failed.unwrap_err(), "disk");
    assert_eq!(st.nodes.save(), before);
}

#[test]
fn switching_nodes() {
    let mut st = with_links(&[LINK, OTHER, "bad"]);
    let written = RefCell::new(String::new());
    let write = |text: &str| {
        *written.borrow_mut() = text.to_string();
        Ok(())
    };
    assert_eq!(st.switch_node(1, &write).unwrap(), "已切换到「n1」");
    assert_eq!(st.nodes.current, 1);
    assert!(written.borrow().contains("g.example"));
    assert_eq!(st.switch_node(3, &write).unwrap_err(), "节点索引不存在");
    assert!(st.switch_node(2, &write).unwrap_err().starts_with("格式未能识别"));
    assert_eq!(st.switch_node(0, |_t: &str| Err("disk".to_string())).unwrap_err(), "disk");
    assert_eq!(st.nodes.current, 1);
}

#[test]
fn deleting_nodes() {
    let mut st = with_links(&[LINK, OTHER]);
    assert_eq!(st.delete_node(2).unwrap_err(), "删除失败：索引越界");
    assert_eq!(st.delete_node(0).unwrap(), "已删除「n0」");
    assert_eq!(st.node_count(), 1);
    assert_eq!(st.node_link(0).as_deref(), Some(OTHER));
    assert_eq!(st.node_link(1), None);
}

#[test]
fn configurations_of_the_selected_node() {
    let st = AppState::new(startup());
    assert_eq!(
        st.regenerate_config(|_t: &str| Ok(())).unwrap_err(),
        "当前没有节点，请先导入链接"
    );
    let st = with_links(&[LINK]);
    assert_eq!(st.regenerate_config(|_t: &str| Err("disk".to_string())).unwrap_err(), "disk");
    let seen = RefCell::new(String::new());
    let text = st.write_config(OTHER, |t: &str| {
        *seen.borrow_mut() = t.to_string();
        Ok(())
    });
    assert!(seen.borrow().contains("g.example"));
    assert_eq!(text, Ok(seen.borrow().clone()));
    let refused = st.write_config("ss://x", |_t: &str| panic!("written"));
    assert!(refused.unwrap_err().starts_with("格式未能识别"));
}

#[test]
fn changing_the_route_mode() {
    let mut st = AppState::new(startup());
    let calls = Cell::new(0u32);
    let write = |_t: &str| {
        calls.set(calls.get() + 1);
        Ok(())
    };
    assert_eq!(
        st.set_route_mode("global", false, &write).unwrap(),
        "已切换为全局模式（所有流量走代理）"
    );
    assert_eq!(calls.get(), 0);
    assert_eq!(st.nodes.route_mode(), "global");
    assert_eq!(
        st.set_route_mode("rule", true, &write).unwrap_err(),
        "当前没有节点，请先导入链接"
    );
    assert_eq!(st.nodes.route_mode(), "rule");
    let mut st = with_links(&[LINK]);
    assert_eq!(
        st.set_route_mode("other", true, &write).unwrap(),
        "已切换为规则模式（国内直连）"
    );
    assert_eq!(calls.get(), 1);
}

#[test]
fn changing_the_virtual_network_card() {
    let mut st = with_links(&[LINK]);
    let calls = Cell::new(0u32);
    let write = |_t: &str| {
        calls.set(calls.get() + 1);
        Ok(())
    };
    assert_eq!(st.set_use_tun(true, &write), Ok(("n0".to_string(), false)));
    assert_eq!(calls.get(), 0);
    assert_eq!(st.set_use_tun(false, &write), Ok(("n0".to_string(), true)));
    assert_eq!(calls.get(), 1);
    assert_eq!(st.set_use_tun(true, |_t: &str| Err("disk".to_string())).unwrap_err(), "disk");
    assert!(st.nodes.use_tun());
    let mut st = AppState::new(startup());
    assert_eq!(st.set_use_tun(false, &write), Ok(("".to_string(), false)));
    assert_eq!(st.set_use_tun(true, &write).unwrap_err(), "当前没有节点");
    assert!(st.nodes.use_tun());
}

#[test]
fn latencies_of_nodes() {
    let mut st = with_links(&[LINK, OTHER]);
    st.set_node_latency(1, 7);
    st.set_node_latency(2, 8);
    assert_eq!(st.nodes.nodes[1].latency, 7);
    st.note_latency(Some(9));
    assert_eq!((st.latency, st.nodes.nodes[0].latency), (9, 9));
    st.note_latency(None);
    assert_eq!((st.latency, st.nodes.nodes[0].latency), (u64::MAX, u64::MAX));
    assert_eq!(st.current_name(), "n0");
    let mut st = AppState::new(startup());
    st.note_latency(Some(1));
    assert_eq!(st.latency, 1);
    assert_eq!(st.current_name(), "");
}

#[test]
fn written_configurations_are_current() {
    let mut st = with_links(&[LINK, OTHER]);
    let written = RefCell::new(Vec::new());
    let write = |text: &str| {
        written.borrow_mut().push(text.to_string());
        Ok(())
    };
    st.switch_node(1, &write).unwrap();
    st.regenerate_config(&write).unwrap();
    st.add_node("vless://w@k.example:3", &write).unwrap();
    st.regenerate_config(&write).unwrap();
    let texts = written.borrow();
    assert_eq!(texts[0], texts[1]);
    assert_eq!(texts[2], texts[3]);
    assert_ne!(texts[1], texts[2]);
}

#[test]
fn applying_a_mode() {
    let calls = Cell::new(0u32);
    let write = |_t: &str| {
        calls.set(calls.get() + 1);
        Ok(())
    };
    let mut st = AppState::new(startup());
    assert!(!st.apply_mode(true, &write));
    assert!(!st.nodes.use_tun());
    let mut st = with_links(&[LINK]);
    assert!(!st.apply_mode(true, &write));
    assert_eq!(calls.get(), 0);
    assert!(st.apply_mode(false, &write));
    assert_eq!(calls.get(), 1);
    assert!(!st.nodes.use_tun());
    assert!(!st.apply_mode(true, |_t: &str| Err("disk".to_string())));
    assert!(st.nodes.use_tun());
    assert!(st.config_for_link(LINK).unwrap().contains("h.example"));
    assert_eq!(st.config_for_link("").unwrap_err(), "链接为空");
}
