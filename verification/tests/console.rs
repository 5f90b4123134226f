use singbox_commander::console::{
    applied_message, autostart_line, boxes_for, config_line, count_second, import_line, latency_text, links_in,
    looks_like_link, mode_lines, next_import, node_list_text_from, node_name_at, on_proxy_changed, on_tun_changed, parse_index,
    plan_start, proxy_line_after_start, rank, should_reload, started_line, stopped_line, summary_line, test_all_line,
    test_line, tested_line, tested_one_line, wanted_proxy, welcome_lines, Import, StartPlan,
};
use singbox_commander::format::{fmt_bytes, fmt_speed};
use singbox_commander::nodes::{NodeInfo, NodesStore};
use singbox_commander::singbox::{AppState, Process, Startup};

fn state() -> AppState {
    AppState::new(Startup {
        port_file: None,
        config_file: None,
        traffic_file: None,
        nodes: None,
        autostart: false,
        system_proxy: false,
        elevated: false,
    })
}

fn nodes(latencies: &[u64]) -> NodesStore {
    NodesStore {
        nodes: latencies
            .iter()
            .enumerate()
            .map(|(i, l)| NodeInfo { name: format!("n{}", i), link: String::new(), latency: *l })
            .collect(),
        current: 1,
        use_tun: false,
        route_mode: "rule".to_string(),
    }
}

fn by_floats(n: u64) -> String {
    if n < 1024 {
        return format!("{} B", n);
    }
    let kb = n as f64 / 1024.0;
    if kb < 1024.0 {
        return format!("{:.1} KB", kb);
    }
    let mb = kb / 1024.0;
    if mb < 1024.0 {
        return format!("{:.1} MB", mb);
    }
    format!("{:.2} GB", mb / 1024.0)
}

#[test]
fn amounts_of_data() {
    assert_eq!(fmt_bytes(0), "0 B");
    assert_eq!(fmt_bytes(1023), "1023 B");
    assert_eq!(fmt_bytes(1024), "1.0 KB");
    assert_eq!(fmt_bytes(1536), "1.5 KB");
    assert_eq!(fmt_bytes(1_048_575), "1024.0 KB");
    assert_eq!(fmt_bytes(1_048_576), "1.0 MB");
    assert_eq!(fmt_bytes(1_073_741_824), "1.00 GB");
    assert_eq!(fmt_bytes(u64::MAX), "17179869184.00 GB");
    assert_eq!(fmt_speed(2048), "2.0 KB/s");
}

#[test]
fn amounts_of_data_as_by_floats() {
    for n in 0..70_000u64 {
        assert_eq!(fmt_bytes(n), by_floats(n), "{}", n);
    }
    for n in (0..1_100_000_000u64).step_by(4_999) {
        assert_eq!(fmt_bytes(n), by_floats(n), "{}", n);
    }
    let mut n: u64 = 1;
    for i in 0..200_000u64 {
        n = n.wrapping_mul(6364136223846793005).wrapping_add(1442695040888963407);
        let m = n >> (i % 40);
        assert_eq!(fmt_bytes(m), by_floats(m), "{}", m);
    }
    for shift in 10..64u32 {
        let base = 1u64 << shift;
        for d in 0..2100u64 {
            assert_eq!(fmt_bytes(base - d.min(base)), by_floats(base - d.min(base)));
            assert_eq!(fmt_bytes(base + d), by_floats(base + d));
            let half = base + base / 64 * (d % 64);
            assert_eq!(fmt_bytes(half), by_floats(half));
        }
    }
    for k in 0..3000u64 {
        let tie = (k * 1_073_741_824 + 536_870_912) / 100 + 2_000_000_000;
        for d in 0..3u64 {
            assert_eq!(fmt_bytes(tie + d), by_floats(tie + d));
        }
    }
}

#[test]
fn links_on_lines() {
    assert!(looks_like_link("hello\r\n  vless://x\r\n"));
    for scheme in [
        "http://", "https://", "vmess://", "vless://", "ss://", "ssr://", "trojan://", "hysteria://",
        "hysteria2://", "hy2://", "tuic://", "socks://", "ssh://",
    ] {
        assert!(looks_like_link(scheme), "{}", scheme);
    }
    assert!(!looks_like_link("a vless://x"));
    assert!(!looks_like_link("VLESS://x"));
    assert!(!looks_like_link(""));
    assert_eq!(links_in(" a \r\n\r\n\tb"), vec!["a".to_string(), "b".to_string()]);
    assert!(links_in(" \n\r\n").is_empty());
}

#[test]
fn lists_of_nodes() {
    assert_eq!(node_list_text_from(&NodesStore::default()), "（暂无节点）");
    let mut store = nodes(&[0, 12, u64::MAX]);
    assert_eq!(
        node_list_text_from(&store),
        "   0 [代理]  n0\r\n▶ 1 [代理]  n1 ⏱12ms\r\n   2 [代理]  n2 ⏱不可达"
    );
    store.use_tun = true;
    store.current = 0;
    assert!(node_list_text_from(&store).starts_with("▶ 0 [全应用]  n0\r\n"));
    assert_eq!(node_name_at(&store, 2), "n2");
    assert_eq!(node_name_at(&store, 3), "");
}

#[test]
fn typed_numbers() {
    assert_eq!(parse_index(" 12 "), Some(12));
    assert_eq!(parse_index("+1"), Some(1));
    assert_eq!(parse_index("-1"), None);
    assert_eq!(parse_index(""), None);
    assert_eq!(parse_index(&usize::MAX.to_string()), Some(usize::MAX));
    assert_eq!(parse_index("99999999999999999999999"), None);
}

#[test]
fn lines_about_latencies() {
    assert_eq!(latency_text(Some(0)), "<1 ms");
    assert_eq!(latency_text(Some(5)), "5 ms");
    assert_eq!(latency_text(None), "不可达");
    assert_eq!(test_line("n", true), "测延迟 n （直连节点）…");
    assert_eq!(test_line("n", false), "测延迟 n （直连节点·未启动）…");
    assert_eq!(tested_line("n", Some(5), true), "「n」延迟：5 ms （直连节点）");
    assert_eq!(tested_line("n", None, true), "「n」延迟测试失败（节点不可达）");
    assert_eq!(tested_one_line("n", None), "「n」延迟：不可达");
    assert_eq!(test_all_line(0), "（暂无节点，无法测速）");
    assert_eq!(test_all_line(3), "⚡ 开始测速：共 3 个节点（未启动亦可比线）…");
}

#[test]
fn rankings() {
    let results = vec![Some(5u64), None, Some(1), Some(5), Some(0), Some(1)];
    let mut expected: Vec<(usize, u64)> =
        results.iter().enumerate().filter_map(|(i, l)| l.map(|ms| (i, ms))).collect();
    expected.sort_by_key(|&(_, ms)| ms);
    assert_eq!(rank(&results), expected);
    assert_eq!(rank(&results), vec![(4, 0), (2, 1), (5, 1), (0, 5), (3, 5)]);
    assert!(rank(&vec![None]).is_empty());
    assert_eq!(summary_line(&nodes(&[]), &Vec::new()), "测速完成：所有节点均不可达");
    assert_eq!(
        summary_line(&nodes(&[0, 0]), &vec![(1, 3), (0, 4), (9, 5)]),
        "测速完成（由快到慢）： n1:3ms n0:4ms :5ms"
    );
    let many: Vec<(usize, u64)> = (0..11usize).map(|i| (i, i as u64)).collect();
    let line = summary_line(&nodes(&[0; 11]), &many);
    assert!(line.ends_with(" n9:9ms …"));
}

#[test]
fn one_way_at_a_time() {
    for checked in [true, false] {
        let a = on_tun_changed(checked);
        assert_eq!((a.tun, a.proxy), (checked, !checked));
        let b = on_proxy_changed(checked);
        assert_eq!((b.tun, b.proxy), (!checked, checked));
        assert_eq!(boxes_for(checked), a);
        assert_eq!(wanted_proxy(checked, true), Some(!checked));
        assert_eq!(wanted_proxy(checked, false), None);
    }
}

#[test]
fn lines_about_modes() {
    let ok: Result<(), String> = Ok(());
    let err: Result<(), String> = Err("why".to_string());
    assert_eq!(mode_lines(true, true, 1, &ok), vec!["已应用：虚拟网卡（接管所有应用）模式".to_string()]);
    assert_eq!(
        mode_lines(false, false, 1, &ok),
        vec![
            "⚠ 已设为系统代理模式，请先「启动」sing-box，代理才会生效".to_string(),
            "已应用：系统代理 模式".to_string(),
        ]
    );
    assert_eq!(mode_lines(false, true, 2080, &ok)[0], "系统代理已开启（127.0.0.1:2080）");
    assert_eq!(mode_lines(false, true, 2080, &err)[0], "系统代理开启失败：why");
    assert_eq!(proxy_line_after_start(true, 1, &ok), None);
    assert_eq!(
        proxy_line_after_start(false, 2080, &ok).as_deref(),
        Some("已自动开启系统代理（127.0.0.1:2080）")
    );
    assert_eq!(proxy_line_after_start(false, 1, &err).as_deref(), Some("系统代理开启失败：why"));
    assert!(should_reload(true, Process::Alive(1)));
    assert!(!should_reload(false, Process::Alive(1)));
    assert!(!should_reload(true, Process::Ended(1)));
}

#[test]
fn importing() {
    let tried = |links: &[&str]| {
        let mut outcomes: Vec<Result<(), String>> = Vec::new();
        let mut seen = Vec::new();
        let mut lines = Vec::new();
        loop {
            match next_import(links.len(), &outcomes) {
                Import::Add(i) => {
                    seen.push(links[i].to_string());
                    outcomes.push(if links[i] == "bad" { Err("why".to_string()) } else { Ok(()) });
                    lines.extend(config_line(&outcomes));
                }
                end => return (end, seen.join(" "), lines.join("; ")),
            }
        }
    };
    let end = |end: Import, seen: &str, lines: &str| (end, seen.to_string(), lines.to_string());
    let written = "已生成 config.json";
    assert_eq!(tried(&["a", "bad", "c"]), end(Import::Done(2), "a bad c", written));
    assert_eq!(tried(&["a", "b"]), end(Import::Done(2), "a b", written));
    assert_eq!(tried(&["bad", "c"]), end(Import::Failed("导入失败：why".to_string()), "bad", ""));
    assert_eq!(tried(&[]), end(Import::Done(0), "", ""));
    assert_eq!(import_line(2), "批量导入 2 个节点");
    assert_eq!(applied_message(None, true), "已应用配置");
    assert_eq!(applied_message(Some(2), false), "已导入 2 个节点，已应用配置（系统代理模式）");
}

#[test]
fn plans_for_a_start() {
    let taken = |list: Vec<u16>| move |p: u16| list.contains(&p);
    assert_eq!(plan_start(2080, taken(vec![])), StartPlan::Start);
    match plan_start(2080, taken(vec![9090])) {
        StartPlan::AlreadyRunning(n) => {
            assert_eq!(n.caption, "已有 sing-box 在运行");
            assert_eq!(n.log, "⚠ 检测到 9090 被占用，可能已有 sing-box 在运行，未启动");
            assert!(n.content.starts_with("检测到 9090 端口已被其他程序占用"));
        }
        other => panic!("{:?}", other),
    }
    match plan_start(2080, taken(vec![2080, 2081])) {
        StartPlan::Offer(o) => {
            assert_eq!((o.port, o.api), (2082, 9092));
            assert_eq!(o.caption, "端口被占用");
            assert_eq!(
                o.content,
                "端口 2080（代理） 已被其他程序占用，\n无法在该端口启动 sing-box。\n\n是否改用 代理端口 2082 / API 端口 9092 启动？\n\n（建议点「是」改端口；若想保留原端口，请先关闭占用程序后重试）"
            );
            assert_eq!(o.accepted, "端口冲突，已改用 代理 2082 / API 9092");
            assert_eq!(
                o.declined,
                "端口 2080（代理） 被占用，已取消启动。请先关闭占用该端口的程序（如 box 服务）"
            );
        }
        other => panic!("{:?}", other),
    }
    match plan_start(3000, taken(vec![10010])) {
        StartPlan::Offer(o) => {
            assert!(o.content.starts_with("端口 10010（API） 已被"));
            assert_eq!(o.port, 3001);
        }
        other => panic!("{:?}", other),
    }
}

#[test]
fn lines_about_starts_and_stops() {
    let ok: Result<(), String> = Ok(());
    let err: Result<(), String> = Err("why".to_string());
    assert_eq!(started_line(&ok), "已启动 sing-box");
    assert_eq!(started_line(&err), "启动失败：why");
    assert_eq!(stopped_line(true), "已停止 sing-box，并同步关闭系统代理");
    assert_eq!(stopped_line(false), "已停止 sing-box");
    assert_eq!(autostart_line(true, &ok), "开机自启已开启");
    assert_eq!(autostart_line(false, &ok), "开机自启已关闭");
    assert_eq!(autostart_line(true, &err), "开机自启切换失败：why");
    assert!(welcome_lines(true, 1).is_empty());
    assert_eq!(
        welcome_lines(false, 0),
        vec![
            "未找到 data/sing-box.exe".to_string(),
            "尚未导入节点，请在控制台粘贴链接并点「应用配置」".to_string(),
        ]
    );
}

#[test]
fn what_is_shown() {
    let mut st = state();
    assert_eq!(
        st.tray_tip(false),
        "Sing-box ○ 已停止 模式:系统代理 代理:关\n▲ 0 B/s  ▼ 0 B/s"
    );
    st.nodes = nodes(&[0, 0]);
    st.nodes.use_tun = true;
    st.system_proxy = true;
    st.autostart = true;
    st.status.up_speed = 2048;
    st.status.down_total = 1536;
    st.status.conns = 3;
    st.latency = 7;
    assert_eq!(
        st.tray_tip(true),
        "Sing-box ● 运行中 [n1] 模式:虚拟网卡 代理:开\n▲ 2.0 KB/s  ▼ 0 B/s"
    );
    let l = st.labels(true);
    assert_eq!(l.running, "● 运行中");
    assert_eq!(l.up, "▲ 上行  2.0 KB/s");
    assert_eq!(l.down, "▼ 下行  0 B/s");
    assert_eq!(l.up_total, "累计 上行 0 B");
    assert_eq!(l.down_total, "累计 下行 1.5 KB");
    assert_eq!(l.conns, "≡ 3 连接");
    assert_eq!(l.latency, "⏱ 7 ms");
    assert_eq!(l.proxy, "🌐 代理：开  ·  📌 自启：开");
    st.latency = 0;
    assert_eq!(st.labels(false).latency, "⏱ 未测试");
    st.latency = u64::MAX;
    assert_eq!(st.labels(false).latency, "⏱ 不可达");
    assert_eq!(st.labels(false).running, "○ 已停止");
}

#[test]
fn each_second() {
    let mut st = state();
    st.note_poll(Some((1, 2)), Some((3, 4, 5)));
    assert_eq!((st.status.up_speed, st.status.down_speed), (1, 2));
    assert_eq!((st.status.up_total, st.status.down_total, st.status.conns), (3, 4, 5));
    assert!(st.traffic_dirty);
    st.traffic_dirty = false;
    st.note_poll(None, None);
    assert_eq!(st.status.up_speed, 1);
    assert!(!st.traffic_dirty);
    st.note_idle();
    assert_eq!((st.status.up_speed, st.status.down_speed, st.status.conns), (0, 0, 0));
    assert_eq!(st.status.up_total, 3);
    assert_eq!(count_second(0), (1, false));
    assert_eq!(count_second(28), (29, false));
    assert_eq!(count_second(29), (0, true));
}
