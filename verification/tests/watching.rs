use singbox_commander::json::parse_json;
use singbox_commander::latency::{
    extract_server_from_link, find_server, next_attempt, read_data, server_from_data, Attempt,
};
use singbox_commander::logs::{
    log_extension, note_error, plan_rotation, report_failure, RotationStep, MAX_LOG_SIZE,
};
use singbox_commander::singbox::{AppState, Startup};
use singbox_commander::status::{
    absorb, fetch_connections, fetch_traffic, find_object, first_json, read_bytes, read_connections, read_speeds,
    request_text, Progress,
};
use singbox_commander::system::{
    delete_result, elevation_command, is_system_proxy_enabled, logon_cleanup_command, text_held, unless_blank,
    until_zero, write_result, RegistryChange,
};
use singbox_commander::traffic::{load_traffic_file, read_totals};
use base64::engine::general_purpose::STANDARD;
use base64::Engine;
use std::cell::{Cell, RefCell};
use std::collections::HashMap;

fn state() -> AppState {
    AppState::new(Startup {
        port_file: None,
        config_file: None,
        traffic_file: None,
        nodes: None,
        autostart: false,
        system_proxy: false,
        elevated: false,
    })
}

#[test]
fn the_log_keeps_its_last_lines() {
    let mut st = state();
    for i in 0..502u32 {
        st.push_log(&i.to_string());
    }
    assert_eq!(st.logs.len(), 500);
    assert_eq!(st.logs[0], "2");
    assert_eq!(st.logs[499], "501");
    assert_eq!(st.log_seq, 502);
    st.log_seq = u64::MAX;
    st.push_logs(&vec!["a".to_string(), "b".to_string()]);
    assert_eq!(st.log_seq, 1);
    assert_eq!(st.logs[499], "b");
    assert!(st.log_text().ends_with("501\r\na\r\nb"));
}

#[test]
fn lines_of_sing_box() {
    let mut st = state();
    assert_eq!(st.take_line(" a \r\n").as_deref(), Some(" a"));
    assert_eq!(st.take_line(" \t\n"), None);
    assert_eq!(st.logs, vec![" a".to_string()]);
    let mut errors: Vec<String> = Vec::new();
    for i in 0..22u32 {
        note_error(&mut errors, &i.to_string());
    }
    assert_eq!(errors.len(), 20);
    assert_eq!(errors[0], "2");
}

#[test]
fn reports_of_failed_starts() {
    let report = report_failure(&Vec::new());
    assert_eq!(report.lines, vec!["⚠ sing-box 启动后立即退出，可能配置有误".to_string()]);
    assert_eq!(
        report.message,
        "sing-box 启动后立即退出，可能配置有误或 sing-box.exe 不兼容。\n\n未捕获到 stderr，请检查 data/sing-box.log 文件。"
    );
    let errors: Vec<String> = (0..7u32).map(|i| i.to_string()).collect();
    let report = report_failure(&errors);
    assert_eq!(report.lines.len(), 6);
    assert_eq!(report.lines[1], "  ERR> 2");
    assert_eq!(
        report.message,
        "sing-box 启动后立即退出，可能配置有误或 sing-box.exe 不兼容。\n\n  ERR> 2\n  ERR> 3\n  ERR> 4\n  ERR> 5\n  ERR> 6"
    );
}

#[test]
fn log_files_are_put_away() {
    assert!(plan_rotation(None).is_empty());
    assert!(plan_rotation(Some(MAX_LOG_SIZE)).is_empty());
    assert_eq!(
        plan_rotation(Some(MAX_LOG_SIZE + 1)),
        vec![
            RotationStep::Remove(3),
            RotationStep::Rename(2, 3),
            RotationStep::Rename(1, 2),
            RotationStep::Rename(0, 1),
        ]
    );
    assert_eq!(MAX_LOG_SIZE, 5 * 1024 * 1024);
    assert_eq!(log_extension(0), "log");
    assert_eq!(log_extension(3), "log.3");
}

#[test]
fn traffic_is_kept() {
    let mut st = state();
    assert_eq!(st.flush_traffic_if_dirty(), None);
    st.status.up_total = u64::MAX;
    st.status.down_total = 7;
    st.mark_traffic_dirty();
    let file = st.flush_traffic_if_dirty().unwrap();
    assert_eq!(file, r#"{"up_total":18446744073709551615,"down_total":7}"#);
    assert_eq!(load_traffic_file(Some(&file)), (u64::MAX, 7));
    assert_eq!(st.flush_traffic_if_dirty(), None);
    assert_eq!(load_traffic_file(None), (0, 0));
    assert_eq!(load_traffic_file(Some("{")), (0, 0));
    assert_eq!(load_traffic_file(Some(r#"{"up_total":-1,"down_total":"x"}"#)), (0, 0));
    assert_eq!(read_totals(&parse_json(r#"{"down_total":2}"#).unwrap()), (0, 2));
}

#[test]
fn requests() {
    assert_eq!(
        request_text("/traffic", 9090),
        "GET /traffic HTTP/1.1\r\nHost: 127.0.0.1:9090\r\nAccept: */*\r\nConnection: close\r\n\r\n"
    );
}

#[test]
fn objects_in_replies() {
    let found = |s: &str| find_object(&s.as_bytes().to_vec()).map(|(a, b)| s[a..b].to_string());
    assert_eq!(found(""), None);
    assert_eq!(found("HTTP/1.1 200 OK\r\n\r\n"), None);
    assert_eq!(found("a{b\r\n\r\nx{\"up\":1}\n{"), Some("{\"up\":1}".to_string()));
    assert_eq!(found("{\"up\""), None);
    assert_eq!(found("{{}}}"), Some("{{}}".to_string()));
    let texts = r#"x{"a":"}\"}\\","b":{}}y"#;
    assert_eq!(found(texts), Some(r#"{"a":"}\"}\\","b":{}}"#.to_string()));
    assert_eq!(found("}{}"), Some("{}".to_string()));
    assert_eq!(first_json(&b"{x}{}".to_vec()), None);
    assert_eq!(read_bytes(&b"7".to_vec()).unwrap().as_u64(), Some(7));
    assert_eq!(read_bytes(&vec![0xff]), None);
    assert_eq!(read_bytes(&vec![34, 0xff, 34]).unwrap().as_str(), Some("\u{fffd}"));
}

#[test]
fn replies_in_pieces() {
    let reply = b"HTTP/1.1 200 OK\r\nX: {}\r\n\r\n9\r\n{\"up\":1,\"down\":2}\r\n{\"up\":3}";
    for cut in 0..reply.len() {
        let mut buf: Vec<u8> = Vec::new();
        let first = absorb(&mut buf, &reply[..cut]);
        let doc = match first {
            Progress::Found(doc) => doc,
            Progress::More => match absorb(&mut buf, &reply[cut..]) {
                Progress::Found(doc) => doc,
                other => panic!("{:?}", other),
            },
            Progress::GiveUp => panic!("gave up"),
        };
        if cut < 20 || cut >= 30 {
            assert_eq!(read_speeds(&doc), (1, 2), "{}", cut);
        }
    }
    let mut buf: Vec<u8> = Vec::new();
    assert_eq!(absorb(&mut buf, &vec![b'a'; 2_000_000]), Progress::More);
    assert_eq!(absorb(&mut buf, b"b"), Progress::GiveUp);
    assert_eq!(buf.len(), 2_000_001);
}

#[test]
fn replies_in_pieces_of_any_size() {
    let reply = b"HTTP/1.1 200 OK\r\nA: b\r\n\r\n{\"up\":1,\"down\":2}{\"up\":3}\n";
    for size in 1..=reply.len() {
        let mut buf: Vec<u8> = Vec::new();
        let mut found = None;
        for piece in reply.chunks(size) {
            match absorb(&mut buf, piece) {
                Progress::Found(doc) => {
                    found = Some(read_speeds(&doc));
                    break;
                }
                Progress::More => {}
                Progress::GiveUp => panic!("gave up"),
            }
        }
        assert_eq!(found, Some((1, 2)), "{}", size);
    }
}

#[test]
fn what_replies_say() {
    let asked = RefCell::new(String::new());
    let got = fetch_traffic(|p: &str| {
        *asked.borrow_mut() = p.to_string();
        parse_json(r#"{"up":5,"down":6}"#).ok()
    });
    assert_eq!(got, Some((5, 6)));
    assert_eq!(*asked.borrow(), "/traffic");
    let got = fetch_connections(|p: &str| {
        *asked.borrow_mut() = p.to_string();
        parse_json(r#"{"uploadTotal":1,"downloadTotal":2,"connections":[1,2,3]}"#).ok()
    });
    assert_eq!(got, Some((1, 2, 3)));
    assert_eq!(*asked.borrow(), "/connections");
    assert_eq!(fetch_traffic(|_p: &str| None), None);
    assert_eq!(fetch_connections(|_p: &str| None), None);
    assert_eq!(read_speeds(&parse_json(r#"{"up":-1}"#).unwrap()), (0, 0));
    assert_eq!(read_connections(&parse_json(r#"{"connections":null}"#).unwrap()), (0, 0, 0));
}

#[test]
fn servers_of_links() {
    let server = |l: &str| extract_server_from_link(l);
    let is = |h: &str, p: u16| Some((h.to_string(), p));
    assert_eq!(server("vless://u@h.example:8443?x#n"), is("h.example", 8443));
    assert_eq!(server("trojan://p@h.example?x:1"), is("h.example", 443));
    assert_eq!(server("vless://u@h.example:1#n"), is("h.example", 1));
    assert_eq!(server("trojan://pw@5.6.7.8:8443#NodeB"), is("5.6.7.8", 8443));
    assert_eq!(server("trojan://pw@5.6.7.8:8443?sni=b.com#NodeB"), is("5.6.7.8", 8443));
    assert_eq!(server("trojan://pw@5.6.7.8#NodeB"), is("5.6.7.8", 443));
    assert_eq!(server("vless://u@h.example:1#n?x:2"), is("h.example", 1));
    assert_eq!(server("vless://u@a@b:1"), is("a", 443));
    assert_eq!(server("vless://u@h:99999"), is("h", 443));
    assert_eq!(server("vless://u@h:1:2"), is("h", 1));
    assert_eq!(server("vless://u@"), is("", 443));
    assert_eq!(server("vless://nothing"), None);
    assert_eq!(server("VLESS://u@h:1"), None);
    assert_eq!(server("ss://u@h:1"), None);
    let vmess = |data: &str| server(&format!("vmess://{}#n", STANDARD.encode(data)));
    assert_eq!(vmess(r#"{"add":"a","port":65537}"#), is("a", 1));
    assert_eq!(vmess(r#"{"add":"a","port":"1"}"#), is("a", 443));
    assert_eq!(vmess(r#"{"port":1}"#), None);
    assert_eq!(vmess("nothing"), None);
    assert_eq!(server("vmess://!"), None);
    assert_eq!(server(&format!("vmess://{}", STANDARD.encode([0xffu8]))), None);
    assert_eq!(find_server("u@h:2"), is("h", 2));
    assert_eq!(server_from_data(&parse_json(r#"{"add":"a"}"#).unwrap()), is("a", 443));
    assert_eq!(read_data(Ok(b"7".to_vec())).unwrap().as_u64(), Some(7));
    assert_eq!(read_data(Err("x".to_string())), None);
}

#[test]
fn how_measuring_goes_on() {
    assert_eq!(next_attempt(&vec![]), Attempt::Again);
    assert_eq!(next_attempt(&vec![Some(30), Some(20)]), Attempt::Again);
    assert_eq!(next_attempt(&vec![Some(30), Some(20), Some(25)]), Attempt::Done(Some(20)));
    assert_eq!(next_attempt(&vec![Some(0), Some(20), Some(25)]), Attempt::Done(Some(0)));
    assert_eq!(next_attempt(&vec![None]), Attempt::Done(None));
    assert_eq!(next_attempt(&vec![Some(1), None]), Attempt::Done(None));
    assert_eq!(next_attempt(&vec![Some(1), Some(2), None]), Attempt::Done(None));
}

#[test]
fn measuring() {
    let link = "vless://u@h.example:8443";
    let times = Cell::new(0usize);
    let samples = [30u64, 10, 20];
    let best = AppState::measure_latency(link, |h: &str, p: u16| {
        assert_eq!((h, p), ("h.example", 8443));
        times.set(times.get() + 1);
        Some(samples[times.get() - 1])
    });
    assert_eq!(best, Some(10));
    assert_eq!(times.get(), 3);
    let times = Cell::new(0usize);
    let failed = AppState::measure_latency(link, |_h: &str, _p: u16| {
        times.set(times.get() + 1);
        if times.get() == 2 { None } else { Some(1) }
    });
    assert_eq!(failed, None);
    assert_eq!(times.get(), 2);
    let never = |_h: &str, _p: u16| -> Option<u64> { panic!("connected") };
    assert_eq!(AppState::measure_latency("ss://x", never), None);
}

#[test]
fn the_system_proxy() {
    let mut st = state();
    let seen = RefCell::new(Vec::new());
    let write = |c: &RegistryChange| {
        seen.borrow_mut().push(format!("{:?}", c));
        Ok(())
    };
    assert_eq!(st.set_system_proxy(true, &write), Ok(()));
    assert!(st.system_proxy);
    assert_eq!(
        *seen.borrow(),
        vec![
            format!("{:?}", RegistryChange::ProxyEnable(1)),
            format!("{:?}", RegistryChange::ProxyServer("127.0.0.1:2080".to_string())),
        ]
    );
    seen.borrow_mut().clear();
    assert_eq!(st.set_system_proxy(false, &write), Ok(()));
    assert!(!st.system_proxy);
    assert_eq!(*seen.borrow(), vec![format!("{:?}", RegistryChange::ProxyEnable(0))]);
    let refuse = |c: &RegistryChange| match c {
        RegistryChange::ProxyServer(_) => Err("no".to_string()),
        _ => Ok(()),
    };
    assert_eq!(st.set_system_proxy(true, &refuse), Err("no".to_string()));
    assert!(!st.system_proxy);
}

#[test]
fn only_its_own_proxy_is_turned_off() {
    let mut st = state();
    let own = || Some("127.0.0.1:2080".to_string());
    assert!(!st.cleanup_proxy_on_exit(own));
    st.system_proxy = true;
    assert!(st.cleanup_proxy_on_exit(own));
    assert!(!st.cleanup_proxy_on_exit(|| Some("127.0.0.1:7890".to_string())));
    assert!(!st.cleanup_proxy_on_exit(|| None));
    assert_eq!(st.proxy_address(), "127.0.0.1:2080");
    assert!(st.owns_proxy(Some("127.0.0.1:2080")));
    assert!(!st.owns_proxy(None));
    assert!(st.cleanup_dangling_proxy(true, Some("127.0.0.1:2080"), || false));
    assert!(!st.cleanup_dangling_proxy(true, Some("127.0.0.1:2080"), || true));
    let never = || -> bool { panic!("tried") };
    assert!(!st.cleanup_dangling_proxy(false, Some("127.0.0.1:2080"), never));
    assert!(!st.cleanup_dangling_proxy(true, Some("127.0.0.1:7890"), never));
    assert!(!st.cleanup_dangling_proxy(true, None, never));
    assert!(is_system_proxy_enabled(Some(1)));
    assert!(!is_system_proxy_enabled(Some(2)));
    assert!(!is_system_proxy_enabled(None));
}

#[test]
fn the_start_at_logon() {
    let mut st = state();
    let seen = RefCell::new(String::new());
    let write = |c: &RegistryChange| {
        *seen.borrow_mut() = format!("{:?}", c);
        Ok(())
    };
    assert_eq!(st.set_autostart(true, "C:\\x.exe", &write), Ok(()));
    assert!(st.autostart);
    assert_eq!(*seen.borrow(), format!("{:?}", RegistryChange::RunEntry(Some("C:\\x.exe".to_string()))));
    let refuse = |_c: &RegistryChange| Err("no".to_string());
    assert_eq!(st.set_autostart(false, "x", &refuse), Err("no".to_string()));
    assert!(st.autostart);
    assert_eq!(st.set_autostart(false, "x", &write), Ok(()));
    assert_eq!(*seen.borrow(), format!("{:?}", RegistryChange::RunEntry(None)));
}

#[test]
fn texts_of_the_registry() {
    let units = |s: &str| s.encode_utf16().collect::<Vec<u16>>();
    assert_eq!(text_held(&units(" a东🌐 \u{0}rest")).as_deref(), Some("a东🌐"));
    assert_eq!(text_held(&units(" \u{0}rest")), None);
    assert_eq!(text_held(&units("")), None);
    assert_eq!(text_held(&vec![0xd800, 0x61]).as_deref(), Some("\u{fffd}a"));
    assert_eq!(
        text_held(&vec![0x61, 0xdc00, 0xd83c, 0xdf10, 0xd800, 0xd800]).as_deref(),
        Some("a\u{fffd}🌐\u{fffd}\u{fffd}")
    );
    assert_eq!(until_zero(&vec![1, 2, 0, 3]), vec![1, 2]);
    assert_eq!(unless_blank(" x ").as_deref(), Some("x"));
    assert_eq!(unless_blank("\t"), None);
}

#[test]
fn codes_of_the_registry() {
    assert_eq!(write_result(0), Ok(()));
    assert_eq!(write_result(5).unwrap_err(), "写入注册表失败 (code 5)");
    assert_eq!(write_result(i32::MIN).unwrap_err(), "写入注册表失败 (code -2147483648)");
    assert_eq!(delete_result(0), Ok(()));
    assert_eq!(delete_result(2), Ok(()));
    assert_eq!(delete_result(-7).unwrap_err(), "删除注册表值失败 (code -7)");
}

#[test]
fn commands() {
    assert_eq!(logon_cleanup_command("C:\\a b.exe"), "\"C:\\a b.exe\" --cleanup");
    assert_eq!(
        elevation_command("C:\\a.exe", "C:\\"),
        "Start-Process -FilePath 'C:\\a.exe' -Verb RunAs -WorkingDirectory 'C:\\'"
    );
}

#[test]
fn only_the_oldest_log_is_lost() {
    let mut files: HashMap<u64, &str> = HashMap::new();
    for (n, text) in [(0u64, "log"), (1, "one"), (2, "two"), (3, "three"), (9, "other")] {
        files.insert(n, text);
    }
    for step in plan_rotation(Some(MAX_LOG_SIZE + 1)) {
        match step {
            RotationStep::Remove(n) => {
                files.remove(&n);
            }
            RotationStep::Rename(from, to) => {
                if let Some(text) = files.remove(&from) {
                    files.insert(to, text);
                }
            }
        }
    }
    let mut left: Vec<(u64, &str)> = files.into_iter().collect();
    left.sort();
    assert_eq!(left, vec![(1, "log"), (2, "one"), (3, "two"), (9, "other")]);
}
