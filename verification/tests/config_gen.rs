use base64::engine::general_purpose::{STANDARD, URL_SAFE_NO_PAD};
use base64::Engine;
use serde_json::Value;
use singbox_commander::config_gen::{
    apply_settings, checked_template, generate_config, has_lower_case_vmess, outbound_from_url, parse_link,
    vmess_from_data, vmess_outbound, Settings, UrlParts, BASE_CONFIG,
};
use singbox_commander::json::{parse_json, to_string_pretty, Json};

fn parsed(link: &str) -> Value {
    parsed_with(link, true, "rule")
}

fn parsed_with(link: &str, use_tun: bool, route_mode: &str) -> Value {
    let out = generate_config(link, use_tun, 2080, 9090, route_mode).expect("generate failed");
    serde_json::from_str(&out).expect("invalid json")
}

fn outbound(link: &str) -> Value {
    let out = to_string_pretty(&parse_link(link).expect("no outbound")).expect("no text");
    serde_json::from_str(&out).expect("invalid json")
}

fn value(text: &str) -> Value {
    serde_json::from_str(text).expect("invalid json")
}

fn vmess(data: &str) -> String {
    format!("vmess://{}#VMNode", STANDARD.encode(data))
}

#[test]
fn vless_ws_tls() {
    let link = "vless://11111111-2222-3333-4444-555555555555@1.2.3.4:443?type=ws&security=tls&sni=example.com&path=%2Fws&host=cdn.example.com&fp=chrome#MyNode";
    let v = parsed(link);
    let outbounds = v.get("outbounds").unwrap().as_array().unwrap();
    let proxy = outbounds
        .iter()
        .find(|o| o.get("tag").unwrap() == "proxy")
        .unwrap();
    assert_eq!(proxy.get("type").unwrap(), "vless");
    assert_eq!(proxy.get("server").unwrap(), "1.2.3.4");
    assert_eq!(proxy.get("server_port").unwrap(), 443);
    assert_eq!(proxy.get("uuid").unwrap(), "11111111-2222-3333-4444-555555555555");
    assert!(proxy.get("tls").is_some());
    assert_eq!(proxy["tls"]["server_name"], "example.com");
    assert_eq!(proxy["transport"]["type"], "ws");
    assert_eq!(proxy["transport"]["path"], "/ws");
    let dns_rules = v["dns"]["rules"].as_array().unwrap();
    assert!(dns_rules.iter().any(|r| r.get("domain").map(|d| d[0] == "1.2.3.4").unwrap_or(false)));
}

#[test]
fn trojan_basic() {
    let link = "trojan://secretpass@5.6.7.8:8443?sni=edge.net&security=tls#TrojanNode";
    let v = parsed(link);
    let outbounds = v.get("outbounds").unwrap().as_array().unwrap();
    let proxy = outbounds
        .iter()
        .find(|o| o.get("tag").unwrap() == "proxy")
        .unwrap();
    assert_eq!(proxy.get("type").unwrap(), "trojan");
    assert_eq!(proxy.get("password").unwrap(), "secretpass");
    assert_eq!(proxy.get("server").unwrap(), "5.6.7.8");
    assert!(proxy.get("tls").is_some());
}

#[test]
fn vmess_b64() {
    let raw = r#"{"add":"vm.example.com","port":443,"id":"uuid-1","aid":0,"scy":"auto","net":"ws","path":"/v","host":"h.example.com","tls":"tls","sni":"vm.example.com","fp":"chrome"}"#;
    let b64 = STANDARD.encode(raw);
    let link = format!("vmess://{}#VMNode", b64);
    let v = parsed(&link);
    let outbounds = v.get("outbounds").unwrap().as_array().unwrap();
    let proxy = outbounds
        .iter()
        .find(|o| o.get("tag").unwrap() == "proxy")
        .unwrap();
    assert_eq!(proxy.get("type").unwrap(), "vmess");
    assert_eq!(proxy.get("server").unwrap(), "vm.example.com");
    assert_eq!(proxy.get("uuid").unwrap(), "uuid-1");
    assert_eq!(proxy["transport"]["type"], "ws");
    assert!(proxy.get("tls").is_some());
}

#[test]
fn invalid_link_errors() {
    assert!(parse_link("").is_err());
    assert!(parse_link("http://not-a-node").is_err());
}

#[test]
fn api_port_written() {
    let link = "vless://11111111-2222-3333-4444-555555555555@1.2.3.4:443?sni=example.com#MyNode";
    let out = generate_config(link, true, 2081, 9091, "rule").expect("generate failed");
    let v: Value = serde_json::from_str(&out).expect("invalid json");
    assert_eq!(
        v["experimental"]["clash_api"]["external_controller"],
        "127.0.0.1:9091",
        "clash_api external_controller 未使用传入的 api 端口"
    );
    let inbounds = v.get("inbounds").unwrap().as_array().unwrap();
    let mixed = inbounds
        .iter()
        .find(|i| i.get("tag").unwrap() == "mixed-in")
        .unwrap();
    assert_eq!(mixed.get("listen_port").unwrap(), 2081);
}

#[test]
fn no_remark_field_in_outbound() {
    let vless = "vless://11111111-2222-3333-4444-555555555555@1.2.3.4:443?sni=example.com#MyNode";
    let trojan = "trojan://secretpass@5.6.7.8:8443?sni=edge.net#TrojanNode";
    let vm = {
        let raw = r#"{"add":"vm.example.com","port":443,"id":"uuid-1","aid":0,"scy":"auto","net":"ws","path":"/v","host":"h.example.com","tls":"tls","sni":"vm.example.com","fp":"chrome"}"#;
        format!("vmess://{}#VMNode", STANDARD.encode(raw))
    };
    for link in [vless, trojan, &vm] {
        let v = parsed(link);
        let proxy = v["outbounds"]
            .as_array()
            .unwrap()
            .iter()
            .find(|o| o.get("tag").unwrap() == "proxy")
            .unwrap();
        assert!(
            proxy.get("remark").is_none(),
            "proxy outbound 仍含 remark 字段（link={}）",
            link
        );
        assert_eq!(proxy.get("tag").unwrap(), "proxy");
    }
}

#[test]
fn tun_off_removes_tun_inbound() {
    let link = "vless://11111111-2222-3333-4444-555555555555@1.2.3.4:443?sni=example.com#MyNode";
    let v = parsed_with(link, false, "rule");
    let inbounds = v.get("inbounds").unwrap().as_array().unwrap();
    assert!(
        !inbounds
            .iter()
            .any(|i| i.get("type").and_then(|t| t.as_str()) == Some("tun")),
        "关闭 TUN 后仍残留 tun 入站"
    );
    let rules = v["route"]["rules"].as_array().unwrap();
    let sniff = rules
        .iter()
        .find(|r| r.get("action").and_then(|a| a.as_str()) == Some("sniff"));
    if let Some(sniff) = sniff {
        let inbound = sniff.get("inbound").and_then(|i| i.as_array());
        assert!(
            inbound.map(|arr| arr.iter().all(|x| x.as_str() != Some("tun-in"))).unwrap_or(true),
            "关闭 TUN 后路由仍引用 tun-in"
        );
    }
    let v2 = parsed_with(link, true, "rule");
    let inbounds2 = v2.get("inbounds").unwrap().as_array().unwrap();
    assert!(
        inbounds2
            .iter()
            .any(|i| i.get("type").and_then(|t| t.as_str()) == Some("tun")),
        "开启 TUN 时未保留 tun 入站"
    );
}

#[test]
fn global_mode_routes_all_through_proxy() {
    let link = "vless://11111111-2222-3333-4444-555555555555@1.2.3.4:443?sni=example.com#MyNode";
    let out = generate_config(link, true, 2080, 9090, "global").expect("generate failed");
    let v: Value = serde_json::from_str(&out).expect("invalid json");
    let rules = v["route"]["rules"].as_array().unwrap();

    assert!(
        !rules.iter().any(|r| r
            .get("rule_set")
            .and_then(|x| x.as_array())
            .map(|a| a.iter().any(|e| e.as_str() == Some("geosite-cn") || e.as_str() == Some("geoip-cn")))
            .unwrap_or(false)),
        "全局模式下仍残留中国直连规则"
    );
    assert_eq!(v["route"]["final"], "proxy");
    assert!(
        rules.iter().any(|r| r.get("ip_is_private").and_then(|x| x.as_bool()).unwrap_or(false)),
        "全局模式不应移除私有网段直连"
    );
    assert_eq!(v["experimental"]["clash_api"]["default_mode"], "global");
    let dns_rules = v["dns"]["rules"].as_array().unwrap();
    let cn_dns = dns_rules
        .iter()
        .find(|r| r.get("rule_set").and_then(|x| x.as_str()) == Some("geosite-cn"));
    assert_eq!(
        cn_dns.and_then(|r| r.get("server")).and_then(|s| s.as_str()),
        Some("dns_proxy"),
        "全局模式下中国域名 DNS 未改走代理"
    );
}

#[test]
fn each_wrong_link_has_its_message() {
    assert_eq!(parse_link("").unwrap_err(), "链接为空");
    assert_eq!(parse_link(" \t\r\n").unwrap_err(), "链接为空");
    let unknown = "格式未能识别！目前仅支持 vmess://、vless:// 或 trojan:// 分享链接";
    assert_eq!(parse_link("ss://abc").unwrap_err(), unknown);
    assert_eq!(parse_link("vless:/x").unwrap_err(), unknown);
    assert_eq!(
        parse_link("vless://user@host:99999").unwrap_err(),
        "链接格式无效，请检查是否完整"
    );
    assert_eq!(
        parse_link("trojan://[::1").unwrap_err(),
        "链接格式无效，请检查是否完整"
    );
    assert_eq!(parse_link(&vmess(r#"{"id":"u"}"#)).unwrap_err(), "VMess 缺少 add");
    assert_eq!(parse_link(&vmess(r#"{"add":7,"id":"u"}"#)).unwrap_err(), "VMess 缺少 add");
    assert_eq!(parse_link(&vmess(r#"{"add":"a"}"#)).unwrap_err(), "VMess 缺少 id");
    let odd = "VMess 解析失败：节点数据格式异常";
    assert_eq!(parse_link(&vmess("[1,2]")).unwrap_err(), odd);
    assert_eq!(parse_link(&vmess("not json")).unwrap_err(), odd);
    let broken = parse_link("vmess://a").unwrap_err();
    assert!(broken.starts_with("Base64 解码失败，请检查节点链接是否完整正确: "));
    let bytes = format!("vmess://{}", STANDARD.encode([0xffu8, 0xfe]));
    let no_text = parse_link(&bytes).unwrap_err();
    assert!(no_text.starts_with("节点内容不是有效 UTF-8: "));
}

#[test]
fn schemes_in_any_case_but_that_of_vmess() {
    assert_eq!(outbound("VLESS://u@h.example:1")["type"], "vless");
    assert_eq!(outbound("  tRoJaN://p@h.example:1 ")["type"], "trojan");
    assert!(has_lower_case_vmess("vmess://abc"));
    assert!(!has_lower_case_vmess(" VMess://abc"));
    assert!(has_lower_case_vmess("VLESS://abc"));
    assert!(has_lower_case_vmess(""));
}

#[test]
fn no_other_character_lowers_to_a_letter_of_a_scheme() {
    for u in 0x80u32..=0x10ffff {
        if let Some(c) = char::from_u32(u) {
            for l in c.to_lowercase() {
                assert!(!"vmesltrojan:/".contains(l), "{:?}", c);
            }
        }
    }
}

#[test]
fn vless_in_full() {
    let link = "vless://uu@h.example:8443?type=grpc&serviceName=svc&path=/p&security=reality&pbk=key&sid=ab&flow=xtls&fp=firefox&alpn=h3,h2&sni=s.example#n";
    let expected = value(
        r#"{"type":"vless","tag":"proxy","server":"h.example","server_port":8443,"uuid":"uu","flow":"xtls",
            "packet_encoding":"xudp","tcp_fast_open":true,
            "tls":{"enabled":true,"server_name":"s.example","utls":{"enabled":true,"fingerprint":"firefox"},
                   "alpn":["h3","h2"],"reality":{"enabled":true,"public_key":"key","short_id":"ab"}},
            "transport":{"type":"grpc","service_name":"svc"}}"#,
    );
    assert_eq!(outbound(link), expected);
}

#[test]
fn trojan_defaults() {
    let expected = value(
        r#"{"type":"trojan","tag":"proxy","server":"h.example","server_port":443,"password":"pw",
            "packet_encoding":"xudp","tcp_fast_open":true,
            "tls":{"enabled":true,"server_name":"h.example","utls":{"enabled":true,"fingerprint":"chrome"},
                   "alpn":["h2","http/1.1"]}}"#,
    );
    assert_eq!(outbound("trojan://pw@h.example"), expected);
    let plain = outbound("trojan://pw@h.example?security=none");
    assert!(plain.get("tls").is_none());
    let vless = outbound("vless://pw@h.example");
    assert!(vless.get("tls").is_none());
    assert!(vless.get("flow").is_none());
}

#[test]
fn transports_of_urls() {
    let ws = outbound("vless://u@h.example:1?type=ws");
    assert_eq!(ws["transport"], value(r#"{"type":"ws","path":"/","headers":{}}"#));
    let ws = outbound("vless://u@h.example:1?type=ws&path=/a&host=b");
    assert_eq!(ws["transport"], value(r#"{"type":"ws","path":"/a","headers":{"Host":"b"}}"#));
    let grpc = outbound("vless://u@h.example:1?type=grpc&path=fallback");
    assert_eq!(grpc["transport"], value(r#"{"type":"grpc","service_name":"fallback"}"#));
    let grpc = outbound("vless://u@h.example:1?type=grpc");
    assert_eq!(grpc["transport"], value(r#"{"type":"grpc","service_name":""}"#));
    let http = outbound("vless://u@h.example:1?type=h2");
    assert_eq!(
        http["transport"],
        value(r#"{"type":"http","host":["h.example"],"path":"/","method":"GET"}"#)
    );
    let http = outbound("vless://u@h.example:1?type=http&host=x&path=/y&method=PUT");
    assert_eq!(
        http["transport"],
        value(r#"{"type":"http","host":["x"],"path":"/y","method":"PUT"}"#)
    );
    assert!(outbound("vless://u@h.example:1?type=tcp").get("transport").is_none());
}

#[test]
fn the_last_of_a_repeated_parameter_counts() {
    let v = outbound("vless://u@h.example:1?security=tls&sni=a&sni=b");
    assert_eq!(v["tls"]["server_name"], "b");
    let url = UrlParts {
        host: None,
        port: None,
        username: "u".to_string(),
        query: vec![
            ("k".to_string(), "1".to_string()),
            ("k".to_string(), "2".to_string()),
        ],
    };
    assert_eq!(url.param("k"), Some("2"));
    assert_eq!(url.param("l"), None);
    assert_eq!(url.host_text(), "");
    let out = outbound_from_url(&url, false);
    assert_eq!(out.get_str("server"), Some(""));
}

#[test]
fn vmess_in_full() {
    let raw = r#"{"add":"a.example","port":8443,"id":"u","scy":"zero","net":"h2","path":"/p","host":"h.example","tls":"tls","alpn":"h3","method":"PUT"}"#;
    let expected = value(
        r#"{"type":"vmess","tag":"proxy","server":"a.example","server_port":8443,"uuid":"u","security":"zero",
            "packet_encoding":"xudp","tcp_fast_open":true,
            "tls":{"enabled":true,"server_name":"h.example","utls":{"enabled":true,"fingerprint":"chrome"},"alpn":["h3"]},
            "transport":{"type":"http","host":["h.example"],"path":"/p","method":"PUT"}}"#,
    );
    assert_eq!(outbound(&vmess(raw)), expected);
    let bare = outbound(&vmess(r#"{"add":"a.example","id":"u"}"#));
    let expected = value(
        r#"{"type":"vmess","tag":"proxy","server":"a.example","server_port":443,"uuid":"u","security":"auto",
            "packet_encoding":"xudp","tcp_fast_open":true}"#,
    );
    assert_eq!(bare, expected);
}

#[test]
fn server_names_of_vmess() {
    let name = |raw: &str| outbound(&vmess(raw))["tls"]["server_name"].clone();
    assert_eq!(name(r#"{"add":"a","id":"u","tls":"tls"}"#), "a");
    assert_eq!(name(r#"{"add":"a","id":"u","tls":"tls","host":"h"}"#), "h");
    assert_eq!(name(r#"{"add":"a","id":"u","tls":"tls","host":"h","sni":"s"}"#), "s");
    assert_eq!(name(r#"{"add":"a","id":"u","tls":"tls","host":"h","sni":5}"#), "a");
}

#[test]
fn ports_of_vmess_keep_sixteen_bits() {
    let port = |p: &str| {
        let raw = format!(r#"{{"add":"a","id":"u","port":{}}}"#, p);
        outbound(&vmess(&raw))["server_port"].clone()
    };
    for n in [0i64, 443, 65535, 65536, 70000, -1, -65536, -65537, i64::MIN, i64::MAX] {
        assert_eq!(port(&n.to_string()), n as u16, "{}", n);
    }
    assert_eq!(port("18446744073709551615"), 443);
    assert_eq!(port("\"8443\""), 443);
    assert_eq!(port("1.5"), 443);
}

#[test]
fn vmess_data_may_be_url_safe_and_unpadded() {
    let raw = r#"{"add":"a.example","id":"??>>~~"}"#;
    let safe = URL_SAFE_NO_PAD.encode(raw);
    assert!(safe.contains('-') || safe.contains('_'));
    let out = outbound(&format!("vmess://{}", safe));
    assert_eq!(out["uuid"], "??>>~~");
    let spread = STANDARD.encode(raw).replace('e', "e\n ");
    assert_eq!(outbound(&format!("vmess://{}", spread))["uuid"], "??>>~~");
}

#[test]
fn vmess_from_what_was_read() {
    let node = parse_json(r#"{"add":"a","id":"u"}"#).unwrap();
    let out = vmess_outbound(&node).unwrap();
    assert_eq!(out.get_str("server"), Some("a"));
    assert_eq!(vmess_from_data(Ok(node)).unwrap(), out);
    let odd = "VMess 解析失败：节点数据格式异常";
    assert_eq!(vmess_from_data(Ok(Json::Null)).unwrap_err(), odd);
    assert_eq!(vmess_from_data(Err("why".to_string())).unwrap_err(), odd);
}

#[test]
fn settings_in_another_template() {
    let template = r#"{
        "outbounds": [{"tag":"proxy","server":"old.example"}, {"tag":"direct"}, {"tag":"proxy","server":"x"}],
        "inbounds": [{"tag":"mixed-in","type":"mixed"}, {"type":"tun"}, 7],
        "dns": {"rules": [{"domain":["old.example","keep"]}, {"domain":"old.example"}, {"rule_set":"geosite-cn"}]},
        "route": {"rules": [{"inbound":["tun-in"]}, {"inbound":["a","tun-in"]}, {"inbound":"tun-in"},
                            {"rule_set":["x","geoip-cn"]}, {"rule_set":"geosite-cn"}], "final":"proxy"},
        "experimental": {"clash_api": {"a":1}},
        "log": {"level":"info"}
    }"#;
    let proxy = parse_json(r#"{"tag":"proxy","server":"new.example"}"#).unwrap();
    let mut doc = parse_json(template).unwrap();
    let s = Settings { use_tun: false, listen_port: 1, api_port: 65535, global: true };
    apply_settings(&mut doc, &proxy, &s);
    let expected = value(
        r#"{
        "outbounds": [{"tag":"proxy","server":"new.example"}, {"tag":"direct"}, {"tag":"proxy","server":"new.example"}],
        "inbounds": [{"tag":"mixed-in","type":"mixed","listen_port":1}, 7],
        "dns": {"rules": [{"domain":["new.example","keep"]}, {"domain":"old.example"}, {"rule_set":"geosite-cn","server":"dns_proxy"}]},
        "route": {"rules": [{}, {"inbound":["a"]}, {"inbound":"tun-in"}, {"rule_set":"geosite-cn"}], "final":"proxy"},
        "experimental": {"clash_api": {"a":1,"external_controller":"127.0.0.1:65535","default_mode":"global"}},
        "log": {"level":"info"}
    }"#,
    );
    assert_eq!(value(&to_string_pretty(&doc).unwrap()), expected);
}

#[test]
fn settings_that_change_nothing_else() {
    let link = "vless://u@h.example:1";
    let v = parsed(link);
    let mut expected = value(BASE_CONFIG);
    expected["outbounds"][0] = outbound(link);
    expected["dns"]["rules"][2]["domain"][0] = Value::from("h.example");
    assert_eq!(v, expected);
}

#[test]
fn the_node_and_the_ports_alone_differ_from_the_template() {
    let link = "trojan://p@h.example:1#n";
    let text = generate_config(link, true, 2081, 9091, "anything").unwrap();
    let mut expected = value(BASE_CONFIG);
    expected["outbounds"][0] = outbound(link);
    expected["inbounds"][0]["listen_port"] = Value::from(2081);
    expected["experimental"]["clash_api"]["external_controller"] = Value::from("127.0.0.1:9091");
    expected["dns"]["rules"][2]["domain"][0] = Value::from("h.example");
    assert_eq!(value(&text), expected);
}

#[test]
fn only_private_traffic_passes_the_proxy_in_the_global_mode() {
    for use_tun in [true, false] {
        let v = parsed_with("vless://u@h.example:1", use_tun, "global");
        let rules = v["route"]["rules"].as_array().unwrap();
        let direct: Vec<&Value> = rules.iter().filter(|r| r["outbound"] == "direct").collect();
        assert_eq!(direct, vec![&value(r#"{"ip_is_private":true,"outbound":"direct"}"#)]);
        assert_eq!(rules.iter().filter(|r| r["outbound"] == "block").count(), 3);
        assert_eq!(rules.iter().filter(|r| r.get("action").is_some()).count(), 2);
        let v = parsed_with("vless://u@h.example:1", use_tun, "rule");
        let rules = v["route"]["rules"].as_array().unwrap();
        assert_eq!(rules.iter().filter(|r| r["outbound"] == "direct").count(), 5);
    }
    let mut doc = parse_json(
        r#"{"route":{"rules":[{"ip_is_private":false,"outbound":"direct"},{"ip_is_private":1,"outbound":"direct"},{"outbound":"proxy"}]}}"#,
    )
    .unwrap();
    let s = Settings { use_tun: true, listen_port: 1, api_port: 2, global: true };
    apply_settings(&mut doc, &Json::Null, &s);
    assert_eq!(
        value(&to_string_pretty(&doc).unwrap()),
        value(r#"{"route":{"rules":[{"outbound":"proxy"}]}}"#)
    );
}

#[test]
fn names_and_blanks_make_no_difference() {
    let data = r#"{"add":"a.example","id":"u"}"#;
    let vm = format!("vmess://{}", STANDARD.encode(data));
    for link in [vm.as_str(), "vless://u@h.example:1?type=ws", "trojan://p@h.example:1"] {
        for name in ["", "n", "a b", "x#y", "东京\t"] {
            assert_eq!(outbound(&format!(" \r\n{}#{}\n", link, name)), outbound(link));
        }
        assert_eq!(outbound(&format!("\u{3000}{}\t", link)), outbound(link));
    }
}

#[test]
fn templates_that_do_not_read_back() {
    let read = |text: &str| checked_template(parse_json(text));
    assert!(read(BASE_CONFIG).is_ok());
    assert!(read(r#"{"a":[1,-2,"x",null,{"b":true}]}"#).is_ok());
    assert_eq!(read(r#"{"a":[1.5]}"#), Err("模板无法原样读回".to_string()));
    assert_eq!(checked_template(Err("e".to_string())), Err("e".to_string()));
}

#[test]
fn wrong_links_make_no_configuration() {
    assert_eq!(generate_config("", true, 1, 2, "rule").unwrap_err(), "链接为空");
}

#[test]
fn configurations_read_back() {
    let link = "vless://u@h.example:1?type=ws&security=reality";
    for (use_tun, mode) in [(true, "rule"), (false, "rule"), (true, "global"), (false, "global")] {
        let text = generate_config(link, use_tun, 7, 8, mode).unwrap();
        let mut doc = parse_json(BASE_CONFIG).unwrap();
        let s = Settings { use_tun, listen_port: 7, api_port: 8, global: mode == "global" };
        apply_settings(&mut doc, &parse_link(link).unwrap(), &s);
        assert_eq!(to_string_pretty(&parse_json(&text).unwrap()).unwrap(), text);
        assert_eq!(to_string_pretty(&doc).unwrap(), text);
    }
}
