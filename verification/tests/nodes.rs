use singbox_commander::nodes::{
    extract_name, extract_server_hint, name_or_number, percent_decode, url_decode, NodeInfo, NodesStore, SavedNode,
    SavedNodes,
};

#[test]
fn extract_name_from_fragment() {
    assert_eq!(
        extract_name("vless://uuid@1.2.3.4:443?sni=test.com#Tokyo-01", 1),
        "Tokyo-01"
    );
}

#[test]
fn extract_name_url_encoded() {
    assert_eq!(
        extract_name("vless://uuid@1.2.3.4:443?sni=test.com#%E4%B8%9C%E4%BA%AC", 1),
        "东京"
    );
}

#[test]
fn extract_name_auto() {
    let name = extract_name("vmess://dGhpcyBpcyBhIHRlc3Q=#", 3);
    assert!(name.starts_with("节点3"));
}

#[test]
fn add_and_switch() {
    let mut store = NodesStore::default();
    store.add("vless://uuid@1.2.3.4:443?sni=a.com#NodeA");
    assert_eq!(store.nodes.len(), 1);
    assert_eq!(store.current, 0);
    assert_eq!(store.current_node().unwrap().name, "NodeA");

    store.add("trojan://pw@5.6.7.8:8443?sni=b.com#NodeB");
    assert_eq!(store.nodes.len(), 2);
    assert_eq!(store.current, 1);

    store.set_current(0);
    assert_eq!(store.current, 0);

    store.remove(0);
    assert_eq!(store.nodes.len(), 1);
    assert_eq!(store.current, 0);
    assert_eq!(store.current_node().unwrap().name, "NodeB");
}

#[test]
fn persistence_roundtrip() {
    let mut store = NodesStore::default();
    store.add("vless://uuid@1.2.3.4:443?sni=a.com#NodeA");
    store.add("trojan://pw@5.6.7.8:8443?sni=b.com#NodeB");
    store.set_current(1);

    let loaded = NodesStore::load(Some(store.save()));
    assert_eq!(loaded.nodes.len(), 2);
    assert_eq!(loaded.current, 1);
    assert_eq!(loaded.current_node().unwrap().name, "NodeB");
}

#[test]
fn nothing_saved() {
    let store = NodesStore::load(None);
    assert_eq!(store, NodesStore::default());
    assert!(store.nodes.is_empty());
    assert_eq!(store.current, 0);
    assert!(!store.use_tun());
    assert_eq!(store.route_mode, "");
    assert_eq!(store.route_mode(), "rule");
    assert!(store.current_node().is_none());
}

fn saved(count: usize, current: usize) -> SavedNodes {
    SavedNodes {
        nodes: (0..count)
            .map(|i| SavedNode { name: format!("n{}", i), link: format!("l{}", i) })
            .collect(),
        current,
        use_tun: None,
        route_mode: None,
    }
}

#[test]
fn loading_fills_in_and_clamps() {
    let store = NodesStore::load(Some(saved(2, 7)));
    assert_eq!(store.current, 1);
    assert!(store.use_tun());
    assert_eq!(store.route_mode, "rule");
    assert_eq!(store.nodes[1], NodeInfo { name: "n1".to_string(), link: "l1".to_string(), latency: 0 });
    assert_eq!(NodesStore::load(Some(saved(0, 7))).current, 0);
    assert_eq!(NodesStore::load(Some(saved(3, 1))).current, 1);
}

#[test]
fn saving_clamps_and_forgets_latencies() {
    let mut store = NodesStore::load(Some(saved(2, 1)));
    store.set_use_tun(false);
    store.set_route_mode("global");
    if let Some(n) = store.current_node_mut() {
        n.latency = 5;
    }
    assert_eq!(store.nodes[1].latency, 5);
    let kept = store.save();
    assert_eq!(kept.use_tun, Some(false));
    assert_eq!(kept.route_mode.as_deref(), Some("global"));
    let again = NodesStore::load(Some(kept));
    assert_eq!(again.nodes[1].latency, 0);
    assert_eq!(again.current, 1);
    assert_eq!(again.route_mode(), "global");
    store.current = 9;
    assert_eq!(store.save().current, 0);
}

#[test]
fn indices_out_of_bounds() {
    let mut store = NodesStore::load(Some(saved(2, 0)));
    assert!(!store.set_current(2));
    assert!(!store.remove(2));
    assert_eq!(store, NodesStore::load(Some(saved(2, 0))));
    assert!(store.set_current(1));
    assert!(store.remove(0));
    assert_eq!(store.current, 0);
    assert_eq!(store.current_node().unwrap().name, "n1");
    assert!(store.remove(0));
    assert!(store.nodes.is_empty());
    assert_eq!(store.current, 0);
    assert!(store.current_node_mut().is_none());
}

#[test]
fn removing_keeps_the_selected_index() {
    let mut store = NodesStore::load(Some(saved(4, 1)));
    store.remove(0);
    assert_eq!(store.current, 1);
    assert_eq!(store.current_node().unwrap().name, "n2");
    store.remove(2);
    assert_eq!(store.current_node().unwrap().name, "n2");
}

#[test]
fn adding_and_removing_again() {
    let mut store = NodesStore::load(Some(saved(2, 0)));
    store.add("vless://u@h.example:1#x");
    store.remove(2);
    assert_eq!(store.nodes, NodesStore::load(Some(saved(2, 0))).nodes);
}

#[test]
fn two_route_modes() {
    let mut store = NodesStore::default();
    for (given, kept) in [("global", "global"), ("rule", "rule"), ("Global", "rule"), ("", "rule")] {
        store.set_route_mode(given);
        assert_eq!(store.route_mode, kept);
        assert_eq!(store.route_mode(), kept);
    }
}

#[test]
fn escapes() {
    assert_eq!(url_decode("a%20b"), "a b");
    assert_eq!(url_decode("%41%"), "A%");
    assert_eq!(url_decode("%4"), "%4");
    assert_eq!(url_decode("%zz%41"), "%zzA");
    assert_eq!(url_decode("%+5x"), "%+5x");
    assert_eq!(url_decode("%+A"), "%+A");
    assert_eq!(url_decode("%A+"), "%A+");
    assert_eq!(url_decode("%-5x"), "%-5x");
    assert_eq!(url_decode("a+b"), "a+b");
    assert_eq!(url_decode("%ff"), "\u{fffd}");
    assert_eq!(url_decode("东京"), "东京");
    assert_eq!(percent_decode(b"%e4%B8%9c"), "东".as_bytes());
    for b in 0u8..=255 {
        assert_eq!(percent_decode(format!("%{:02X}", b).as_bytes()), vec![b]);
        assert_eq!(percent_decode(format!("%{:02x}", b).as_bytes()), vec![b]);
    }
}

#[test]
fn names_in_links() {
    assert_eq!(extract_name("x#a#b", 1), "b");
    assert_eq!(extract_name("vless://u@h.example:1?x#", 2), "节点2 (h.example)");
    assert_eq!(extract_name("", 3), "节点3 (未知)");
    assert_eq!(extract_name("x#%ff", 4), "\u{fffd}");
    assert_eq!(extract_name("x#%E4%b8%9C", 4), "东");
    assert_eq!(name_or_number(Some("n".to_string()), "l", 1), "n");
    assert_eq!(name_or_number(Some("".to_string()), "l", 10), "节点10 (l)");
    assert_eq!(name_or_number(None, "l", 1), "节点1 (l)");
}

#[test]
fn hints_of_servers() {
    assert_eq!(extract_server_hint("vless://u@h.example:1?x"), "h.example");
    assert_eq!(extract_server_hint("vless://u@h.example?x:1"), "h.example");
    assert_eq!(extract_server_hint("trojan://u@h.example#n"), "h.example");
    assert_eq!(extract_server_hint("trojan://u@:1"), "u@:1");
    assert_eq!(extract_server_hint("vmess://0123456789abcdefgh"), "0123456789abcde");
    assert_eq!(extract_server_hint("vmess://vmess://trojan://abc"), "abc");
    assert_eq!(extract_server_hint("trojan://vmess://abc"), "vmess://abc");
    assert_eq!(extract_server_hint("vless://"), "未知");
}
