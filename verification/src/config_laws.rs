//! What holds of every configuration, whatever the template, the link and the
//! settings are.
use vstd::prelude::*;

use crate::codec::base64_text;
use crate::config_gen::{
    alpn_view, config_text, configured, controller, edit_within, fits_global_mode, grpc_view,
    http_view, is_cn_rule, is_direct, is_no_tun, is_private, is_not_named_tun,
    link_view, name_is_apart, named_link, object, or_text, parsed_url, placeholder, proxied, renamed, rule_renamed, says, set_where, takes_name, tls_view, url_outbound, url_security, vmess_fields,
    vmess_payload, vmess_server_name, vmess_view, with_clash_api, with_global_mode, with_listen_port,
    with_proxy, with_server, with_transport, without_tun, without_tun_name, ws_view,
    Settings, UrlView,
};
use crate::json::{
    is_plain, lemma_set_same, parsed_json, rendered_json, text_view, texts_view, unsigned_view,
    JsonView,
};
use crate::text::{
    ascii_lower, has_prefix_ignoring_case, is_blank, is_white_space, law_blanks_trimmed,
    lemma_before, lemma_trimmed_after, lemma_trimmed_same, trimmed, trimmed_end,
};

verus! {

// ---- Outbounds ----

/// The keys of an outbound that are set after others are different from them.
proof fn lemma_outbound_keys()
    ensures
        "tag"@ != "transport"@,
        "tag"@ != "tls"@,
        "tag"@ != "flow"@,
        "tag"@ != "type"@,
        "tag"@ != "password"@,
        "tag"@ != "uuid"@,
        "tag"@ != "server"@,
        "tag"@ != "server_port"@,
        "tag"@ != "security"@,
        "tag"@ != "packet_encoding"@,
        "tag"@ != "tcp_fast_open"@,
        "server"@ != "transport"@,
        "server"@ != "tls"@,
        "server"@ != "flow"@,
        "server"@ != "type"@,
        "server"@ != "password"@,
        "server"@ != "uuid"@,
        "server"@ != "server_port"@,
        "server"@ != "security"@,
        "server"@ != "packet_encoding"@,
        "server"@ != "tcp_fast_open"@,
        "remark"@ != "transport"@,
        "remark"@ != "tls"@,
        "remark"@ != "flow"@,
        "remark"@ != "type"@,
        "remark"@ != "password"@,
        "remark"@ != "uuid"@,
        "remark"@ != "server"@,
        "remark"@ != "server_port"@,
        "remark"@ != "security"@,
        "remark"@ != "packet_encoding"@,
        "remark"@ != "tcp_fast_open"@,
        "remark"@ != "tag"@,
        "type"@ != "transport"@,
        "type"@ != "tls"@,
        "type"@ != "flow"@,
        "type"@ != "password"@,
        "type"@ != "uuid"@,
        "type"@ != "server"@,
        "type"@ != "server_port"@,
        "type"@ != "security"@,
        "type"@ != "packet_encoding"@,
        "type"@ != "tcp_fast_open"@,
        "uuid"@ != "transport"@,
        "uuid"@ != "tls"@,
        "uuid"@ != "flow"@,
        "uuid"@ != "security"@,
        "uuid"@ != "packet_encoding"@,
        "uuid"@ != "tcp_fast_open"@,
        "password"@ != "transport"@,
        "password"@ != "tls"@,
{
    reveal_strlit("tag");
    reveal_strlit("transport");
    reveal_strlit("tls");
    reveal_strlit("flow");
    reveal_strlit("type");
    reveal_strlit("password");
    reveal_strlit("uuid");
    reveal_strlit("server");
    reveal_strlit("server_port");
    reveal_strlit("security");
    reveal_strlit("packet_encoding");
    reveal_strlit("tcp_fast_open");
    reveal_strlit("remark");
    assert("tag"@.len() == 3 && "password"@.len() == 8 && "packet_encoding"@.len() == 15);
    assert("tag"@[1] == 'a' && "tls"@[1] == 'l');
    assert("type"@.len() == 4 && "uuid"@.len() == 4 && "flow"@.len() == 4);
    assert("type"@[0] == 't' && "uuid"@[0] == 'u' && "flow"@[0] == 'f');
    assert("security"@.len() == 8 && "transport"@.len() == 9 && "tcp_fast_open"@.len() == 13);
    assert("server"@[0] == 's' && "remark"@[0] == 'r');
    assert("server"@.len() == 6 && "remark"@.len() == 6);
}

/// The outbound of a VMess node is tagged `proxy`, names the node's address as its
/// server and the node's user, and has no remark.
pub proof fn law_vmess_outbound(node: JsonView)
    ensures
        vmess_view(node) matches Ok(o) ==> {
            &&& says(o, "tag"@, "proxy"@)
            &&& says(o, "type"@, "vmess"@)
            &&& o.text_field("server"@) == node.text_field("add"@)
            &&& o.text_field("uuid"@) == node.text_field("id"@)
            &&& o.field("remark"@) is None
        },
{
    lemma_outbound_keys();
    if vmess_view(node) is Ok {
        let o = vmess_view(node)->Ok_0;
        assert(o.field("tag"@) == Some(text_view("proxy"@)));
        assert(o.field("type"@) == Some(text_view("vmess"@)));
        assert(o.field("server"@) == Some(text_view(node.text_field("add"@)->0)));
        assert(o.field("uuid"@) == Some(text_view(node.text_field("id"@)->0)));
    }
}

/// The outbound of a VLESS or Trojan link is tagged `proxy`, names the link's host
/// as its server and the link's user as its user or password, and has no remark.
pub proof fn law_url_outbound(url: UrlView, is_trojan: bool)
    ensures
        says(url_outbound(url, is_trojan), "tag"@, "proxy"@),
        says(
            url_outbound(url, is_trojan),
            "type"@,
            if is_trojan {
                "trojan"@
            } else {
                "vless"@
            },
        ),
        url_outbound(url, is_trojan).text_field("server"@) == Some(url.host_text()),
        url_outbound(url, is_trojan).text_field(
            if is_trojan {
                "password"@
            } else {
                "uuid"@
            },
        ) == Some(url.username),
        url_outbound(url, is_trojan).field("remark"@) is None,
{
    lemma_outbound_keys();
    let o = url_outbound(url, is_trojan);
    assert(o.field("tag"@) == Some(text_view("proxy"@)));
    assert(o.field("type"@) == Some(
        text_view(
            if is_trojan {
                "trojan"@
            } else {
                "vless"@
            },
        ),
    ));
    assert(o.field("server"@) == Some(text_view(url.host_text())));
    assert(o.field(
        if is_trojan {
            "password"@
        } else {
            "uuid"@
        },
    ) == Some(text_view(url.username)));
}

/// Whatever link is read, its outbound is tagged `proxy`, which is what the routes
/// refer to, names a server, and has no remark, which sing-box does not know.
pub proof fn law_link_outbound(link: Seq<char>)
    ensures
        link_view(link) matches Ok(o) ==> {
            &&& says(o, "tag"@, "proxy"@)
            &&& o.text_field("server"@) is Some
            &&& o.field("remark"@) is None
        },
{
    if link_view(link) is Ok {
        let link = trimmed(link);
        match base64_text(vmess_payload(link)) {
            Ok(text) => {
                match parsed_json(text) {
                    Ok(node) => law_vmess_outbound(node),
                    Err(_) => {},
                }
            },
            Err(_) => {},
        }
        match parsed_url(link) {
            Some(url) => {
                law_url_outbound(url, true);
                law_url_outbound(url, false);
            },
            None => {},
        }
    }
}

/// Blanks around a link make no difference to its outbound.
pub proof fn law_blanks_around_link(a: Seq<char>, link: Seq<char>, b: Seq<char>)
    requires
        is_blank(a),
        is_blank(b),
    ensures
        link_view(a + link + b) == link_view(link),
{
    law_blanks_trimmed(a, link, b);
}

/// The name that stands after `#` in a VMess link makes no difference to its
/// outbound, nor do blanks around the link.
pub proof fn law_vmess_name_ignored(
    a: Seq<char>,
    link: Seq<char>,
    name: Seq<char>,
    b: Seq<char>,
)
    requires
        is_blank(a),
        is_blank(b),
        has_prefix_ignoring_case(link, "vmess://"@),
        !link.contains('#'),
        !is_white_space(link.last()),
    ensures
        link_view(a + (link + seq!['#'] + name) + b) == link_view(link),
{
    reveal_strlit("vmess://");
    let scheme = "vmess://"@;
    let named = link + seq!['#'] + name;
    law_blanks_trimmed(a, named, b);
    assert(ascii_lower(link[0]) == scheme[0]);
    lemma_trimmed_after(link, '#', name);
    lemma_trimmed_same(link);
    let rest = link.skip(scheme.len() as int);
    let whole = trimmed(named);
    assert(!rest.contains('#')) by {
        if rest.contains('#') {
            let i = choose|i: int| 0 <= i < rest.len() && rest[i] == '#';
            assert(link[i + scheme.len()] == '#');
        }
    }
    assert(whole.skip(scheme.len() as int) =~= rest + seq!['#'] + trimmed_end(name));
    lemma_before(rest, '#', trimmed_end(name));
    assert(vmess_payload(whole) == vmess_payload(link));
    assert forall|i: int| 0 <= i < scheme.len() implies ascii_lower(#[trigger] whole[i])
        == scheme[i] by {
        assert(whole[i] == link[i]);
    }
}

/// A scheme begins a link exactly if it begins the link with a name after it.
proof fn lemma_same_scheme(link: Seq<char>, rest: Seq<char>, scheme: Seq<char>)
    requires
        !scheme.contains('#'),
    ensures
        has_prefix_ignoring_case(link + seq!['#'] + rest, scheme) == has_prefix_ignoring_case(
            link,
            scheme,
        ),
{
    let whole = link + seq!['#'] + rest;
    if has_prefix_ignoring_case(whole, scheme) {
        if link.len() < scheme.len() {
            assert(ascii_lower(whole[link.len() as int]) == scheme[link.len() as int]);
            assert(scheme.contains('#'));
        }
        assert forall|i: int| 0 <= i < scheme.len() implies ascii_lower(#[trigger] link[i])
            == scheme[i] by {
            assert(whole[i] == link[i]);
        }
    }
    if has_prefix_ignoring_case(link, scheme) {
        assert forall|i: int| 0 <= i < scheme.len() implies ascii_lower(#[trigger] whole[i])
            == scheme[i] by {
            assert(whole[i] == link[i]);
        }
    }
}

proof fn lemma_schemes_have_no_name()
    ensures
        !"vmess://"@.contains('#'),
        !"vless://"@.contains('#'),
        !"trojan://"@.contains('#'),
{
    reveal_strlit("vmess://");
    reveal_strlit("vless://");
    reveal_strlit("trojan://");
}

/// The name after a link and blanks around it make no difference to its outbound, as
/// far as `url` finds the same parts in it.
pub proof fn lemma_name_ignored(a: Seq<char>, link: Seq<char>, name: Seq<char>, b: Seq<char>)
    requires
        is_blank(a),
        is_blank(b),
        takes_name(link),
        name_is_apart(trimmed(named_link(a, link, name, b))),
    ensures
        link_view(named_link(a, link, name, b)) == link_view(link),
{
    let named = link + seq!['#'] + name;
    let whole = link + seq!['#'] + trimmed_end(name);
    assert('!' <= link[0] <= '~');
    assert('!' <= link[link.len() - 1] <= '~');
    assert(!link.contains('#')) by {
        if link.contains('#') {
            let i = choose|i: int| 0 <= i < link.len() && link[i] == '#';
            assert(link[i] != '#');
        }
    }
    law_blanks_trimmed(a, named, b);
    lemma_trimmed_after(link, '#', name);
    lemma_trimmed_same(link);
    lemma_before(link, '#', trimmed_end(name));
    lemma_schemes_have_no_name();
    lemma_same_scheme(link, trimmed_end(name), "vmess://"@);
    lemma_same_scheme(link, trimmed_end(name), "vless://"@);
    lemma_same_scheme(link, trimmed_end(name), "trojan://"@);
    if has_prefix_ignoring_case(link, "vmess://"@) {
        law_vmess_name_ignored(a, link, name, b);
    }
}

// ---- The parts of a configuration ----

/// The keys of a configuration that settings change are different keys.
proof fn lemma_part_keys()
    ensures
        "outbounds"@ != "inbounds"@,
        "outbounds"@ != "experimental"@,
        "outbounds"@ != "dns"@,
        "outbounds"@ != "route"@,
        "inbounds"@ != "experimental"@,
        "inbounds"@ != "dns"@,
        "inbounds"@ != "route"@,
        "experimental"@ != "dns"@,
        "experimental"@ != "route"@,
        "dns"@ != "route"@,
{
    reveal_strlit("outbounds");
    reveal_strlit("inbounds");
    reveal_strlit("experimental");
    reveal_strlit("dns");
    reveal_strlit("route");
    assert("outbounds"@.len() == 9 && "inbounds"@.len() == 8 && "experimental"@.len() == 12);
    assert("dns"@.len() == 3 && "route"@.len() == 5);
}

/// A key of a configuration that settings change.
pub open spec fn is_changed_part(key: Seq<char>) -> bool {
    key == "outbounds"@ || key == "inbounds"@ || key == "experimental"@ || key == "dns"@ || key
        == "route"@
}

/// What becomes of the inbounds.
pub open spec fn inbounds_part(v: JsonView, s: Settings) -> JsonView {
    let ports = v.each(
        set_where("tag"@, "mixed-in"@, "listen_port"@, unsigned_view(s.listen_port as u64)),
    );
    if s.use_tun {
        ports
    } else {
        ports.keep(is_no_tun())
    }
}

/// What becomes of the experimental settings.
pub open spec fn experimental_part(v: JsonView, s: Settings) -> JsonView {
    let ports = v.edit(
        "clash_api"@,
        |api: JsonView| api.set("external_controller"@, text_view(controller(s.api_port))),
    );
    if s.global {
        ports.edit("clash_api"@, |api: JsonView| api.set("default_mode"@, text_view("global"@)))
    } else {
        ports
    }
}

/// What becomes of the DNS settings.
pub open spec fn dns_part(
    v: JsonView,
    old: Option<Seq<char>>,
    new: Option<Seq<char>>,
    s: Settings,
) -> JsonView {
    let server = if old is Some && new is Some {
        v.edit("rules"@, |rules: JsonView| rules.each(rule_renamed(old->0, new->0)))
    } else {
        v
    };
    if s.global {
        server.edit(
            "rules"@,
            |rules: JsonView|
                rules.each(
                    set_where("rule_set"@, "geosite-cn"@, "server"@, text_view("dns_proxy"@)),
                ),
        )
    } else {
        server
    }
}

/// What becomes of the routes.
pub open spec fn route_part(v: JsonView, s: Settings) -> JsonView {
    let names = if s.use_tun {
        v
    } else {
        v.edit("rules"@, |rules: JsonView| rules.each(without_tun_name()))
    };
    if s.global {
        names.edit("rules"@, |rules: JsonView| rules.keep(fits_global_mode()))
    } else {
        names
    }
}

/// The parts of a configuration are those of the template, five of them changed,
/// each on its own.
pub proof fn law_parts(template: JsonView, proxy: JsonView, s: Settings)
    ensures
        ({
            let doc = configured(template, proxy, s);
            &&& doc.field("outbounds"@) == (match template.field("outbounds"@) {
                Some(v) => Some(v.each(proxied(proxy))),
                None => None,
            })
            &&& doc.field("inbounds"@) == (match template.field("inbounds"@) {
                Some(v) => Some(inbounds_part(v, s)),
                None => None,
            })
            &&& doc.field("experimental"@) == (match template.field("experimental"@) {
                Some(v) => Some(experimental_part(v, s)),
                None => None,
            })
            &&& doc.field("dns"@) == (match template.field("dns"@) {
                Some(v) => Some(
                    dns_part(v, placeholder(template), proxy.text_field("server"@), s),
                ),
                None => None,
            })
            &&& doc.field("route"@) == (match template.field("route"@) {
                Some(v) => Some(route_part(v, s)),
                None => None,
            })
            &&& forall|key: Seq<char>|
                !is_changed_part(key) ==> #[trigger] doc.field(key) == template.field(key)
        }),
{
    lemma_part_keys();
}

/// What stands under a key that no setting concerns is as in the template.
pub proof fn law_other_parts_kept(
    template: JsonView,
    proxy: JsonView,
    s: Settings,
    key: Seq<char>,
)
    requires
        !is_changed_part(key),
    ensures
        configured(template, proxy, s).field(key) == template.field(key),
{
    law_parts(template, proxy, s);
}

/// The proxy stands in the place of each outbound that the template tags `proxy`,
/// and is the only one tagged so; the others stay where they are.
pub proof fn law_proxy_in_place(
    template: JsonView,
    proxy: JsonView,
    s: Settings,
    before: Seq<JsonView>,
)
    requires
        template.field("outbounds"@) == Some(JsonView::Array(before)),
    ensures
        configured(template, proxy, s).field("outbounds"@) matches Some(JsonView::Array(after)) && {
            &&& after.len() == before.len()
            &&& forall|i: int|
                0 <= i < after.len() ==> #[trigger] after[i] == (if says(
                    before[i],
                    "tag"@,
                    "proxy"@,
                ) {
                    proxy
                } else {
                    before[i]
                })
            &&& forall|i: int|
                0 <= i < after.len() && says(#[trigger] after[i], "tag"@, "proxy"@) ==> after[i]
                    == proxy
        },
{
    law_parts(template, proxy, s);
}

/// Every mixed inbound of a configuration listens on the port that was asked for.
pub proof fn law_listen_port(
    template: JsonView,
    proxy: JsonView,
    s: Settings,
    inbounds: Seq<JsonView>,
    i: int,
)
    requires
        configured(template, proxy, s).field("inbounds"@) == Some(JsonView::Array(inbounds)),
        0 <= i < inbounds.len(),
        says(inbounds[i], "tag"@, "mixed-in"@),
    ensures
        inbounds[i].field("listen_port"@) == Some(unsigned_view(s.listen_port as u64)),
{
    law_parts(template, proxy, s);
    reveal_strlit("tag");
    reveal_strlit("listen_port");
    assert("tag"@.len() != "listen_port"@.len());
    let f = set_where("tag"@, "mixed-in"@, "listen_port"@, unsigned_view(s.listen_port as u64));
    let before = template.field("inbounds"@)->0->Array_0;
    let ports = before.map_values(f);
    if !s.use_tun {
        ports.lemma_filter_contains_rev(is_no_tun(), inbounds[i]);
    }
    let k = choose|k: int| 0 <= k < ports.len() && #[trigger] ports[k] == inbounds[i];
    assert(ports.contains(inbounds[i]));
    assert(ports[k] == f(before[k]));
}

/// The control interface of a configuration has the address that was asked for.
pub proof fn law_api_port(template: JsonView, proxy: JsonView, s: Settings, api: JsonView)
    requires
        configured(template, proxy, s).field("experimental"@) is Some,
        configured(template, proxy, s).field("experimental"@)->0.field("clash_api"@) == Some(api),
        api is Object,
    ensures
        says(api, "external_controller"@, controller(s.api_port)),
        s.global ==> says(api, "default_mode"@, "global"@),
{
    law_parts(template, proxy, s);
    reveal_strlit("external_controller");
    reveal_strlit("default_mode");
    assert("external_controller"@.len() != "default_mode"@.len());
}

/// With the virtual network card, the inbounds are those of the template but for
/// the ports, and the rules still name it.
pub proof fn law_tun_on(template: JsonView, proxy: JsonView, s: Settings, before: Seq<JsonView>)
    requires
        s.use_tun,
        template.field("inbounds"@) == Some(JsonView::Array(before)),
    ensures
        configured(template, proxy, s).field("inbounds"@) matches Some(JsonView::Array(after)) && {
            &&& after.len() == before.len()
            &&& forall|i: int|
                0 <= i < after.len() && !says(before[i], "tag"@, "mixed-in"@)
                    ==> #[trigger] after[i] == before[i]
        },
        !s.global ==> configured(template, proxy, s).field("route"@) == template.field("route"@),
{
    law_parts(template, proxy, s);
}

/// Without the virtual network card, no inbound of a configuration is one.
pub proof fn law_tun_off_inbounds(
    template: JsonView,
    proxy: JsonView,
    s: Settings,
    inbounds: Seq<JsonView>,
    i: int,
)
    requires
        !s.use_tun,
        configured(template, proxy, s).field("inbounds"@) == Some(JsonView::Array(inbounds)),
        0 <= i < inbounds.len(),
    ensures
        !says(inbounds[i], "type"@, "tun"@),
{
    law_parts(template, proxy, s);
    let f = set_where("tag"@, "mixed-in"@, "listen_port"@, unsigned_view(s.listen_port as u64));
    let ports = template.field("inbounds"@)->0->Array_0.map_values(f);
    ports.lemma_filter_pred(is_no_tun(), i);
}

/// Without the virtual network card, no rule that names inbounds names it.
pub proof fn law_tun_off_rules(
    template: JsonView,
    proxy: JsonView,
    s: Settings,
    rules: Seq<JsonView>,
    i: int,
    names: Seq<JsonView>,
    j: int,
)
    requires
        !s.use_tun,
        configured(template, proxy, s).field("route"@) is Some,
        configured(template, proxy, s).field("route"@)->0.field("rules"@) == Some(
            JsonView::Array(rules),
        ),
        0 <= i < rules.len(),
        rules[i].field("inbound"@) == Some(JsonView::Array(names)),
        0 <= j < names.len(),
    ensures
        names[j].text() != Some("tun-in"@),
        names.len() > 0,
{
    law_parts(template, proxy, s);
    let before = template.field("route"@)->0.field("rules"@)->0->Array_0;
    let named = before.map_values(without_tun_name());
    if s.global {
        named.lemma_filter_contains_rev(fits_global_mode(), rules[i]);
    }
    assert(named.contains(rules[i]));
    let k = choose|k: int| 0 <= k < named.len() && #[trigger] named[k] == rules[i];
    assert(named[k] == without_tun_name()(before[k]));
    let all = before[k].field("inbound"@)->0->Array_0;
    assert(names == all.filter(is_not_named_tun()));
    all.lemma_filter_pred(is_not_named_tun(), j);
}

/// Taking out the virtual network card's name leaves what else a rule says.
proof fn lemma_rest_of_rule_kept(rule: JsonView)
    ensures
        is_cn_rule(without_tun_name()(rule)) == is_cn_rule(rule),
        is_direct(without_tun_name()(rule)) == is_direct(rule),
        is_private(without_tun_name()(rule)) == is_private(rule),
{
    reveal_strlit("inbound");
    reveal_strlit("rule_set");
    reveal_strlit("outbound");
    reveal_strlit("ip_is_private");
    assert("inbound"@.len() == 7 && "rule_set"@.len() == 8 && "outbound"@.len() == 8);
    assert("ip_is_private"@.len() == 13);
}

/// In the global mode every rule that lets traffic past the proxy is about private
/// addresses, and none names the sets of Chinese domains and addresses.
pub proof fn law_global_rules(
    template: JsonView,
    proxy: JsonView,
    s: Settings,
    rules: Seq<JsonView>,
    i: int,
)
    requires
        s.global,
        configured(template, proxy, s).field("route"@) is Some,
        configured(template, proxy, s).field("route"@)->0.field("rules"@) == Some(
            JsonView::Array(rules),
        ),
        0 <= i < rules.len(),
    ensures
        is_direct(rules[i]) ==> is_private(rules[i]),
        !is_cn_rule(rules[i]),
{
    law_parts(template, proxy, s);
    let before = template.field("route"@)->0.field("rules"@)->0->Array_0;
    let named = if s.use_tun {
        before
    } else {
        before.map_values(without_tun_name())
    };
    named.lemma_filter_pred(fits_global_mode(), i);
}

/// Every rule of the template stays that does not let traffic past the proxy which
/// the global mode sends through it, and outside that mode every rule does; at most
/// the name of the virtual network card is taken out.
pub proof fn law_other_rules_kept(
    template: JsonView,
    proxy: JsonView,
    s: Settings,
    before: Seq<JsonView>,
    i: int,
)
    requires
        template.field("route"@) is Some,
        template.field("route"@)->0.field("rules"@) == Some(JsonView::Array(before)),
        0 <= i < before.len(),
        s.global ==> fits_global_mode()(before[i]),
    ensures
        configured(template, proxy, s).field("route"@) is Some,
        configured(template, proxy, s).field("route"@)->0.field("rules"@) matches Some(
            JsonView::Array(after),
        ) && after.contains(
            if s.use_tun {
                before[i]
            } else {
                without_tun_name()(before[i])
            },
        ),
{
    law_parts(template, proxy, s);
    lemma_rest_of_rule_kept(before[i]);
    let named = if s.use_tun {
        before
    } else {
        before.map_values(without_tun_name())
    };
    let kept = if s.use_tun {
        before[i]
    } else {
        without_tun_name()(before[i])
    };
    assert(named[i] == kept);
    if s.global {
        named.lemma_filter_contains(fits_global_mode(), i);
    }
}

/// The routes but for the rules are as in the template; among them is where
/// traffic goes that no rule concerns.
pub proof fn law_route_settings_kept(
    template: JsonView,
    proxy: JsonView,
    s: Settings,
    key: Seq<char>,
)
    requires
        key != "rules"@,
        template.field("route"@) is Some,
    ensures
        configured(template, proxy, s).field("route"@) is Some,
        configured(template, proxy, s).field("route"@)->0.field(key) == template.field(
            "route"@,
        )->0.field(key),
{
    law_parts(template, proxy, s);
}

/// A configuration is the template but for the node: the proxy among the outbounds,
/// the port of the mixed inbounds, the address of the control interface, and the
/// name of the proxy's server in the DNS rules.
pub open spec fn differs_in_the_node(
    template: JsonView,
    doc: JsonView,
    proxy: JsonView,
    s: Settings,
) -> bool {
    &&& doc.field("outbounds"@) == (match template.field("outbounds"@) {
        Some(v) => Some(v.each(proxied(proxy))),
        None => None,
    })
    &&& doc.field("inbounds"@) == (match template.field("inbounds"@) {
        Some(v) => Some(
            v.each(
                set_where("tag"@, "mixed-in"@, "listen_port"@, unsigned_view(s.listen_port as u64)),
            ),
        ),
        None => None,
    })
    &&& doc.field("experimental"@) == (match template.field("experimental"@) {
        Some(v) => Some(
            v.edit(
                "clash_api"@,
                |api: JsonView| api.set("external_controller"@, text_view(controller(s.api_port))),
            ),
        ),
        None => None,
    })
    &&& doc.field("dns"@) == (match (template.field("dns"@), placeholder(template), proxy.text_field(
        "server"@,
    )) {
        (Some(v), Some(old), Some(new)) => Some(
            v.edit("rules"@, |rules: JsonView| rules.each(rule_renamed(old, new))),
        ),
        (dns, _, _) => dns,
    })
    &&& forall|key: Seq<char>|
        key != "outbounds"@ && key != "inbounds"@ && key != "experimental"@ && key != "dns"@
            ==> #[trigger] doc.field(key) == template.field(key)
}

/// With the virtual network card and outside the global mode, the text that is
/// written is that of the template but for the node.
pub proof fn law_rest_as_in_template(template: JsonView, proxy: JsonView, s: Settings)
    requires
        s.use_tun,
        !s.global,
    ensures
        differs_in_the_node(template, configured(template, proxy, s), proxy, s),
        config_text(Ok(template), Ok(proxy), s) == Ok::<Seq<char>, Seq<char>>(
            rendered_json(configured(template, proxy, s)),
        ),
{
    law_parts(template, proxy, s);
}

/// In the global mode Chinese domains are resolved through the proxy.
pub proof fn law_global_dns(
    template: JsonView,
    proxy: JsonView,
    s: Settings,
    rules: Seq<JsonView>,
    i: int,
)
    requires
        s.global,
        configured(template, proxy, s).field("dns"@) is Some,
        configured(template, proxy, s).field("dns"@)->0.field("rules"@) == Some(
            JsonView::Array(rules),
        ),
        0 <= i < rules.len(),
        says(rules[i], "rule_set"@, "geosite-cn"@),
    ensures
        says(rules[i], "server"@, "dns_proxy"@),
{
    law_parts(template, proxy, s);
    reveal_strlit("rule_set");
    reveal_strlit("server");
    assert("rule_set"@.len() != "server"@.len());
}

/// No DNS rule of a configuration still names the template's server, once the
/// proxy's is another.
pub proof fn law_placeholder_replaced(
    template: JsonView,
    proxy: JsonView,
    s: Settings,
    rules: Seq<JsonView>,
    i: int,
    domains: Seq<JsonView>,
    j: int,
)
    requires
        placeholder(template) is Some,
        proxy.text_field("server"@) is Some,
        placeholder(template) != proxy.text_field("server"@),
        configured(template, proxy, s).field("dns"@) is Some,
        configured(template, proxy, s).field("dns"@)->0.field("rules"@) == Some(
            JsonView::Array(rules),
        ),
        0 <= i < rules.len(),
        rules[i].field("domain"@) == Some(JsonView::Array(domains)),
        0 <= j < domains.len(),
    ensures
        domains[j].text() != placeholder(template),
{
    law_parts(template, proxy, s);
    reveal_strlit("domain");
    reveal_strlit("server");
    assert("domain"@[0] == 'd' && "server"@[0] == 's');
    let (old_name, new_name) = (placeholder(template)->0, proxy.text_field("server"@)->0);
    let before = template.field("dns"@)->0.field("rules"@)->0->Array_0;
    let rule = rule_renamed(old_name, new_name)(before[i]);
    assert(rules[i].field("domain"@) == rule.field("domain"@));
    let all = before[i].field("domain"@)->0->Array_0;
    assert(domains == all.map_values(renamed(old_name, new_name)));
}

// ---- Depth ----

/// What stands at most so deep also stands at most deeper.
proof fn lemma_plain_deeper(doc: JsonView, a: nat, b: nat)
    requires
        is_plain(doc, a),
        a <= b,
    ensures
        is_plain(doc, b),
    decreases a,
{
    match doc {
        JsonView::Array(s) => {
            assert forall|i: int| 0 <= i < s.len() implies is_plain(
                #[trigger] s[i],
                (b - 1) as nat,
            ) by {
                lemma_plain_deeper(s[i], (a - 1) as nat, (b - 1) as nat);
            }
        },
        JsonView::Object(m) => {
            assert forall|k: Seq<char>| #[trigger] m.dom().contains(k) implies is_plain(
                m[k],
                (b - 1) as nat,
            ) by {
                lemma_plain_deeper(m[k], (a - 1) as nat, (b - 1) as nat);
            }
        },
        _ => {},
    }
}

broadcast proof fn lemma_plain_set(doc: JsonView, n: nat, key: Seq<char>, value: JsonView)
    requires
        is_plain(doc, n),
        n > 0 ==> is_plain(value, (n - 1) as nat),
    ensures
        #[trigger] is_plain(doc.set(key, value), n),
{
}

proof fn lemma_plain_field(doc: JsonView, n: nat, key: Seq<char>)
    requires
        is_plain(doc, n),
    ensures
        doc.field(key) matches Some(v) ==> n > 0 && is_plain(v, (n - 1) as nat),
{
}

proof fn lemma_plain_each(doc: JsonView, n: nat, f: spec_fn(JsonView) -> JsonView)
    requires
        is_plain(doc, n),
        forall|v: JsonView| n > 0 && is_plain(v, (n - 1) as nat) ==> is_plain(
            #[trigger] f(v),
            (n - 1) as nat,
        ),
    ensures
        is_plain(doc.each(f), n),
{
    if let JsonView::Array(s) = doc {
        assert forall|i: int| 0 <= i < s.map_values(f).len() implies is_plain(
            #[trigger] s.map_values(f)[i],
            (n - 1) as nat,
        ) by {
            assert(is_plain(s[i], (n - 1) as nat));
        }
    }
}

proof fn lemma_plain_filter(s: Seq<JsonView>, n: nat, p: spec_fn(JsonView) -> bool)
    requires
        forall|i: int| 0 <= i < s.len() ==> is_plain(#[trigger] s[i], n),
    ensures
        forall|i: int| 0 <= i < s.filter(p).len() ==> is_plain(#[trigger] s.filter(p)[i], n),
{
    assert forall|i: int| 0 <= i < s.filter(p).len() implies is_plain(
        #[trigger] s.filter(p)[i],
        n,
    ) by {
        s.lemma_filter_contains_rev(p, s.filter(p)[i]);
    }
}

proof fn lemma_plain_basics(n: nat, s: Seq<char>, list: Seq<Seq<char>>)
    ensures
        is_plain(text_view(s), n),
        n > 0 ==> is_plain(object(), n),
        n > 0 ==> is_plain(texts_view(list), n),
{
    reveal_with_fuel(is_plain, 2);
}

proof fn lemma_tls_is_plain(
    server_name: Seq<char>,
    fingerprint: Seq<char>,
    security: Option<Seq<char>>,
    pbk: Option<Seq<char>>,
    sid: Option<Seq<char>>,
    alpns: Seq<Seq<char>>,
)
    ensures
        is_plain(tls_view(server_name, fingerprint, security, pbk, sid, alpns), 2),
{
    broadcast use lemma_plain_set;

    lemma_plain_basics(1, server_name, alpns);
    lemma_plain_basics(2, fingerprint, alpns);
}

proof fn lemma_transport_is_plain(
    outbound: JsonView,
    net: Seq<char>,
    path: Option<Seq<char>>,
    service: Option<Seq<char>>,
    host: Option<Seq<char>>,
    fallback_host: Seq<char>,
    method: Option<Seq<char>>,
)
    requires
        is_plain(outbound, 3),
    ensures
        is_plain(with_transport(outbound, net, path, service, host, fallback_host, method), 3),
{
    broadcast use lemma_plain_set;

    lemma_plain_basics(1, net, seq![or_text(host, fallback_host)]);
    lemma_plain_basics(2, net, seq![or_text(host, fallback_host)]);
    assert(is_plain(ws_view(path, host), 2));
    assert(is_plain(grpc_view(service), 2));
    assert(is_plain(http_view(or_text(host, fallback_host), path, method), 2));
}

/// The outbound of a VMess node holds no fractions and is at most three deep.
proof fn lemma_vmess_is_plain(node: JsonView, add: Seq<char>, id: Seq<char>)
    ensures
        is_plain(vmess_fields(node, add, id), 3),
{
    broadcast use lemma_plain_set;

    lemma_plain_basics(3, add, Seq::empty());
    lemma_plain_basics(2, add, Seq::empty());
    lemma_tls_is_plain(
        vmess_server_name(node, add),
        or_text(node.text_field("fp"@), "chrome"@),
        None,
        None,
        None,
        alpn_view(node.text_field("alpn"@)),
    );
    assert forall|outbound: JsonView| is_plain(outbound, 3) implies is_plain(
        #[trigger] with_transport(
            outbound,
            or_text(node.text_field("net"@), "tcp"@),
            node.text_field("path"@),
            node.text_field("path"@),
            node.text_field("host"@),
            add,
            node.text_field("method"@),
        ),
        3,
    ) by {
        lemma_transport_is_plain(
            outbound,
            or_text(node.text_field("net"@), "tcp"@),
            node.text_field("path"@),
            node.text_field("path"@),
            node.text_field("host"@),
            add,
            node.text_field("method"@),
        );
    }
}

/// The outbound of a VLESS or Trojan link holds no fractions and is at most three
/// deep.
proof fn lemma_url_is_plain(url: UrlView, is_trojan: bool)
    ensures
        is_plain(url_outbound(url, is_trojan), 3),
{
    broadcast use lemma_plain_set;

    lemma_plain_basics(3, url.username, Seq::empty());
    lemma_plain_basics(2, url.username, Seq::empty());
    lemma_tls_is_plain(
        or_text(url.param("sni"@), url.host_text()),
        or_text(url.param("fp"@), "chrome"@),
        Some(url_security(url)),
        url.param("pbk"@),
        url.param("sid"@),
        alpn_view(url.param("alpn"@)),
    );
    let service = match url.param("serviceName"@) {
        Some(s) => Some(s),
        None => url.param("path"@),
    };
    assert forall|outbound: JsonView| is_plain(outbound, 3) implies is_plain(
        #[trigger] with_transport(
            outbound,
            or_text(url.param("type"@), ""@),
            url.param("path"@),
            service,
            url.param("host"@),
            url.host_text(),
            url.param("method"@),
        ),
        3,
    ) by {
        lemma_transport_is_plain(
            outbound,
            or_text(url.param("type"@), ""@),
            url.param("path"@),
            service,
            url.param("host"@),
            url.host_text(),
            url.param("method"@),
        );
    }
}

/// Outbounds of links hold no fractions and are at most three deep.
pub proof fn law_outbound_is_plain(link: Seq<char>)
    ensures
        link_view(link) matches Ok(o) ==> is_plain(o, 3),
{
    if link_view(link) is Ok {
        let link = trimmed(link);
        match base64_text(vmess_payload(link)) {
            Ok(text) => {
                match parsed_json(text) {
                    Ok(node) => match (node.text_field("add"@), node.text_field("id"@)) {
                        (Some(add), Some(id)) => lemma_vmess_is_plain(node, add, id),
                        _ => {},
                    },
                    Err(_) => {},
                }
            },
            Err(_) => {},
        }
        match parsed_url(link) {
            Some(url) => {
                lemma_url_is_plain(url, true);
                lemma_url_is_plain(url, false);
            },
            None => {},
        }
    }
}

proof fn lemma_set_where_is_plain(
    v: JsonView,
    n: nat,
    key: Seq<char>,
    wanted: Seq<char>,
    field: Seq<char>,
    value: JsonView,
)
    requires
        is_plain(v, n),
        n >= 2,
        is_plain(value, 0),
    ensures
        is_plain(v.each(set_where(key, wanted, field, value)), n),
{
    let f = set_where(key, wanted, field, value);
    assert forall|item: JsonView| n > 0 && is_plain(item, (n - 1) as nat) implies is_plain(
        #[trigger] f(item),
        (n - 1) as nat,
    ) by {
        lemma_plain_deeper(value, 0, (n - 2) as nat);
        lemma_plain_set(item, (n - 1) as nat, field, value);
    }
    lemma_plain_each(v, n, f);
}

proof fn lemma_renamed_is_plain(rules: JsonView, n: nat, old_name: Seq<char>, new_name: Seq<char>)
    requires
        is_plain(rules, n),
    ensures
        is_plain(rules.each(rule_renamed(old_name, new_name)), n),
{
    let f = rule_renamed(old_name, new_name);
    let g = renamed(old_name, new_name);
    assert forall|rule: JsonView| n > 0 && is_plain(rule, (n - 1) as nat) implies is_plain(
        #[trigger] f(rule),
        (n - 1) as nat,
    ) by {
        lemma_plain_field(rule, (n - 1) as nat, "domain"@);
        if rule.field("domain"@) is Some {
            let domains = rule.field("domain"@)->0;
            lemma_plain_each(domains, (n - 2) as nat, g);
            lemma_plain_set(rule, (n - 1) as nat, "domain"@, domains.each(g));
        }
    }
    lemma_plain_each(rules, n, f);
}

proof fn lemma_unnamed_is_plain(rules: JsonView, n: nat)
    requires
        is_plain(rules, n),
    ensures
        is_plain(rules.each(without_tun_name()), n),
{
    let f = without_tun_name();
    assert forall|rule: JsonView| n > 0 && is_plain(rule, (n - 1) as nat) implies is_plain(
        #[trigger] f(rule),
        (n - 1) as nat,
    ) by {
        lemma_plain_field(rule, (n - 1) as nat, "inbound"@);
        if let Some(JsonView::Array(names)) = rule.field("inbound"@) {
            lemma_plain_filter(names, (n - 3) as nat, is_not_named_tun());
            let kept = JsonView::Array(names.filter(is_not_named_tun()));
            assert(is_plain(kept, (n - 2) as nat));
            lemma_plain_set(rule, (n - 1) as nat, "inbound"@, kept);
        }
    }
    lemma_plain_each(rules, n, f);
}

proof fn lemma_keep_is_plain(v: JsonView, n: nat, p: spec_fn(JsonView) -> bool)
    requires
        is_plain(v, n),
    ensures
        is_plain(v.keep(p), n),
{
    if let JsonView::Array(s) = v {
        lemma_plain_filter(s, (n - 1) as nat, p);
    }
}

/// A key of an object that is itself under a key, set to something plain.
proof fn lemma_inner_is_plain(
    doc: JsonView,
    n: nat,
    outer: Seq<char>,
    inner: Seq<char>,
    value: JsonView,
)
    requires
        is_plain(doc, n),
        doc.field(outer) is Some,
        doc.field(outer)->0.field(inner) is Some,
        n >= 2 ==> is_plain(value, (n - 2) as nat),
    ensures
        is_plain(doc.set(outer, doc.field(outer)->0.set(inner, value)), n),
{
    lemma_plain_field(doc, n, outer);
    let v = doc.field(outer)->0;
    lemma_plain_field(v, (n - 1) as nat, inner);
    lemma_plain_set(v, (n - 1) as nat, inner, value);
    lemma_plain_set(doc, n, outer, v.set(inner, value));
}

proof fn lemma_clash_api_is_plain(doc: JsonView, n: nat, key: Seq<char>, text: Seq<char>)
    requires
        is_plain(doc, n),
        n >= 3,
    ensures
        is_plain(with_clash_api(doc, key, text), n),
{
    if doc.field("experimental"@) is Some && doc.field("experimental"@)->0.field(
        "clash_api"@,
    ) is Some {
        lemma_plain_field(doc, n, "experimental"@);
        let experimental = doc.field("experimental"@)->0;
        lemma_plain_field(experimental, (n - 1) as nat, "clash_api"@);
        let api = experimental.field("clash_api"@)->0;
        lemma_plain_set(api, (n - 2) as nat, key, text_view(text));
        lemma_inner_is_plain(
            doc,
            n,
            "experimental"@,
            "clash_api"@,
            api.set(key, text_view(text)),
        );
    } else if doc.field("experimental"@) is Some {
        lemma_set_same(doc, "experimental"@, doc.field("experimental"@)->0);
    }
}

/// The rules under a key, if they are there, are plain.
proof fn lemma_rules_are_plain(doc: JsonView, n: nat, key: Seq<char>)
    requires
        is_plain(doc, n),
        doc.field(key) is Some,
        doc.field(key)->0.field("rules"@) is Some,
    ensures
        n >= 2,
        is_plain(doc.field(key)->0.field("rules"@)->0, (n - 2) as nat),
{
    lemma_plain_field(doc, n, key);
    lemma_plain_field(doc.field(key)->0, (n - 1) as nat, "rules"@);
}

proof fn lemma_server_is_plain(
    doc: JsonView,
    n: nat,
    old_name: Option<Seq<char>>,
    new_name: Option<Seq<char>>,
)
    requires
        is_plain(doc, n),
    ensures
        is_plain(with_server(doc, old_name, new_name), n),
{
    if old_name is Some && new_name is Some && doc.field("dns"@) is Some {
        let dns = doc.field("dns"@)->0;
        if dns.field("rules"@) is Some {
            let rules = dns.field("rules"@)->0;
            lemma_rules_are_plain(doc, n, "dns"@);
            lemma_renamed_is_plain(rules, (n - 2) as nat, old_name->0, new_name->0);
            lemma_inner_is_plain(
                doc,
                n,
                "dns"@,
                "rules"@,
                rules.each(rule_renamed(old_name->0, new_name->0)),
            );
        } else {
            lemma_set_same(doc, "dns"@, dns);
        }
    }
}

proof fn lemma_without_tun_is_plain(doc: JsonView, n: nat)
    requires
        is_plain(doc, n),
    ensures
        is_plain(without_tun(doc), n),
{
    let inbounds = doc.field("inbounds"@);
    let a = if inbounds is Some {
        doc.set("inbounds"@, inbounds->0.keep(is_no_tun()))
    } else {
        doc
    };
    if inbounds is Some {
        lemma_plain_field(doc, n, "inbounds"@);
        lemma_keep_is_plain(inbounds->0, (n - 1) as nat, is_no_tun());
        lemma_plain_set(doc, n, "inbounds"@, inbounds->0.keep(is_no_tun()));
    }
    assert(is_plain(a, n));
    if a.field("route"@) is Some {
        let route = a.field("route"@)->0;
        if route.field("rules"@) is Some {
            let rules = route.field("rules"@)->0;
            lemma_rules_are_plain(a, n, "route"@);
            lemma_unnamed_is_plain(rules, (n - 2) as nat);
            lemma_inner_is_plain(a, n, "route"@, "rules"@, rules.each(without_tun_name()));
        } else {
            lemma_set_same(a, "route"@, route);
        }
    }
}

proof fn lemma_global_mode_is_plain(doc: JsonView, n: nat)
    requires
        is_plain(doc, n),
        n >= 4,
    ensures
        is_plain(with_global_mode(doc), n),
{
    let keep = fits_global_mode();
    let f = set_where("rule_set"@, "geosite-cn"@, "server"@, text_view("dns_proxy"@));
    let a = edit_within(doc, "route"@, "rules"@, |rules: JsonView| rules.keep(keep));
    if doc.field("route"@) is Some {
        let route = doc.field("route"@)->0;
        if route.field("rules"@) is Some {
            let rules = route.field("rules"@)->0;
            lemma_rules_are_plain(doc, n, "route"@);
            lemma_keep_is_plain(rules, (n - 2) as nat, keep);
            lemma_inner_is_plain(doc, n, "route"@, "rules"@, rules.keep(keep));
        } else {
            lemma_set_same(doc, "route"@, route);
        }
    }
    assert(is_plain(a, n));
    let b = edit_within(a, "dns"@, "rules"@, |rules: JsonView| rules.each(f));
    if a.field("dns"@) is Some {
        let dns = a.field("dns"@)->0;
        if dns.field("rules"@) is Some {
            let rules = dns.field("rules"@)->0;
            lemma_rules_are_plain(a, n, "dns"@);
            lemma_set_where_is_plain(
                rules,
                (n - 2) as nat,
                "rule_set"@,
                "geosite-cn"@,
                "server"@,
                text_view("dns_proxy"@),
            );
            lemma_inner_is_plain(a, n, "dns"@, "rules"@, rules.each(f));
        } else {
            lemma_set_same(a, "dns"@, dns);
        }
    }
    assert(is_plain(b, n));
    lemma_clash_api_is_plain(b, n, "default_mode"@, "global"@);
    assert(with_global_mode(doc) == with_clash_api(b, "default_mode"@, "global"@));
}

/// A configuration is no deeper than its template, and holds no fractions if the
/// template holds none.
pub proof fn law_configured_is_plain(template: JsonView, proxy: JsonView, s: Settings, n: nat)
    requires
        is_plain(template, n),
        is_plain(proxy, 3),
        n >= 5,
    ensures
        is_plain(configured(template, proxy, s), n),
{
    let a = with_proxy(template, proxy);
    if template.field("outbounds"@) is Some {
        let outbounds = template.field("outbounds"@)->0;
        lemma_plain_field(template, n, "outbounds"@);
        lemma_plain_deeper(proxy, 3, (n - 2) as nat);
        lemma_plain_each(outbounds, (n - 1) as nat, proxied(proxy));
        lemma_plain_set(template, n, "outbounds"@, outbounds.each(proxied(proxy)));
    }
    assert(is_plain(a, n));
    let b = with_listen_port(a, s.listen_port);
    let port = unsigned_view(s.listen_port as u64);
    if a.field("inbounds"@) is Some {
        let inbounds = a.field("inbounds"@)->0;
        lemma_plain_field(a, n, "inbounds"@);
        lemma_set_where_is_plain(
            inbounds,
            (n - 1) as nat,
            "tag"@,
            "mixed-in"@,
            "listen_port"@,
            port,
        );
        lemma_plain_set(
            a,
            n,
            "inbounds"@,
            inbounds.each(set_where("tag"@, "mixed-in"@, "listen_port"@, port)),
        );
    }
    assert(is_plain(b, n));
    let c = with_clash_api(b, "external_controller"@, controller(s.api_port));
    lemma_clash_api_is_plain(b, n, "external_controller"@, controller(s.api_port));
    let d = with_server(c, placeholder(template), proxy.text_field("server"@));
    lemma_server_is_plain(c, n, placeholder(template), proxy.text_field("server"@));
    let e = if s.use_tun {
        d
    } else {
        without_tun(d)
    };
    lemma_without_tun_is_plain(d, n);
    lemma_global_mode_is_plain(e, n);
}

} // verus!
