//! What holds of every outbound, key by key: what each of its entries says of the
//! link or the node that it was made of.
use vstd::prelude::*;

use crate::codec::base64_text;
use crate::config_gen::{
    alpn_view, lemma_one_scheme, link_view, param, parsed_url, url_outbound, vmess_in_lower_case,
    vmess_view, UrlView,
};
use crate::json::{parsed_json, texts_view, JsonNumber, JsonView};
use crate::text::{
    ascii_lower, has_prefix_ignoring_case, is_white_space, joined_by, law_pieces_join, lemma_before,
    lemma_trimmed_same, trimmed,
};

verus! {

/// The keys of an outbound are different keys.
proof fn lemma_outbound_keys_differ()
    ensures
        "type"@ != "tag"@,
        "type"@ != "server"@,
        "type"@ != "server_port"@,
        "type"@ != "uuid"@,
        "type"@ != "password"@,
        "type"@ != "security"@,
        "type"@ != "packet_encoding"@,
        "type"@ != "tcp_fast_open"@,
        "type"@ != "flow"@,
        "type"@ != "tls"@,
        "type"@ != "transport"@,
        "tag"@ != "server"@,
        "tag"@ != "server_port"@,
        "tag"@ != "uuid"@,
        "tag"@ != "password"@,
        "tag"@ != "security"@,
        "tag"@ != "packet_encoding"@,
        "tag"@ != "tcp_fast_open"@,
        "tag"@ != "flow"@,
        "tag"@ != "tls"@,
        "tag"@ != "transport"@,
        "server"@ != "server_port"@,
        "server"@ != "uuid"@,
        "server"@ != "password"@,
        "server"@ != "security"@,
        "server"@ != "packet_encoding"@,
        "server"@ != "tcp_fast_open"@,
        "server"@ != "flow"@,
        "server"@ != "tls"@,
        "server"@ != "transport"@,
        "server_port"@ != "uuid"@,
        "server_port"@ != "password"@,
        "server_port"@ != "security"@,
        "server_port"@ != "packet_encoding"@,
        "server_port"@ != "tcp_fast_open"@,
        "server_port"@ != "flow"@,
        "server_port"@ != "tls"@,
        "server_port"@ != "transport"@,
        "uuid"@ != "password"@,
        "uuid"@ != "security"@,
        "uuid"@ != "packet_encoding"@,
        "uuid"@ != "tcp_fast_open"@,
        "uuid"@ != "flow"@,
        "uuid"@ != "tls"@,
        "uuid"@ != "transport"@,
        "password"@ != "security"@,
        "password"@ != "packet_encoding"@,
        "password"@ != "tcp_fast_open"@,
        "password"@ != "flow"@,
        "password"@ != "tls"@,
        "password"@ != "transport"@,
        "security"@ != "packet_encoding"@,
        "security"@ != "tcp_fast_open"@,
        "security"@ != "flow"@,
        "security"@ != "tls"@,
        "security"@ != "transport"@,
        "packet_encoding"@ != "tcp_fast_open"@,
        "packet_encoding"@ != "flow"@,
        "packet_encoding"@ != "tls"@,
        "packet_encoding"@ != "transport"@,
        "tcp_fast_open"@ != "flow"@,
        "tcp_fast_open"@ != "tls"@,
        "tcp_fast_open"@ != "transport"@,
        "flow"@ != "tls"@,
        "flow"@ != "transport"@,
        "tls"@ != "transport"@,
{
    reveal_strlit("type");
    reveal_strlit("tag");
    reveal_strlit("server");
    reveal_strlit("server_port");
    reveal_strlit("uuid");
    reveal_strlit("password");
    reveal_strlit("security");
    reveal_strlit("packet_encoding");
    reveal_strlit("tcp_fast_open");
    reveal_strlit("flow");
    reveal_strlit("tls");
    reveal_strlit("transport");
    assert("type"@.len() == 4);
    assert("tag"@.len() == 3);
    assert("server"@.len() == 6);
    assert("server_port"@.len() == 11);
    assert("uuid"@.len() == 4);
    assert("password"@.len() == 8);
    assert("security"@.len() == 8);
    assert("packet_encoding"@.len() == 15);
    assert("tcp_fast_open"@.len() == 13);
    assert("flow"@.len() == 4);
    assert("tls"@.len() == 3);
    assert("transport"@.len() == 9);
    assert("type"@[0] == 't');
    assert("uuid"@[0] == 'u');
    assert("flow"@[0] == 'f');
    assert("tag"@[1] == 'a');
    assert("tls"@[1] == 'l');
    assert("password"@[0] == 'p');
    assert("security"@[0] == 's');
}

/// The keys of TLS settings are different keys.
proof fn lemma_tls_keys_differ()
    ensures
        "enabled"@ != "server_name"@,
        "enabled"@ != "utls"@,
        "enabled"@ != "alpn"@,
        "enabled"@ != "reality"@,
        "enabled"@ != "fingerprint"@,
        "enabled"@ != "public_key"@,
        "enabled"@ != "short_id"@,
        "server_name"@ != "utls"@,
        "server_name"@ != "alpn"@,
        "server_name"@ != "reality"@,
        "server_name"@ != "fingerprint"@,
        "server_name"@ != "public_key"@,
        "server_name"@ != "short_id"@,
        "utls"@ != "alpn"@,
        "utls"@ != "reality"@,
        "utls"@ != "fingerprint"@,
        "utls"@ != "public_key"@,
        "utls"@ != "short_id"@,
        "alpn"@ != "reality"@,
        "alpn"@ != "fingerprint"@,
        "alpn"@ != "public_key"@,
        "alpn"@ != "short_id"@,
        "reality"@ != "fingerprint"@,
        "reality"@ != "public_key"@,
        "reality"@ != "short_id"@,
        "fingerprint"@ != "public_key"@,
        "fingerprint"@ != "short_id"@,
        "public_key"@ != "short_id"@,
{
    reveal_strlit("enabled");
    reveal_strlit("server_name");
    reveal_strlit("utls");
    reveal_strlit("alpn");
    reveal_strlit("reality");
    reveal_strlit("fingerprint");
    reveal_strlit("public_key");
    reveal_strlit("short_id");
    assert("enabled"@.len() == 7);
    assert("server_name"@.len() == 11);
    assert("utls"@.len() == 4);
    assert("alpn"@.len() == 4);
    assert("reality"@.len() == 7);
    assert("fingerprint"@.len() == 11);
    assert("public_key"@.len() == 10);
    assert("short_id"@.len() == 8);
    assert("enabled"@[0] == 'e');
    assert("reality"@[0] == 'r');
    assert("server_name"@[0] == 's');
    assert("fingerprint"@[0] == 'f');
    assert("utls"@[0] == 'u');
    assert("alpn"@[0] == 'a');
}

/// The keys of a transport are different keys.
proof fn lemma_transport_keys_differ()
    ensures
        "type"@ != "path"@,
        "type"@ != "headers"@,
        "type"@ != "service_name"@,
        "type"@ != "host"@,
        "type"@ != "method"@,
        "path"@ != "headers"@,
        "path"@ != "service_name"@,
        "path"@ != "host"@,
        "path"@ != "method"@,
        "headers"@ != "service_name"@,
        "headers"@ != "host"@,
        "headers"@ != "method"@,
        "service_name"@ != "host"@,
        "service_name"@ != "method"@,
        "host"@ != "method"@,
{
    reveal_strlit("type");
    reveal_strlit("path");
    reveal_strlit("headers");
    reveal_strlit("service_name");
    reveal_strlit("host");
    reveal_strlit("method");
    assert("type"@.len() == 4);
    assert("path"@.len() == 4);
    assert("headers"@.len() == 7);
    assert("service_name"@.len() == 12);
    assert("host"@.len() == 4);
    assert("method"@.len() == 6);
    assert("type"@[0] == 't');
    assert("path"@[0] == 'p');
    assert("host"@[0] == 'h');
}

// ---- Parameters ----

/// Of a parameter that is given more than once the last value counts; others make no
/// difference to it.
pub proof fn law_last_param_counts(
    query: Seq<(Seq<char>, Seq<char>)>,
    key: Seq<char>,
    value: Seq<char>,
    other: Seq<char>,
)
    ensures
        param(Seq::empty(), key) is None,
        param(query.push((key, value)), key) == Some(value),
        other != key ==> param(query.push((other, value)), key) == param(query, key),
        (UrlView { host: None, port: None, username: key, query }).param(key) == param(query, key),
{
    assert(query.push((key, value)).drop_last() =~= query);
    assert(query.push((other, value)).drop_last() =~= query);
}

// ---- VLESS and Trojan ----

/// The entries of the outbound of a VLESS or Trojan link: the type, the host and the
/// port of the link (443 where it names none), its user, and for VLESS its flow.
/// There are no others but TLS settings and a transport.
pub proof fn law_url_entries(url: UrlView, is_trojan: bool)
    ensures
        ({
            let o = url_outbound(url, is_trojan);
            &&& o.field("type"@) == Some(
                JsonView::Str(
                    if is_trojan {
                        "trojan"@
                    } else {
                        "vless"@
                    },
                ),
            )
            &&& o.field("tag"@) == Some(JsonView::Str("proxy"@))
            &&& url.host matches Some(h) ==> o.field("server"@) == Some(JsonView::Str(h))
            &&& url.host is None ==> o.field("server"@) == Some(JsonView::Str(""@))
            &&& url.port matches Some(p) ==> o.field("server_port"@) == Some(
                JsonView::Number(JsonNumber::Unsigned(p as u64)),
            )
            &&& url.port is None ==> o.field("server_port"@) == Some(
                JsonView::Number(JsonNumber::Unsigned(443)),
            )
            &&& o.field("packet_encoding"@) == Some(JsonView::Str("xudp"@))
            &&& o.field("tcp_fast_open"@) == Some(JsonView::Bool(true))
            &&& is_trojan ==> {
                &&& o.field("password"@) == Some(JsonView::Str(url.username))
                &&& o.field("uuid"@) is None
                &&& o.field("flow"@) is None
            }
            &&& !is_trojan ==> {
                &&& o.field("uuid"@) == Some(JsonView::Str(url.username))
                &&& o.field("password"@) is None
                &&& param(url.query, "flow"@) matches Some(f) ==> o.field("flow"@) == Some(
                    JsonView::Str(f),
                )
                &&& param(url.query, "flow"@) is None ==> o.field("flow"@) is None
            }
            &&& forall|key: Seq<char>|
                key != "type"@ && key != "tag"@ && key != "server"@ && key != "server_port"@ && key
                    != "packet_encoding"@ && key != "tcp_fast_open"@ && key != "password"@ && key
                    != "uuid"@ && key != "flow"@ && key != "tls"@ && key != "transport"@
                    ==> #[trigger] o.field(key) is None
        }),
{
    lemma_outbound_keys_differ();
}

/// A VLESS or Trojan link has TLS settings if it asks for TLS or Reality, and a
/// Trojan link unless it refuses them. They name the server that the link names for
/// TLS, else its host, and its fingerprint, else that of Chrome; Reality has its key
/// and its short id.
pub proof fn law_url_tls(url: UrlView, is_trojan: bool)
    ensures
        ({
            let o = url_outbound(url, is_trojan);
            let security = param(url.query, "security"@);
            &&& o.field("tls"@) is Some <==> security == Some("tls"@) || security == Some(
                "reality"@,
            ) || (is_trojan && security != Some("none"@))
            &&& o.field("tls"@) matches Some(tls) ==> {
                &&& tls.field("enabled"@) == Some(JsonView::Bool(true))
                &&& param(url.query, "sni"@) matches Some(sni) ==> tls.field("server_name"@) == Some(
                    JsonView::Str(sni),
                )
                &&& param(url.query, "sni"@) is None && url.host is Some ==> tls.field(
                    "server_name"@,
                ) == Some(JsonView::Str(url.host->0))
                &&& tls.field("utls"@) matches Some(utls) && {
                    &&& utls.field("enabled"@) == Some(JsonView::Bool(true))
                    &&& param(url.query, "fp"@) matches Some(fp) ==> utls.field("fingerprint"@)
                        == Some(JsonView::Str(fp))
                    &&& param(url.query, "fp"@) is None ==> utls.field("fingerprint"@) == Some(
                        JsonView::Str("chrome"@),
                    )
                }
                &&& tls.field("reality"@) is Some <==> security == Some("reality"@)
                &&& tls.field("reality"@) matches Some(reality) ==> {
                    &&& reality.field("enabled"@) == Some(JsonView::Bool(true))
                    &&& param(url.query, "pbk"@) matches Some(k) ==> reality.field("public_key"@)
                        == Some(JsonView::Str(k))
                    &&& param(url.query, "sid"@) matches Some(s) ==> reality.field("short_id"@)
                        == Some(JsonView::Str(s))
                    &&& param(url.query, "pbk"@) is None ==> reality.field("public_key"@) == Some(
                        JsonView::Str(""@),
                    )
                    &&& param(url.query, "sid"@) is None ==> reality.field("short_id"@) == Some(
                        JsonView::Str(""@),
                    )
                }
                &&& offers(tls.field("alpn"@), param(url.query, "alpn"@))
            }
        }),
{
    lemma_outbound_keys_differ();
    lemma_tls_keys_differ();
    reveal_strlit("");
    reveal_strlit("tls");
    reveal_strlit("reality");
    reveal_strlit("none");
    assert("tls"@.len() == 3 && "reality"@.len() == 7 && "none"@.len() == 4 && ""@.len() == 0);
    lemma_offers(param(url.query, "alpn"@));
}

/// The transport of a VLESS or Trojan link is the one that its `type` names, with the
/// path, the host, the service and the method of the link; another type, or none, is
/// no transport.
pub proof fn law_url_transport(url: UrlView, is_trojan: bool)
    ensures
        is_transport(
            url_outbound(url, is_trojan).field("transport"@),
            param(url.query, "type"@),
            param(url.query, "path"@),
            if param(url.query, "serviceName"@) is Some {
                param(url.query, "serviceName"@)
            } else {
                param(url.query, "path"@)
            },
            param(url.query, "host"@),
            url.host,
            param(url.query, "method"@),
        ),
{
    lemma_outbound_keys_differ();
    lemma_transport_keys_differ();
    lemma_transport_names();
    reveal_strlit("");
    assert(""@.len() == 0);
    let host = param(url.query, "host"@);
    let o = url_outbound(url, is_trojan);
    if o.field("transport"@) is Some && o.field("transport"@)->0.field("host"@) is Some {
        let items = o.field("transport"@)->0.field("host"@)->0->Array_0;
        assert(items.len() == 1);
    }
}

/// A transport is the one that a name asks for, with what it is to be told.
pub open spec fn is_transport(
    transport: Option<JsonView>,
    net: Option<Seq<char>>,
    path: Option<Seq<char>>,
    service: Option<Seq<char>>,
    host: Option<Seq<char>>,
    server: Option<Seq<char>>,
    method: Option<Seq<char>>,
) -> bool {
    &&& transport is Some <==> net == Some("ws"@) || net == Some("grpc"@) || net == Some("h2"@)
        || net == Some("http"@)
    &&& transport matches Some(t) ==> {
        &&& net == Some("ws"@) ==> {
            &&& t.field("type"@) == Some(JsonView::Str("ws"@))
            &&& path matches Some(p) ==> t.field("path"@) == Some(JsonView::Str(p))
            &&& path is None ==> t.field("path"@) == Some(JsonView::Str("/"@))
            &&& t.field("headers"@) matches Some(JsonView::Object(h)) && {
                &&& host matches Some(x) ==> h.dom() == set!["Host"@] && h["Host"@] == JsonView::Str(
                    x,
                )
                &&& host is None ==> h.dom() == Set::<Seq<char>>::empty()
            }
        }
        &&& net == Some("grpc"@) ==> {
            &&& t.field("type"@) == Some(JsonView::Str("grpc"@))
            &&& service matches Some(x) ==> t.field("service_name"@) == Some(JsonView::Str(x))
            &&& service is None ==> t.field("service_name"@) == Some(JsonView::Str(""@))
        }
        &&& net == Some("h2"@) || net == Some("http"@) ==> {
            &&& t.field("type"@) == Some(JsonView::Str("http"@))
            &&& t.field("host"@) matches Some(JsonView::Array(hosts)) && {
                &&& hosts.len() == 1
                &&& host matches Some(x) ==> hosts[0] == JsonView::Str(x)
                &&& host is None && server is Some ==> hosts[0] == JsonView::Str(server->0)
            }
            &&& path matches Some(p) ==> t.field("path"@) == Some(JsonView::Str(p))
            &&& path is None ==> t.field("path"@) == Some(JsonView::Str("/"@))
            &&& method matches Some(m) ==> t.field("method"@) == Some(JsonView::Str(m))
            &&& method is None ==> t.field("method"@) == Some(JsonView::Str("GET"@))
        }
    }
}

/// Application protocols are those of a list with commas between them, or HTTP/2 and
/// HTTP/1.1 where there is no list.
pub open spec fn offers(alpn: Option<JsonView>, listed: Option<Seq<char>>) -> bool {
    alpn matches Some(JsonView::Array(items)) && {
        &&& listed matches Some(l) ==> exists|list: Seq<Seq<char>>|
            items.len() == list.len() && #[trigger] joined_by(list, seq![',']) == l && forall|i: int|
                0 <= i < items.len() ==> #[trigger] items[i] == JsonView::Str(list[i])
                    && !list[i].contains(',')
        &&& listed is None ==> items.len() == 2 && items[0] == JsonView::Str("h2"@) && items[1]
            == JsonView::Str("http/1.1"@)
    }
}

proof fn lemma_offers(listed: Option<Seq<char>>)
    ensures
        offers(Some(texts_view(alpn_view(listed))), listed),
        alpn_view(listed).len() > 0,
{
    let list = alpn_view(listed);
    let items = texts_view(list)->Array_0;
    if listed is Some {
        law_pieces_join(listed->0, ',');
        assert(joined_by(list, seq![',']) == listed->0);
    }
}

proof fn lemma_transport_names()
    ensures
        "ws"@ != "grpc"@,
        "ws"@ != "h2"@,
        "ws"@ != "http"@,
        "grpc"@ != "h2"@,
        "grpc"@ != "http"@,
        "h2"@ != "http"@,
        ""@ != "ws"@,
        ""@ != "grpc"@,
        ""@ != "h2"@,
        ""@ != "http"@,
        "tcp"@ != "ws"@,
        "tcp"@ != "grpc"@,
        "tcp"@ != "h2"@,
        "tcp"@ != "http"@,
{
    reveal_strlit("ws");
    reveal_strlit("grpc");
    reveal_strlit("h2");
    reveal_strlit("http");
    reveal_strlit("tcp");
    reveal_strlit("");
    assert("ws"@.len() == 2 && "grpc"@.len() == 4 && "h2"@.len() == 2 && "http"@.len() == 4);
    assert("tcp"@.len() == 3 && ""@.len() == 0);
    assert("ws"@[0] == 'w' && "h2"@[0] == 'h' && "grpc"@[0] == 'g' && "http"@[0] == 'h');
}

// ---- VMess ----

/// The entries of the outbound of a VMess node: its address, its port (443 where it
/// names none that is an integer), its user, and its cipher. There are no others but
/// TLS settings and a transport.
pub proof fn law_vmess_entries(node: JsonView)
    ensures
        vmess_view(node) is Ok <==> node.text_field("add"@) is Some && node.text_field(
            "id"@,
        ) is Some,
        vmess_view(node) matches Ok(o) ==> {
            &&& o.field("type"@) == Some(JsonView::Str("vmess"@))
            &&& o.field("tag"@) == Some(JsonView::Str("proxy"@))
            &&& o.field("server"@) == node.field("add"@)
            &&& o.field("uuid"@) == node.field("id"@)
            &&& o.field("server_port"@) matches Some(JsonView::Number(JsonNumber::Unsigned(port)))
                && is_port(port, node.field("port"@))
            &&& node.text_field("scy"@) is Some ==> o.field("security"@) == node.field("scy"@)
            &&& node.text_field("scy"@) is None ==> o.field("security"@) == Some(
                JsonView::Str("auto"@),
            )
            &&& o.field("packet_encoding"@) == Some(JsonView::Str("xudp"@))
            &&& o.field("tcp_fast_open"@) == Some(JsonView::Bool(true))
            &&& forall|key: Seq<char>|
                key != "type"@ && key != "tag"@ && key != "server"@ && key != "server_port"@ && key
                    != "packet_encoding"@ && key != "tcp_fast_open"@ && key != "uuid"@ && key
                    != "security"@ && key != "tls"@ && key != "transport"@
                    ==> #[trigger] o.field(key) is None
        },
{
    lemma_outbound_keys_differ();
}

/// A port is the one that a node names: the number itself where it is a port, else
/// its lowest sixteen bits, and 443 where the node names no integer.
pub open spec fn is_port(port: u64, named: Option<JsonView>) -> bool {
    &&& port <= 65535
    &&& (named matches Some(v) && v.signed() is Some) ==> {
        &&& 0 <= named->0.signed()->0 <= 65535 ==> port == named->0.signed()->0
        &&& (named->0.signed()->0 - port) % 65536 == 0
    }
    &&& !(named matches Some(v) && v.signed() is Some) ==> port == 443
}

/// A VMess node has TLS settings exactly if its `tls` says `tls`. They name the
/// server that it names for TLS, else its host, else its address, and its
/// fingerprint, else that of Chrome.
pub proof fn law_vmess_tls(node: JsonView)
    ensures
        vmess_view(node) matches Ok(o) ==> {
            &&& o.field("tls"@) is Some <==> node.text_field("tls"@) == Some("tls"@)
            &&& o.field("tls"@) matches Some(tls) ==> {
                &&& tls.field("enabled"@) == Some(JsonView::Bool(true))
                &&& node.text_field("sni"@) is Some ==> tls.field("server_name"@) == node.field(
                    "sni"@,
                )
                &&& node.field("sni"@) is None && node.text_field("host"@) is Some ==> tls.field(
                    "server_name"@,
                ) == node.field("host"@)
                &&& node.field("sni"@) is None && node.field("host"@) is None ==> tls.field(
                    "server_name"@,
                ) == node.field("add"@)
                &&& tls.field("utls"@) matches Some(utls) && {
                    &&& utls.field("enabled"@) == Some(JsonView::Bool(true))
                    &&& node.text_field("fp"@) is Some ==> utls.field("fingerprint"@) == node.field(
                        "fp"@,
                    )
                    &&& node.text_field("fp"@) is None ==> utls.field("fingerprint"@) == Some(
                        JsonView::Str("chrome"@),
                    )
                }
                &&& tls.field("reality"@) is None
                &&& offers(tls.field("alpn"@), node.text_field("alpn"@))
            }
        },
{
    lemma_outbound_keys_differ();
    lemma_tls_keys_differ();
    lemma_offers(node.text_field("alpn"@));
}

/// The transport of a VMess node is the one that its `net` names, with the path, the
/// host and the method of the node; the path is also the service.
pub proof fn law_vmess_transport(node: JsonView)
    ensures
        vmess_view(node) matches Ok(o) ==> is_transport(
            o.field("transport"@),
            node.text_field("net"@),
            node.text_field("path"@),
            node.text_field("path"@),
            node.text_field("host"@),
            node.text_field("add"@),
            node.text_field("method"@),
        ),
{
    lemma_outbound_keys_differ();
    lemma_transport_keys_differ();
    lemma_transport_names();
    if vmess_view(node) is Ok {
        let o = vmess_view(node)->Ok_0;
        if o.field("transport"@) is Some && o.field("transport"@)->0.field("host"@) is Some {
            let items = o.field("transport"@)->0.field("host"@)->0->Array_0;
            assert(items.len() == 1);
        }
    }
}

// ---- Links ----

/// Which scheme a link begins with decides what is made of it. A Trojan link that is
/// a URL has a Trojan outbound with the user, the host and the port of that URL, a
/// VLESS link a VLESS one, and neither has one if it is no URL. A link without
/// characters and one with another scheme are refused.
pub proof fn law_schemes(link: Seq<char>)
    ensures
        ({
            let l = trimmed(link);
            let vmess = has_prefix_ignoring_case(l, "vmess://"@);
            let trojan = has_prefix_ignoring_case(l, "trojan://"@);
            let vless = has_prefix_ignoring_case(l, "vless://"@);
            &&& l.len() == 0 ==> link_view(link) == Err::<JsonView, Seq<char>>("链接为空"@)
            &&& (trojan || vless) && parsed_url(l) is None ==> link_view(link) == Err::<
                JsonView,
                Seq<char>,
            >("链接格式无效，请检查是否完整"@)
            &&& (trojan || vless) && parsed_url(l) is Some ==> (link_view(link) matches Ok(o) && {
                let url = parsed_url(l)->0;
                &&& o.field("type"@) == Some(
                    JsonView::Str(
                        if trojan {
                            "trojan"@
                        } else {
                            "vless"@
                        },
                    ),
                )
                &&& o.field(
                    if trojan {
                        "password"@
                    } else {
                        "uuid"@
                    },
                ) == Some(JsonView::Str(url.username))
                &&& url.host is Some ==> o.field("server"@) == Some(JsonView::Str(url.host->0))
                &&& url.port is Some ==> o.field("server_port"@) == Some(
                    JsonView::Number(JsonNumber::Unsigned(url.port->0 as u64)),
                )
            })
            &&& l.len() > 0 && !vmess && !trojan && !vless ==> link_view(link) == Err::<
                JsonView,
                Seq<char>,
            >("格式未能识别！目前仅支持 vmess://、vless:// 或 trojan:// 分享链接"@)
        }),
{
    let l = trimmed(link);
    lemma_one_scheme(l);
    reveal_strlit("vmess://");
    reveal_strlit("vless://");
    reveal_strlit("trojan://");
    assert("vmess://"@.len() == 8 && "vless://"@.len() == 8 && "trojan://"@.len() == 9);
    if parsed_url(l) is Some {
        law_url_entries(parsed_url(l)->0, true);
        law_url_entries(parsed_url(l)->0, false);
    }
}

/// What stands in a VMess link is base64 of the node's data. It has an outbound if
/// that is an object with an address and a user, which are then the outbound's; else
/// the answer says what is wrong.
pub proof fn law_vmess_link(payload: Seq<char>)
    requires
        !payload.contains('#'),
        payload.len() > 0 ==> !is_white_space(payload.last()),
    ensures
        ({
            let r = link_view("vmess://"@ + payload);
            &&& base64_text(payload) matches Err(e) ==> r == Err::<JsonView, Seq<char>>(e)
            &&& base64_text(payload) matches Ok(text) ==> match parsed_json(text) {
                Ok(JsonView::Object(m)) => {
                    let node = JsonView::Object(m);
                    &&& node.text_field("add"@) is None ==> r == Err::<JsonView, Seq<char>>(
                        "VMess 缺少 add"@,
                    )
                    &&& node.text_field("add"@) is Some && node.text_field("id"@) is None ==> r
                        == Err::<JsonView, Seq<char>>("VMess 缺少 id"@)
                    &&& node.text_field("add"@) is Some && node.text_field("id"@) is Some ==> (
                    r matches Ok(o) && o.field("type"@) == Some(JsonView::Str("vmess"@)) && o.field(
                        "server"@,
                    ) == node.field("add"@) && o.field("uuid"@) == node.field("id"@))
                },
                _ => r == Err::<JsonView, Seq<char>>("VMess 解析失败：节点数据格式异常"@),
            }
        }),
{
    reveal_strlit("vmess://");
    let scheme = "vmess://"@;
    let link = scheme + payload;
    assert(scheme.len() == 8);
    assert(scheme[0] == 'v' && scheme[7] == '/');
    assert(link.last() == if payload.len() > 0 { payload.last() } else { '/' });
    lemma_trimmed_same(link);
    assert(link.skip(8) =~= payload);
    lemma_before(payload, '#', Seq::empty());
    assert forall|i: int| 0 <= i < scheme.len() implies ascii_lower(
        #[trigger] link[i],
    ) == scheme[i] by {
        assert(link[i] == scheme[i]);
    }
    if base64_text(payload) is Ok && parsed_json(base64_text(payload)->Ok_0) is Ok {
        law_vmess_entries(parsed_json(base64_text(payload)->Ok_0)->Ok_0);
    }
}

/// A link whose scheme is that of VMess in lower case fits, and so does one of another
/// scheme or of none; VMess in other letters does not.
pub proof fn law_fitting_links(rest: Seq<char>, link: Seq<char>)
    ensures
        trimmed(link) == "vmess://"@ + rest ==> vmess_in_lower_case(link),
        trimmed(link) == "vless://"@ + rest ==> vmess_in_lower_case(link),
        trimmed(link) == "trojan://"@ + rest ==> vmess_in_lower_case(link),
        trimmed(link) == "VMESS://"@ + rest ==> !vmess_in_lower_case(link),
        trimmed(link).len() < 8 ==> vmess_in_lower_case(link),
{
    reveal_strlit("vmess://");
    reveal_strlit("vless://");
    reveal_strlit("trojan://");
    reveal_strlit("VMESS://");
    let t = trimmed(link);
    let vmess = "vmess://"@;
    assert(vmess.len() == 8 && vmess[0] == 'v' && vmess[1] == 'm');
    if t == vmess + rest {
        assert(t.take(8) =~= vmess);
    }
    if t == "vless://"@ + rest {
        assert(t[1] == 'l');
        assert(ascii_lower(t[1]) == 'l');
    }
    if t == "trojan://"@ + rest {
        assert(t[1] == 'r');
        assert(ascii_lower(t[1]) == 'r');
    }
    if t == "VMESS://"@ + rest {
        let upper = "VMESS://"@;
        assert forall|i: int| 0 <= i < 8 implies ascii_lower(#[trigger] t[i]) == vmess[i] by {
            assert(t[i] == upper[i]);
        }
        assert(t.take(8)[0] == 'V');
    }
}

} // verus!
