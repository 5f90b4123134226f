//! From a share link to the configuration of sing-box: `vmess`, `vless` and
//! `trojan` links become an outbound, which takes the place of the proxy in a
//! built-in template.
use vstd::prelude::*;

use crate::codec::{base64_text, decode_base64};
use crate::config_laws::{law_configured_is_plain, law_outbound_is_plain, lemma_name_ignored};
use crate::json::{
    bool_value, bool_view, entries_view, is_plain, items_view, lemma_set_same,
    lemma_set_without, max_depth, parse_json, parsed_json, plain_within, put, rendered_json,
    text_value,
    text_view, texts_value, texts_view, to_string_pretty, unsigned_value, unsigned_view, Json,
    JsonView, MAX_DEPTH,
};
use crate::text::{
    ascii_lower, before, decimal, has_prefix, has_prefix_ignoring_case, is_blank, joined,
    lemma_first_index_bounds, number_text, opt_view, owned_view, pieces,
    same_text, split, starts_with, starts_with_ignoring_case, strip_prefix, texts, trim,
    trimmed, until,
};

verus! {

// ---- What a link says ----

/// The parts of a link that is a URL.
#[derive(Debug, PartialEq, Eq)]
pub struct UrlParts {
    pub host: Option<String>,
    pub port: Option<u16>,
    pub username: String,
    pub query: Vec<(String, String)>,
}

/// The parts of a link that is a URL, as sequences of characters.
#[verifier::ext_equal]
pub struct UrlView {
    pub host: Option<Seq<char>>,
    pub port: Option<u16>,
    pub username: Seq<char>,
    pub query: Seq<(Seq<char>, Seq<char>)>,
}

/// Pairs of texts, as sequences of characters.
pub open spec fn pairs_view(pairs: Seq<(String, String)>) -> Seq<(Seq<char>, Seq<char>)> {
    pairs.map_values(|p: (String, String)| (p.0@, p.1@))
}

impl View for UrlParts {
    type V = UrlView;

    open spec fn view(&self) -> UrlView {
        UrlView {
            host: owned_view(self.host),
            port: self.port,
            username: self.username@,
            query: pairs_view(self.query@),
        }
    }
}

/// A link is a URL: `Url::parse` takes it.
pub uninterp spec fn is_url(link: Seq<char>) -> bool;

/// The host of a URL, as `Url::host_str` gives it.
pub uninterp spec fn url_host(link: Seq<char>) -> Option<Seq<char>>;

/// The port of a URL, as `Url::port` gives it.
pub uninterp spec fn url_port(link: Seq<char>) -> Option<u16>;

/// The user name of a URL, as `Url::username` gives it.
pub uninterp spec fn url_username(link: Seq<char>) -> Seq<char>;

/// The parameters of a URL, as `Url::query_pairs` gives them.
pub uninterp spec fn url_query(link: Seq<char>) -> Seq<(Seq<char>, Seq<char>)>;

/// The parts of a link; none if it is no URL.
pub open spec fn parsed_url(link: Seq<char>) -> Option<UrlView> {
    if is_url(link) {
        Some(
            UrlView {
                host: url_host(link),
                port: url_port(link),
                username: url_username(link),
                query: url_query(link),
            },
        )
    } else {
        None
    }
}

/// The parts of a link, as sequences of characters.
pub open spec fn url_view(parts: Option<UrlParts>) -> Option<UrlView> {
    match parts {
        Some(u) => Some(u@),
        None => None,
    }
}

/// A link without a name: printable ASCII, no blank and no `#` in it.
pub open spec fn is_nameless(link: Seq<char>) -> bool {
    &&& link.len() > 0
    &&& forall|i: int|
        0 <= i < link.len() ==> '!' <= #[trigger] link[i] <= '~' && link[i] != '#'
}

/// What stands after the scheme of a URL is more than an at sign, and short enough
/// for its escaped form to have a length below 2^32.
pub open spec fn is_proper_rest(rest: Seq<char>) -> bool {
    rest != seq!['@'] && rest.len() < 0x4000_0000
}

/// A VLESS or Trojan link without a name, of a proper form.
pub open spec fn is_nameless_url(link: Seq<char>) -> bool {
    &&& is_nameless(link)
    &&& {
        ||| has_prefix_ignoring_case(link, "vless://"@) && is_proper_rest(
            link.skip("vless://"@.len() as int),
        )
        ||| has_prefix_ignoring_case(link, "trojan://"@) && is_proper_rest(
            link.skip("trojan://"@.len() as int),
        )
    }
}

/// `Url::parse`, and of what it returns the host (`host_str`), the port where it
/// is written out (`port`), the user name as it is written (`username`) and the
/// decoded parameters in their order (`query_pairs`). Each depends on the link
/// alone. Of a VLESS or Trojan link, what stands after `#` goes into the fragment,
/// which is none of these parts: they are those of what stands before. That is said
/// of what stands before where it is printable ASCII, more than an at sign after the
/// scheme (where `Url::parse` takes the end but refuses a `#`), and not too long (it
/// refuses a fragment that starts at 2^32 bytes or later).
#[verifier::external_body]
fn parse_url(link: &str) -> (r: Option<UrlParts>)
    ensures
        r is Some == is_url(link@),
        r is Some ==> r->0@.host == url_host(link@),
        r is Some ==> r->0@.port == url_port(link@),
        r is Some ==> r->0@.username == url_username(link@),
        r is Some ==> r->0@.query == url_query(link@),
        is_nameless_url(before(link@, '#')) ==> url_view(r) == parsed_url(before(link@, '#')),
{
    let url = url::Url::parse(link).ok()?;
    Some(
        UrlParts {
            host: url.host_str().map(|h| h.to_string()),
            port: url.port(),
            username: url.username().to_string(),
            query: url.query_pairs().into_owned().collect(),
        },
    )
}

/// The value of a parameter; where it is given more than once, the last counts.
pub open spec fn param(query: Seq<(Seq<char>, Seq<char>)>, key: Seq<char>) -> Option<Seq<char>>
    decreases query.len(),
{
    if query.len() == 0 {
        None
    } else if query.last().0 == key {
        Some(query.last().1)
    } else {
        param(query.drop_last(), key)
    }
}

impl UrlView {
    /// The value of a parameter.
    pub open spec fn param(self, key: Seq<char>) -> Option<Seq<char>> {
        param(self.query, key)
    }

    /// The host, empty where there is none.
    pub open spec fn host_text(self) -> Seq<char> {
        or_text(self.host, ""@)
    }
}

/// A text, or another in its place.
pub open spec fn or_text(text: Option<Seq<char>>, other: Seq<char>) -> Seq<char> {
    match text {
        Some(t) => t,
        None => other,
    }
}

/// What making an outbound gave, as mathematical values.
pub open spec fn result_view(r: Result<Json, String>) -> Result<JsonView, Seq<char>> {
    match r {
        Ok(j) => Ok(j@),
        Err(e) => Err(e@),
    }
}

/// What making a text gave, as sequences of characters.
pub open spec fn text_result_view(r: Result<String, String>) -> Result<Seq<char>, Seq<char>> {
    match r {
        Ok(s) => Ok(s@),
        Err(e) => Err(e@),
    }
}

/// An object without entries.
pub open spec fn object() -> JsonView {
    JsonView::Object(Map::empty())
}

/// The application protocols that TLS offers: those that are listed, else HTTP/2
/// and HTTP/1.1.
pub open spec fn alpn_view(listed: Option<Seq<char>>) -> Seq<Seq<char>> {
    match listed {
        Some(l) => pieces(l, ','),
        None => seq!["h2"@, "http/1.1"@],
    }
}

/// The TLS settings of an outbound.
pub open spec fn tls_view(
    server_name: Seq<char>,
    fingerprint: Seq<char>,
    security: Option<Seq<char>>,
    pbk: Option<Seq<char>>,
    sid: Option<Seq<char>>,
    alpns: Seq<Seq<char>>,
) -> JsonView {
    let plain = object().set("enabled"@, bool_view(true)).set(
        "server_name"@,
        text_view(server_name),
    ).set(
        "utls"@,
        object().set("enabled"@, bool_view(true)).set("fingerprint"@, text_view(fingerprint)),
    );
    let listed = if alpns.len() > 0 {
        plain.set("alpn"@, texts_view(alpns))
    } else {
        plain
    };
    if security == Some("reality"@) {
        listed.set(
            "reality"@,
            object().set("enabled"@, bool_view(true)).set(
                "public_key"@,
                text_view(or_text(pbk, ""@)),
            ).set("short_id"@, text_view(or_text(sid, ""@))),
        )
    } else {
        listed
    }
}

/// The `ws` transport.
pub open spec fn ws_view(path: Option<Seq<char>>, host: Option<Seq<char>>) -> JsonView {
    object().set("type"@, text_view("ws"@)).set("path"@, text_view(or_text(path, "/"@))).set(
        "headers"@,
        match host {
            Some(h) => object().set("Host"@, text_view(h)),
            None => object(),
        },
    )
}

/// The `grpc` transport.
pub open spec fn grpc_view(service: Option<Seq<char>>) -> JsonView {
    object().set("type"@, text_view("grpc"@)).set(
        "service_name"@,
        text_view(or_text(service, ""@)),
    )
}

/// The `http` transport.
pub open spec fn http_view(
    host: Seq<char>,
    path: Option<Seq<char>>,
    method: Option<Seq<char>>,
) -> JsonView {
    object().set("type"@, text_view("http"@)).set("host"@, texts_view(seq![host])).set(
        "path"@,
        text_view(or_text(path, "/"@)),
    ).set("method"@, text_view(or_text(method, "GET"@)))
}

/// An outbound with a transport, where one is asked for.
pub open spec fn with_transport(
    outbound: JsonView,
    net: Seq<char>,
    path: Option<Seq<char>>,
    service: Option<Seq<char>>,
    host: Option<Seq<char>>,
    fallback_host: Seq<char>,
    method: Option<Seq<char>>,
) -> JsonView {
    if net == "ws"@ {
        outbound.set("transport"@, ws_view(path, host))
    } else if net == "grpc"@ {
        outbound.set("transport"@, grpc_view(service))
    } else if net == "h2"@ || net == "http"@ {
        outbound.set("transport"@, http_view(or_text(host, fallback_host), path, method))
    } else {
        outbound
    }
}

/// The port that an integer stands for: its lowest sixteen bits.
pub open spec fn port_of(n: int) -> u16 {
    (n % 65536) as u16
}

/// The server name of a VMess node: what stands under `sni`, else under `host`,
/// where it is a text; else the address.
pub open spec fn vmess_server_name(node: JsonView, add: Seq<char>) -> Seq<char> {
    let named = match node.field("sni"@) {
        Some(v) => Some(v),
        None => node.field("host"@),
    };
    match named {
        Some(v) => or_text(v.text(), add),
        None => add,
    }
}

/// The outbound of a VMess node with the address `add` and the user `id`.
pub open spec fn vmess_fields(node: JsonView, add: Seq<char>, id: Seq<char>) -> JsonView {
    let port: int = match node.field("port"@) {
        Some(v) => match v.signed() {
            Some(n) => n as int,
            None => 443,
        },
        None => 443,
    };
    let plain = object().set("type"@, text_view("vmess"@)).set("tag"@, text_view("proxy"@)).set(
        "server"@,
        text_view(add),
    ).set("server_port"@, unsigned_view(port_of(port) as u64)).set("uuid"@, text_view(id)).set(
        "security"@,
        text_view(or_text(node.text_field("scy"@), "auto"@)),
    ).set("packet_encoding"@, text_view("xudp"@)).set("tcp_fast_open"@, bool_view(true));
    let secured = if node.text_field("tls"@) == Some("tls"@) {
        plain.set(
            "tls"@,
            tls_view(
                vmess_server_name(node, add),
                or_text(node.text_field("fp"@), "chrome"@),
                None,
                None,
                None,
                alpn_view(node.text_field("alpn"@)),
            ),
        )
    } else {
        plain
    };
    with_transport(
        secured,
        or_text(node.text_field("net"@), "tcp"@),
        node.text_field("path"@),
        node.text_field("path"@),
        node.text_field("host"@),
        add,
        node.text_field("method"@),
    )
}

/// The outbound of a VMess node, or what the node lacks.
pub open spec fn vmess_view(node: JsonView) -> Result<JsonView, Seq<char>> {
    match (node.text_field("add"@), node.text_field("id"@)) {
        (None, _) => Err("VMess 缺少 add"@),
        (Some(_), None) => Err("VMess 缺少 id"@),
        (Some(add), Some(id)) => Ok(vmess_fields(node, add, id)),
    }
}

/// The outbound of a VMess node, given what reading its data gave.
pub open spec fn vmess_of_data(data: Result<JsonView, Seq<char>>) -> Result<JsonView, Seq<char>> {
    match data {
        Ok(node) => if node is Object {
            vmess_view(node)
        } else {
            Err("VMess 解析失败：节点数据格式异常"@)
        },
        Err(_) => Err("VMess 解析失败：节点数据格式异常"@),
    }
}

/// The TLS security of a link, empty where it names none.
pub open spec fn url_security(url: UrlView) -> Seq<char> {
    or_text(url.param("security"@), ""@)
}

/// A link asks for TLS: by name, and a Trojan link also by not refusing it.
pub open spec fn url_needs_tls(url: UrlView, is_trojan: bool) -> bool {
    let security = url_security(url);
    security == "tls"@ || security == "reality"@ || (is_trojan && security != "none"@)
}

/// The outbound of a VLESS or Trojan link.
pub open spec fn url_outbound(url: UrlView, is_trojan: bool) -> JsonView {
    let plain = object().set("tag"@, text_view("proxy"@)).set(
        "server"@,
        text_view(url.host_text()),
    ).set(
        "server_port"@,
        unsigned_view(
            match url.port {
                Some(p) => p as u64,
                None => 443,
            },
        ),
    ).set("packet_encoding"@, text_view("xudp"@)).set("tcp_fast_open"@, bool_view(true));
    let named = if is_trojan {
        plain.set("type"@, text_view("trojan"@)).set("password"@, text_view(url.username))
    } else {
        let vless = plain.set("type"@, text_view("vless"@)).set("uuid"@, text_view(url.username));
        match url.param("flow"@) {
            Some(flow) => vless.set("flow"@, text_view(flow)),
            None => vless,
        }
    };
    let secured = if url_needs_tls(url, is_trojan) {
        named.set(
            "tls"@,
            tls_view(
                or_text(url.param("sni"@), url.host_text()),
                or_text(url.param("fp"@), "chrome"@),
                Some(url_security(url)),
                url.param("pbk"@),
                url.param("sid"@),
                alpn_view(url.param("alpn"@)),
            ),
        )
    } else {
        named
    };
    with_transport(
        secured,
        or_text(url.param("type"@), ""@),
        url.param("path"@),
        match url.param("serviceName"@) {
            Some(s) => Some(s),
            None => url.param("path"@),
        },
        url.param("host"@),
        url.host_text(),
        url.param("method"@),
    )
}

/// The outbound of a VLESS or Trojan link, given its parts.
pub open spec fn url_of_parts(url: Option<UrlView>, is_trojan: bool) -> Result<
    JsonView,
    Seq<char>,
> {
    match url {
        Some(u) => Ok(url_outbound(u, is_trojan)),
        None => Err("链接格式无效，请检查是否完整"@),
    }
}

/// A link that begins with `vmess://` in any case begins so in lower case.
pub open spec fn vmess_in_lower_case(link: Seq<char>) -> bool {
    has_prefix_ignoring_case(trimmed(link), "vmess://"@) ==> has_prefix(
        trimmed(link),
        "vmess://"@,
    )
}

/// The base64 of a VMess link: what stands after the scheme and before the name.
pub open spec fn vmess_payload(link: Seq<char>) -> Seq<char> {
    before(link.skip("vmess://"@.len() as int), '#')
}

/// The outbound that a link describes, or what is wrong with the link.
pub open spec fn link_view(link: Seq<char>) -> Result<JsonView, Seq<char>> {
    let link = trimmed(link);
    if link.len() == 0 {
        Err("链接为空"@)
    } else if has_prefix_ignoring_case(link, "vmess://"@) {
        match base64_text(vmess_payload(link)) {
            Ok(text) => vmess_of_data(parsed_json(text)),
            Err(e) => Err(e),
        }
    } else if has_prefix_ignoring_case(link, "trojan://"@) {
        url_of_parts(parsed_url(link), true)
    } else if has_prefix_ignoring_case(link, "vless://"@) {
        url_of_parts(parsed_url(link), false)
    } else {
        Err("格式未能识别！目前仅支持 vmess://、vless:// 或 trojan:// 分享链接"@)
    }
}

/// A link with a name after it and blanks around it.
pub open spec fn named_link(
    a: Seq<char>,
    link: Seq<char>,
    name: Seq<char>,
    b: Seq<char>,
) -> Seq<char> {
    a + (link + seq!['#'] + name) + b
}

/// A link that a name can be put after without making another link of it.
pub open spec fn takes_name(link: Seq<char>) -> bool {
    &&& is_nameless(link)
    &&& has_prefix_ignoring_case(link, "vless://"@) ==> is_proper_rest(
        link.skip("vless://"@.len() as int),
    )
    &&& has_prefix_ignoring_case(link, "trojan://"@) ==> is_proper_rest(
        link.skip("trojan://"@.len() as int),
    )
}

/// `r` is what the link without its name and the blanks around it gives.
pub open spec fn ignores_name(link: Seq<char>, r: Result<JsonView, Seq<char>>) -> bool {
    forall|a: Seq<char>, plain: Seq<char>, name: Seq<char>, b: Seq<char>|
        is_blank(a) && is_blank(b) && takes_name(plain) && link == #[trigger] named_link(
            a,
            plain,
            name,
            b,
        ) ==> r == link_view(plain)
}

// ---- Reading a link ----

impl UrlParts {
    /// The value of a parameter; where it is given more than once, the last
    /// counts.
    pub fn param(&self, key: &str) -> (r: Option<&str>)
        ensures
            opt_view(r) == self@.param(key@),
    {
        let mut i: usize = self.query.len();
        assert(self@.query.take(i as int) =~= self@.query);
        while i > 0
            invariant
                i <= self.query.len(),
                self@.query == pairs_view(self.query@),
                param(self@.query, key@) == param(self@.query.take(i as int), key@),
            decreases i,
        {
            i = i - 1;
            assert(self@.query.take(i + 1).drop_last() =~= self@.query.take(i as int));
            assert(self@.query.take(i + 1).last() == (self.query[i as int].0@, self.query[i as int].1@));
            if same_text(self.query[i].0.as_str(), key) {
                return Some(self.query[i].1.as_str());
            }
        }
        None
    }

    /// The host, empty where there is none.
    pub fn host_text(&self) -> (r: &str)
        ensures
            r@ == self@.host_text(),
    {
        match &self.host {
            Some(h) => h.as_str(),
            None => "",
        }
    }
}

/// The application protocols that TLS offers.
fn alpn_list(listed: Option<&str>) -> (r: Vec<String>)
    ensures
        texts(r@) == alpn_view(opt_view(listed)),
        r.len() > 0,
{
    match listed {
        Some(l) => split(l, ','),
        None => {
            let mut list: Vec<String> = Vec::new();
            list.push("h2".to_owned());
            list.push("http/1.1".to_owned());
            assert(texts(list@) =~= seq!["h2"@, "http/1.1"@]);
            list
        },
    }
}

/// The TLS settings of an outbound.
fn build_tls(
    server_name: &str,
    fingerprint: &str,
    security: Option<&str>,
    pbk: Option<&str>,
    sid: Option<&str>,
    alpns: &Vec<String>,
) -> (r: Json)
    ensures
        r@ == tls_view(
            server_name@,
            fingerprint@,
            opt_view(security),
            opt_view(pbk),
            opt_view(sid),
            texts(alpns@),
        ),
{
    let mut utls: Vec<(String, Json)> = Vec::new();
    put(&mut utls, "enabled", bool_value(true));
    put(&mut utls, "fingerprint", text_value(fingerprint));
    let mut tls: Vec<(String, Json)> = Vec::new();
    put(&mut tls, "enabled", bool_value(true));
    put(&mut tls, "server_name", text_value(server_name));
    put(&mut tls, "utls", Json::Object(utls));
    if alpns.len() > 0 {
        put(&mut tls, "alpn", texts_value(alpns));
    }
    match security {
        Some(s) => if same_text(s, "reality") {
            let mut reality: Vec<(String, Json)> = Vec::new();
            put(&mut reality, "enabled", bool_value(true));
            put(&mut reality, "public_key", text_value(pbk.unwrap_or("")));
            put(&mut reality, "short_id", text_value(sid.unwrap_or("")));
            put(&mut tls, "reality", Json::Object(reality));
        },
        None => {},
    }
    Json::Object(tls)
}

/// Adds the transport that is asked for to an outbound.
fn put_transport(
    out: &mut Vec<(String, Json)>,
    net: &str,
    path: Option<&str>,
    service: Option<&str>,
    host: Option<&str>,
    fallback_host: &str,
    method: Option<&str>,
)
    ensures
        JsonView::Object(entries_view(final(out)@)) == with_transport(
            JsonView::Object(entries_view(old(out)@)),
            net@,
            opt_view(path),
            opt_view(service),
            opt_view(host),
            fallback_host@,
            opt_view(method),
        ),
{
    let mut transport: Vec<(String, Json)> = Vec::new();
    if same_text(net, "ws") {
        let mut headers: Vec<(String, Json)> = Vec::new();
        match host {
            Some(h) => {
                put(&mut headers, "Host", text_value(h));
            },
            None => {},
        }
        put(&mut transport, "type", text_value("ws"));
        put(&mut transport, "path", text_value(path.unwrap_or("/")));
        put(&mut transport, "headers", Json::Object(headers));
        put(out, "transport", Json::Object(transport));
    } else if same_text(net, "grpc") {
        put(&mut transport, "type", text_value("grpc"));
        put(&mut transport, "service_name", text_value(service.unwrap_or("")));
        put(out, "transport", Json::Object(transport));
    } else if same_text(net, "h2") || same_text(net, "http") {
        let mut hosts: Vec<String> = Vec::new();
        hosts.push(host.unwrap_or(fallback_host).to_owned());
        assert(texts(hosts@) =~= seq![or_text(opt_view(host), fallback_host@)]);
        put(&mut transport, "type", text_value("http"));
        put(&mut transport, "host", texts_value(&hosts));
        put(&mut transport, "path", text_value(path.unwrap_or("/")));
        put(&mut transport, "method", text_value(method.unwrap_or("GET")));
        put(out, "transport", Json::Object(transport));
    }
}

/// The lowest sixteen bits of an integer.
fn low_port(n: i64) -> (r: u16)
    ensures
        r == port_of(n as int),
{
    if n >= 0 {
        (n % 65536) as u16
    } else {
        let k: i64 = -(n + 1);
        (65535 - k % 65536) as u16
    }
}

/// The server name of a VMess node.
fn server_name_of<'a>(node: &'a Json, add: &'a str) -> (r: &'a str)
    ensures
        r@ == vmess_server_name(node@, add@),
{
    let named = match node.get("sni") {
        Some(v) => Some(v),
        None => node.get("host"),
    };
    match named {
        Some(v) => v.as_str().unwrap_or(add),
        None => add,
    }
}

/// Makes the outbound of a VMess node out of the node's data.
pub fn vmess_outbound(node: &Json) -> (r: Result<Json, String>)
    ensures
        result_view(r) == vmess_view(node@),
{
    let add = match node.get_str("add") {
        Some(add) => add,
        None => {
            return Err("VMess 缺少 add".to_owned());
        },
    };
    let id = match node.get_str("id") {
        Some(id) => id,
        None => {
            return Err("VMess 缺少 id".to_owned());
        },
    };
    let port: i64 = match node.get("port") {
        Some(v) => v.as_i64().unwrap_or(443),
        None => 443,
    };
    let mut out: Vec<(String, Json)> = Vec::new();
    put(&mut out, "type", text_value("vmess"));
    put(&mut out, "tag", text_value("proxy"));
    put(&mut out, "server", text_value(add));
    put(&mut out, "server_port", unsigned_value(low_port(port) as u64));
    put(&mut out, "uuid", text_value(id));
    put(&mut out, "security", text_value(node.get_str("scy").unwrap_or("auto")));
    put(&mut out, "packet_encoding", text_value("xudp"));
    put(&mut out, "tcp_fast_open", bool_value(true));
    let with_tls: bool = match node.get_str("tls") {
        Some(t) => same_text(t, "tls"),
        None => false,
    };
    if with_tls {
        let alpns = alpn_list(node.get_str("alpn"));
        let tls = build_tls(
            server_name_of(node, add),
            node.get_str("fp").unwrap_or("chrome"),
            None,
            None,
            None,
            &alpns,
        );
        put(&mut out, "tls", tls);
    }
    put_transport(
        &mut out,
        node.get_str("net").unwrap_or("tcp"),
        node.get_str("path"),
        node.get_str("path"),
        node.get_str("host"),
        add,
        node.get_str("method"),
    );
    Ok(Json::Object(out))
}

/// Makes the outbound of a VMess node, given what reading its data gave.
pub fn vmess_from_data(data: Result<Json, String>) -> (r: Result<Json, String>)
    ensures
        result_view(r) == vmess_of_data(result_view(data)),
{
    match data {
        Ok(node) => match node {
            Json::Object(_) => vmess_outbound(&node),
            _ => Err("VMess 解析失败：节点数据格式异常".to_owned()),
        },
        Err(_) => Err("VMess 解析失败：节点数据格式异常".to_owned()),
    }
}

/// Makes the outbound of a VLESS or Trojan link out of the link's parts.
pub fn outbound_from_url(url: &UrlParts, is_trojan: bool) -> (r: Json)
    ensures
        r@ == url_outbound(url@, is_trojan),
{
    let security = url.param("security").unwrap_or("");
    let mut out: Vec<(String, Json)> = Vec::new();
    put(&mut out, "tag", text_value("proxy"));
    put(&mut out, "server", text_value(url.host_text()));
    put(&mut out, "server_port", unsigned_value(url.port.unwrap_or(443) as u64));
    put(&mut out, "packet_encoding", text_value("xudp"));
    put(&mut out, "tcp_fast_open", bool_value(true));
    if is_trojan {
        put(&mut out, "type", text_value("trojan"));
        put(&mut out, "password", text_value(url.username.as_str()));
    } else {
        put(&mut out, "type", text_value("vless"));
        put(&mut out, "uuid", text_value(url.username.as_str()));
        match url.param("flow") {
            Some(flow) => {
                put(&mut out, "flow", text_value(flow));
            },
            None => {},
        }
    }
    let needs_tls: bool = same_text(security, "tls") || same_text(security, "reality") || (is_trojan
        && !same_text(security, "none"));
    if needs_tls {
        let alpns = alpn_list(url.param("alpn"));
        let tls = build_tls(
            url.param("sni").unwrap_or(url.host_text()),
            url.param("fp").unwrap_or("chrome"),
            Some(security),
            url.param("pbk"),
            url.param("sid"),
            &alpns,
        );
        put(&mut out, "tls", tls);
    }
    let service = match url.param("serviceName") {
        Some(s) => Some(s),
        None => url.param("path"),
    };
    put_transport(
        &mut out,
        url.param("type").unwrap_or(""),
        url.param("path"),
        service,
        url.param("host"),
        url.host_text(),
        url.param("method"),
    );
    Json::Object(out)
}

/// Whether a link that begins with `vmess://` in any case begins so in lower
/// case: what `parse_link` asks of a link.
pub fn has_lower_case_vmess(link: &str) -> (r: bool)
    ensures
        r == vmess_in_lower_case(link@),
{
    let link = trim(link);
    !starts_with_ignoring_case(link.as_str(), "vmess://") || starts_with(link.as_str(), "vmess://")
}

/// What stands before `#` in a VLESS or Trojan link gives the same parts.
pub open spec fn name_is_apart(link: Seq<char>) -> bool {
    is_nameless_url(before(link, '#')) ==> parsed_url(link) == parsed_url(before(link, '#'))
}

/// What stands before a character begins the text.
proof fn lemma_scheme_before(link: Seq<char>, scheme: Seq<char>)
    requires
        has_prefix_ignoring_case(before(link, '#'), scheme),
    ensures
        has_prefix_ignoring_case(link, scheme),
{
    lemma_first_index_bounds(link, '#', 0);
    assert forall|i: int| 0 <= i < scheme.len() implies ascii_lower(#[trigger] link[i]) == scheme[i] by {
        assert(before(link, '#')[i] == link[i]);
    }
}

/// No link begins with two schemes.
pub proof fn lemma_one_scheme(link: Seq<char>)
    ensures
        has_prefix_ignoring_case(link, "vmess://"@) ==> !has_prefix_ignoring_case(link, "vless://"@)
            && !has_prefix_ignoring_case(link, "trojan://"@),
        has_prefix_ignoring_case(link, "vless://"@) ==> !has_prefix_ignoring_case(
            link,
            "trojan://"@,
        ),
{
    reveal_strlit("vmess://");
    reveal_strlit("vless://");
    reveal_strlit("trojan://");
    assert("vmess://"@[0] == 'v' && "vless://"@[0] == 'v' && "trojan://"@[0] == 't');
    assert("vmess://"@[1] == 'm' && "vless://"@[1] == 'l');
    if has_prefix_ignoring_case(link, "vmess://"@) {
        assert(ascii_lower(link[0]) == 'v' && ascii_lower(link[1]) == 'm');
    }
    if has_prefix_ignoring_case(link, "vless://"@) {
        assert(ascii_lower(link[0]) == 'v' && ascii_lower(link[1]) == 'l');
    }
}

/// A link that is empty, a VMess link, or one with another scheme is no VLESS or
/// Trojan link, with or without its name.
proof fn lemma_no_url(link: Seq<char>)
    requires
        has_prefix_ignoring_case(link, "vmess://"@) || !(has_prefix_ignoring_case(link, "vless://"@)
            || has_prefix_ignoring_case(link, "trojan://"@)),
    ensures
        name_is_apart(link),
{
    lemma_one_scheme(link);
    if has_prefix_ignoring_case(before(link, '#'), "vless://"@) {
        lemma_scheme_before(link, "vless://"@);
    }
    if has_prefix_ignoring_case(before(link, '#'), "trojan://"@) {
        lemma_scheme_before(link, "trojan://"@);
    }
}

/// Makes an outbound out of a share link.
fn read_link(link: &str) -> (r: Result<Json, String>)
    requires
        vmess_in_lower_case(link@),
    ensures
        result_view(r) == link_view(link@),
        name_is_apart(trimmed(link@)),
{
    let link = trim(link);
    let link = link.as_str();
    proof {
        if has_prefix_ignoring_case(link@, "vmess://"@) || !(has_prefix_ignoring_case(
            link@,
            "vless://"@,
        ) || has_prefix_ignoring_case(link@, "trojan://"@)) {
            lemma_no_url(link@);
        }
        reveal_strlit("vless://");
        reveal_strlit("trojan://");
    }
    if same_text(link, "") {
        proof {
            reveal_strlit("");
        }
        return Err("链接为空".to_owned());
    }
    assert(link@.len() > 0) by {
        reveal_strlit("");
        if link@.len() == 0 {
            assert(link@ =~= ""@);
        }
    }
    if starts_with_ignoring_case(link, "vmess://") {
        let rest = match strip_prefix(link, "vmess://") {
            Some(rest) => rest,
            None => link.to_owned(),
        };
        let payload = until(rest.as_str(), '#');
        return match decode_base64(payload.as_str()) {
            Ok(text) => vmess_from_data(parse_json(text.as_str())),
            Err(e) => Err(e),
        };
    }
    let is_trojan = starts_with_ignoring_case(link, "trojan://");
    if is_trojan || starts_with_ignoring_case(link, "vless://") {
        let parts = parse_url(link);
        assert(url_view(parts) == parsed_url(link@));
        return match parts {
            Some(url) => Ok(outbound_from_url(&url, is_trojan)),
            None => Err("链接格式无效，请检查是否完整".to_owned()),
        };
    }
    Err("格式未能识别！目前仅支持 vmess://、vless:// 或 trojan:// 分享链接".to_owned())
}

/// Makes an outbound out of a share link. Neither the name that stands after `#` nor
/// blanks around the link make a difference.
pub fn parse_link(link: &str) -> (r: Result<Json, String>)
    requires
        vmess_in_lower_case(link@),
    ensures
        result_view(r) == link_view(link@),
        ignores_name(link@, result_view(r)),
{
    let r = read_link(link);
    proof {
        assert forall|a: Seq<char>, plain: Seq<char>, name: Seq<char>, b: Seq<char>|
            is_blank(a) && is_blank(b) && takes_name(plain) && link@ == #[trigger] named_link(
                a,
                plain,
                name,
                b,
            ) implies link_view(link@) == link_view(plain) by {
            lemma_name_ignored(a, plain, name, b);
        }
    }
    r
}

// ---- The template and its settings ----

/// The configuration that every link starts from.
pub const BASE_CONFIG: &'static str = r#"{
  "log": { "level": "info", "timestamp": true },
  "experimental": {
    "clash_api": {
      "external_controller": "127.0.0.1:9090",
      "external_ui_download_detour": "proxy",
      "default_mode": "rule"
    },
    "cache_file": {
      "enabled": true,
      "path": "cache.db"
    }
  },
  "dns": {
    "servers": [
      { "tag": "dns_direct", "type": "udp", "server": "119.29.29.29", "server_port": 53 },
      { "tag": "dns_proxy", "type": "https", "server": "1.1.1.1", "server_port": 443, "detour": "proxy" }
    ],
    "rules": [
      { "rule_set": "geosite-ads", "action": "predefined", "rcode": "NOERROR" },
      { "rule_set": "geosite-cn", "server": "dns_direct" },
      { "domain": ["node-placeholder.com"], "server": "dns_direct" },
      { "server": "dns_proxy" }
    ],
    "strategy": "ipv4_only"
  },
  "inbounds": [
    { "type": "mixed", "tag": "mixed-in", "listen": "127.0.0.1", "listen_port": 2080 },
    {
      "type": "tun", "tag": "tun-in",
      "interface_name": "sing-box-tun",
      "address": ["172.19.0.1/30"],
      "auto_route": true,
      "strict_route": true,
      "stack": "system"
    }
  ],
  "outbounds": [
    {
      "type": "vless",
      "tag": "proxy",
      "server": "node-placeholder.com",
      "server_port": 443,
      "uuid": "00000000-0000-0000-0000-000000000000"
    },
    { "type": "direct", "tag": "direct" },
    { "type": "block", "tag": "block" }
  ],
  "route": {
    "auto_detect_interface": true,
    "default_domain_resolver": "dns_direct",
    "final": "proxy",
    "rules": [
      { "port": [443], "protocol": ["quic"], "outbound": "block" },
      { "ip_cidr": ["174.132.167.252/32"], "outbound": "direct" },
      {
        "domain_suffix": [
          "microsoft.com", "msftconnecttest.com", "akamaitech.net",
          "edgesuite.net", "alidns.com", "doh.pub", "dot.pub",
          "360.cn", "onedns.net"
        ],
        "outbound": "direct"
      },
      { "inbound": ["mixed-in", "tun-in"], "action": "sniff" },
      { "protocol": "dns", "action": "hijack-dns" },
      { "protocol": "bittorrent", "outbound": "block" },
      { "rule_set": ["geosite-ads"], "outbound": "block" },
      { "rule_set": ["geosite-cn"], "outbound": "direct" },
      { "rule_set": ["geoip-cn"], "outbound": "direct" },
      { "ip_is_private": true, "outbound": "direct" }
    ],
    "rule_set": [
      {
        "tag": "geosite-ads",
        "type": "remote",
        "format": "binary",
        "url": "https://cdn.jsdelivr.net/gh/SagerNet/sing-geosite@rule-set/geosite-category-ads-all.srs",
        "download_detour": "proxy",
        "update_interval": "1d"
      },
      {
        "tag": "geosite-cn",
        "type": "remote",
        "format": "binary",
        "url": "https://cdn.jsdelivr.net/gh/SagerNet/sing-geosite@rule-set/geosite-cn.srs",
        "download_detour": "proxy",
        "update_interval": "1d"
      },
      {
        "tag": "geoip-cn",
        "type": "remote",
        "format": "binary",
        "url": "https://cdn.jsdelivr.net/gh/SagerNet/sing-geoip@rule-set/geoip-cn.srs",
        "download_detour": "proxy",
        "update_interval": "1d"
      }
    ]
  }
}"#;

/// The settings of a configuration.
#[derive(Debug, Clone, Copy, PartialEq, Eq)]
pub struct Settings {
    pub use_tun: bool,
    pub listen_port: u16,
    pub api_port: u16,
    pub global: bool,
}

/// The item has `text` under `key`.
pub open spec fn says(item: JsonView, key: Seq<char>, text: Seq<char>) -> bool {
    item.text_field(key) == Some(text)
}

/// What `f` makes of the value of a key, where the value of an outer key has it.
pub open spec fn edit_within(
    doc: JsonView,
    outer: Seq<char>,
    inner: Seq<char>,
    f: spec_fn(JsonView) -> JsonView,
) -> JsonView {
    doc.edit(outer, |v: JsonView| v.edit(inner, f))
}

/// `proxy` in place of an outbound tagged `proxy`.
pub open spec fn proxied(proxy: JsonView) -> spec_fn(JsonView) -> JsonView {
    |o: JsonView|
        if says(o, "tag"@, "proxy"@) {
            proxy
        } else {
            o
        }
}

/// The outbounds with `proxy` in place of those tagged `proxy`.
pub open spec fn with_proxy(doc: JsonView, proxy: JsonView) -> JsonView {
    doc.edit("outbounds"@, |v: JsonView| v.each(proxied(proxy)))
}

/// The server of the first of some outbounds that is tagged `proxy`.
pub open spec fn first_proxy_server(outbounds: Seq<JsonView>) -> Option<Seq<char>>
    decreases outbounds.len(),
{
    if outbounds.len() == 0 {
        None
    } else if says(outbounds[0], "tag"@, "proxy"@) {
        outbounds[0].text_field("server"@)
    } else {
        first_proxy_server(outbounds.skip(1))
    }
}

/// The server that the template names for the proxy.
pub open spec fn placeholder(doc: JsonView) -> Option<Seq<char>> {
    match doc.field("outbounds"@) {
        Some(JsonView::Array(outbounds)) => first_proxy_server(outbounds),
        _ => None,
    }
}

/// An item with a key set, if it has `text` under another.
pub open spec fn set_where(
    key: Seq<char>,
    text: Seq<char>,
    field: Seq<char>,
    value: JsonView,
) -> spec_fn(JsonView) -> JsonView {
    |item: JsonView|
        if says(item, key, text) {
            item.set(field, value)
        } else {
            item
        }
}

/// The port of the mixed inbound set.
pub open spec fn with_listen_port(doc: JsonView, port: u16) -> JsonView {
    doc.edit(
        "inbounds"@,
        |v: JsonView|
            v.each(set_where("tag"@, "mixed-in"@, "listen_port"@, unsigned_view(port as u64))),
    )
}

/// The address of the control interface on a port.
pub open spec fn controller(port: u16) -> Seq<char> {
    "127.0.0.1:"@ + decimal(port as nat)
}

/// A key of the settings of the control interface set.
pub open spec fn with_clash_api(doc: JsonView, key: Seq<char>, text: Seq<char>) -> JsonView {
    edit_within(doc, "experimental"@, "clash_api"@, |api: JsonView| api.set(key, text_view(text)))
}

/// Another domain in place of one.
pub open spec fn renamed(old: Seq<char>, new: Seq<char>) -> spec_fn(JsonView) -> JsonView {
    |d: JsonView|
        if d.text() == Some(old) {
            text_view(new)
        } else {
            d
        }
}

/// A rule with one of its domains replaced.
pub open spec fn rule_renamed(old: Seq<char>, new: Seq<char>) -> spec_fn(JsonView) -> JsonView {
    |rule: JsonView| rule.edit("domain"@, |d: JsonView| d.each(renamed(old, new)))
}

/// The name of the proxy's server in place of the template's in the DNS rules,
/// where both are there.
pub open spec fn with_server(
    doc: JsonView,
    old: Option<Seq<char>>,
    new: Option<Seq<char>>,
) -> JsonView {
    if old is Some && new is Some {
        edit_within(
            doc,
            "dns"@,
            "rules"@,
            |rules: JsonView| rules.each(rule_renamed(old->0, new->0)),
        )
    } else {
        doc
    }
}

/// An inbound is no virtual network card.
pub open spec fn is_no_tun() -> spec_fn(JsonView) -> bool {
    |i: JsonView| !says(i, "type"@, "tun"@)
}

/// A name is not that of the virtual network card.
pub open spec fn is_not_named_tun() -> spec_fn(JsonView) -> bool {
    |n: JsonView| n.text() != Some("tun-in"@)
}

/// A rule that no longer names the virtual network card. Where it named no other
/// inbound it no longer asks for any.
pub open spec fn without_tun_name() -> spec_fn(JsonView) -> JsonView {
    |rule: JsonView|
        match rule.field("inbound"@) {
            Some(JsonView::Array(names)) => {
                let kept = names.filter(is_not_named_tun());
                if kept.len() == 0 {
                    rule.without("inbound"@)
                } else {
                    rule.set("inbound"@, JsonView::Array(kept))
                }
            },
            _ => rule,
        }
}

/// A configuration without the virtual network card.
pub open spec fn without_tun(doc: JsonView) -> JsonView {
    edit_within(
        doc.edit("inbounds"@, |v: JsonView| v.keep(is_no_tun())),
        "route"@,
        "rules"@,
        |rules: JsonView| rules.each(without_tun_name()),
    )
}

/// The set of Chinese domains, or that of Chinese addresses.
pub open spec fn is_cn_set(set: JsonView) -> bool {
    set.text() == Some("geosite-cn"@) || set.text() == Some("geoip-cn"@)
}

/// One of some sets is that of Chinese domains or that of Chinese addresses.
pub open spec fn has_cn_set(sets: Seq<JsonView>) -> bool {
    exists|i: int| 0 <= i < sets.len() && is_cn_set(#[trigger] sets[i])
}

/// A rule names the set of Chinese domains or that of Chinese addresses.
pub open spec fn is_cn_rule(rule: JsonView) -> bool {
    match rule.field("rule_set"@) {
        Some(JsonView::Array(sets)) => has_cn_set(sets),
        _ => false,
    }
}

/// A rule sends traffic past the proxy.
pub open spec fn is_direct(rule: JsonView) -> bool {
    says(rule, "outbound"@, "direct"@)
}

/// A rule is about private addresses: those of the local network and of the
/// machine itself.
pub open spec fn is_private(rule: JsonView) -> bool {
    rule.field("ip_is_private"@) == Some(bool_view(true))
}

/// A rule lets nothing but private traffic past the proxy, and names neither the
/// set of Chinese domains nor that of Chinese addresses.
pub open spec fn fits_global_mode() -> spec_fn(JsonView) -> bool {
    |rule: JsonView| !is_cn_rule(rule) && (is_direct(rule) ==> is_private(rule))
}

/// A configuration that sends all but private traffic through the proxy: the rules
/// that would let other traffic past it are gone, Chinese domains are resolved
/// through it, and the control interface shows the mode. What other rules block
/// stays blocked.
pub open spec fn with_global_mode(doc: JsonView) -> JsonView {
    with_clash_api(
        edit_within(
            edit_within(
                doc,
                "route"@,
                "rules"@,
                |rules: JsonView| rules.keep(fits_global_mode()),
            ),
            "dns"@,
            "rules"@,
            |rules: JsonView|
                rules.each(
                    set_where("rule_set"@, "geosite-cn"@, "server"@, text_view("dns_proxy"@)),
                ),
        ),
        "default_mode"@,
        "global"@,
    )
}

/// A template with a proxy and settings put in.
pub open spec fn configured(template: JsonView, proxy: JsonView, s: Settings) -> JsonView {
    let a = with_proxy(template, proxy);
    let b = with_listen_port(a, s.listen_port);
    let c = with_clash_api(b, "external_controller"@, controller(s.api_port));
    let d = with_server(c, placeholder(template), proxy.text_field("server"@));
    let e = if s.use_tun {
        d
    } else {
        without_tun(d)
    };
    if s.global {
        with_global_mode(e)
    } else {
        e
    }
}

// ---- Putting the settings in ----

/// Replaces each item by what `f` makes of it.
fn replace_each<F: Fn(Json) -> Json>(
    items: &mut Vec<Json>,
    f: F,
    Ghost(g): Ghost<spec_fn(JsonView) -> JsonView>,
)
    requires
        forall|j: Json| #[trigger] call_requires(f, (j,)),
        forall|j: Json, r: Json| #[trigger] call_ensures(f, (j,), r) ==> r@ == g(j@),
    ensures
        items_view(final(items)@) == items_view(old(items)@).map_values(g),
{
    let ghost before = items@;
    let mut i: usize = 0;
    while i < items.len()
        invariant
            i <= items.len(),
            items.len() == before.len(),
            forall|j: Json| #[trigger] call_requires(f, (j,)),
            forall|j: Json, r: Json| #[trigger] call_ensures(f, (j,), r) ==> r@ == g(j@),
            forall|j: int| 0 <= j < i ==> (#[trigger] items[j])@ == g(before[j]@),
            forall|j: int| i <= j < items.len() ==> #[trigger] items[j] == before[j],
        decreases items.len() - i,
    {
        let mut item = Json::Null;
        std::mem::swap(&mut item, &mut items[i]);
        let new = f(item);
        items.set(i, new);
        i = i + 1;
    }
    assert(items_view(items@) =~= items_view(before).map_values(g));
}

/// Keeps the items that `keep` is true of.
fn retain_where<F: Fn(&Json) -> bool>(
    items: &mut Vec<Json>,
    keep: F,
    Ghost(p): Ghost<spec_fn(JsonView) -> bool>,
)
    requires
        forall|j: &Json| #[trigger] call_requires(keep, (j,)),
        forall|j: &Json, r: bool| #[trigger] call_ensures(keep, (j,), r) ==> r == p(j@),
    ensures
        items_view(final(items)@) == items_view(old(items)@).filter(p),
{
    let ghost before = items@;
    let ghost mut seen: int = 0;
    let mut i: usize = 0;
    proof {
        reveal(Seq::filter);
        assert(items_view(before.take(0)) =~= Seq::empty());
        assert(items_view(items@.take(0)) =~= Seq::empty());
        assert(items@.skip(0) =~= before.skip(0));
    }
    while i < items.len()
        invariant
            i <= items.len(),
            i <= seen <= before.len(),
            items@.skip(i as int) == before.skip(seen),
            forall|j: &Json| #[trigger] call_requires(keep, (j,)),
            forall|j: &Json, r: bool| #[trigger] call_ensures(keep, (j,), r) ==> r == p(j@),
            items_view(items@.take(i as int)) == items_view(before.take(seen)).filter(p),
        decreases items.len() - i,
    {
        let ghost whole = items@;
        proof {
            reveal(Seq::filter);
            assert(before.skip(seen).len() == items@.skip(i as int).len());
            assert(items@.skip(i as int)[0] == before.skip(seen)[0]);
            assert(before[seen] == items[i as int]);
            assert(items_view(before.take(seen + 1)).drop_last() =~= items_view(before.take(seen)));
            assert(items_view(before.take(seen + 1)).last() == items[i as int]@);
            assert(before.skip(seen + 1) =~= before.skip(seen).skip(1));
            seen = seen + 1;
        }
        if keep(&items[i]) {
            i = i + 1;
            assert(items_view(whole.take(i as int)) =~= items_view(whole.take(i - 1)).push(
                whole[i - 1]@,
            ));
            assert(whole.skip(i as int) =~= whole.skip(i - 1).skip(1));
        } else {
            let _ = items.remove(i);
            assert(items@.take(i as int) =~= whole.take(i as int));
            assert(items@.skip(i as int) =~= whole.skip(i as int).skip(1));
        }
    }
    proof {
        assert(items@.skip(i as int).len() == 0);
        assert(items@.take(i as int) =~= items@);
        assert(before.take(seen) =~= before);
    }
}

/// Whether an item has `wanted` under `key`.
fn item_says(item: &Json, key: &str, wanted: &str) -> (r: bool)
    ensures
        r == says(item@, key@, wanted@),
{
    match item.get_str(key) {
        Some(t) => same_text(t, wanted),
        None => false,
    }
}

/// Whether a value is the text `wanted`.
fn is_text(value: &Json, wanted: &str) -> (r: bool)
    ensures
        r == (value@.text() == Some(wanted@)),
{
    match value.as_str() {
        Some(t) => same_text(t, wanted),
        None => false,
    }
}

/// Puts the proxy in place of the outbounds tagged `proxy`.
fn put_proxy(doc: &mut Json, proxy: &Json)
    ensures
        final(doc)@ == with_proxy(old(doc)@, proxy@),
{
    match doc.get_mut("outbounds") {
        Some(v) => match v.as_array_mut() {
            Some(items) => {
                let edit = |o: Json| -> (r: Json)
                    ensures
                        r@ == proxied(proxy@)(o@),
                    {
                        if item_says(&o, "tag", "proxy") {
                            proxy.copy()
                        } else {
                            o
                        }
                    };
                replace_each(items, edit, Ghost(proxied(proxy@)));
            },
            None => {},
        },
        None => {},
    }
}

/// Sets a key of the items that have `wanted` under another.
fn put_where(items: &mut Vec<Json>, key: &str, wanted: &str, field: &str, value: &Json)
    ensures
        items_view(final(items)@) == items_view(old(items)@).map_values(
            set_where(key@, wanted@, field@, value@),
        ),
{
    let ghost f = set_where(key@, wanted@, field@, value@);
    let edit = |item: Json| -> (r: Json)
        ensures
            r@ == f(item@),
        {
            let mut item = item;
            if item_says(&item, key, wanted) {
                item.insert(field, value.copy());
            }
            item
        };
    replace_each(items, edit, Ghost(f));
}

/// Sets the port of the mixed inbound.
fn put_listen_port(doc: &mut Json, port: u16)
    ensures
        final(doc)@ == with_listen_port(old(doc)@, port),
{
    match doc.get_mut("inbounds") {
        Some(v) => match v.as_array_mut() {
            Some(items) => {
                let value = unsigned_value(port as u64);
                put_where(items, "tag", "mixed-in", "listen_port", &value);
            },
            None => {},
        },
        None => {},
    }
}

/// Sets a key of the settings of the control interface.
fn put_clash_api(doc: &mut Json, key: &str, value: &str)
    ensures
        final(doc)@ == with_clash_api(old(doc)@, key@, value@),
{
    match doc.get_mut("experimental") {
        Some(experimental) => match experimental.get_mut("clash_api") {
            Some(api) => {
                api.insert(key, text_value(value));
            },
            None => {},
        },
        None => {},
    }
}

/// The server that the template names for the proxy.
fn find_placeholder(doc: &Json) -> (r: Option<String>)
    ensures
        owned_view(r) == placeholder(doc@),
{
    let items = match doc.get("outbounds") {
        Some(v) => match v.as_array() {
            Some(items) => items,
            None => {
                return None;
            },
        },
        None => {
            return None;
        },
    };
    let ghost whole = items_view(items@);
    let mut i: usize = 0;
    assert(whole.skip(0) =~= whole);
    while i < items.len()
        invariant
            i <= items.len(),
            whole == items_view(items@),
            placeholder(doc@) == first_proxy_server(whole),
            first_proxy_server(whole) == first_proxy_server(whole.skip(i as int)),
        decreases items.len() - i,
    {
        assert(whole.skip(i as int).skip(1) =~= whole.skip(i + 1));
        assert(whole.skip(i as int)[0] == items[i as int]@);
        if item_says(&items[i], "tag", "proxy") {
            return match items[i].get_str("server") {
                Some(s) => Some(s.to_owned()),
                None => None,
            };
        }
        i = i + 1;
    }
    None
}

/// Puts another domain in place of one in a list.
fn rename_domain(domains: &mut Vec<Json>, old_name: &str, new_name: &str)
    ensures
        items_view(final(domains)@) == items_view(old(domains)@).map_values(
            renamed(old_name@, new_name@),
        ),
{
    let ghost f = renamed(old_name@, new_name@);
    let edit = |d: Json| -> (r: Json)
        ensures
            r@ == f(d@),
        {
            if is_text(&d, old_name) {
                text_value(new_name)
            } else {
                d
            }
        };
    replace_each(domains, edit, Ghost(f));
}

/// Puts another domain in place of one in the domains of a rule.
fn rename_in_rule(rule: &mut Json, old_name: &str, new_name: &str)
    ensures
        final(rule)@ == rule_renamed(old_name@, new_name@)(old(rule)@),
{
    match rule.get_mut("domain") {
        Some(v) => match v.as_array_mut() {
            Some(domains) => {
                rename_domain(domains, old_name, new_name);
            },
            None => {},
        },
        None => {},
    }
}

/// The rules under a key of the document, to be changed.
fn rules_mut<'a>(doc: &'a mut Json, key: &str) -> (r: Option<&'a mut Vec<Json>>)
    ensures
        match r {
            Some(items) => old(doc)@.field(key@) is Some && old(doc)@.field(key@)->0.field(
                "rules"@,
            ) == Some(JsonView::Array(items_view(items@))) && final(doc)@ == old(doc)@.set(
                key@,
                old(doc)@.field(key@)->0.set(
                    "rules"@,
                    JsonView::Array(items_view(final(items)@)),
                ),
            ),
            None => final(doc)@ == old(doc)@ && (old(doc)@.field(key@) matches Some(v) ==> (v.field(
                "rules"@,
            ) matches Some(rules) ==> !(rules is Array))),
        },
{
    broadcast use lemma_set_same;

    match doc.get_mut(key) {
        Some(v) => match v.get_mut("rules") {
            Some(rules) => rules.as_array_mut(),
            None => None,
        },
        None => None,
    }
}

/// Puts the name of the proxy's server in place of the template's in the DNS
/// rules.
fn put_server(doc: &mut Json, old_name: &str, new_name: &str)
    ensures
        final(doc)@ == with_server(old(doc)@, Some(old_name@), Some(new_name@)),
{
    broadcast use lemma_set_same;

    match rules_mut(doc, "dns") {
        Some(rules) => {
            let ghost f = rule_renamed(old_name@, new_name@);
            let edit = |rule: Json| -> (r: Json)
                ensures
                    r@ == f(rule@),
                {
                    let mut rule = rule;
                    rename_in_rule(&mut rule, old_name, new_name);
                    rule
                };
            replace_each(rules, edit, Ghost(f));
        },
        None => {},
    }
}

/// Takes the name of the virtual network card out of a rule.
fn drop_tun_name(rule: &mut Json)
    ensures
        final(rule)@ == without_tun_name()(old(rule)@),
{
    broadcast use {lemma_set_same, lemma_set_without};

    let mut nothing_left: bool = false;
    match rule.get_mut("inbound") {
        Some(v) => match v.as_array_mut() {
            Some(names) => {
                let keep = |n: &Json| -> (r: bool)
                    ensures
                        r == is_not_named_tun()(n@),
                    { !is_text(n, "tun-in") };
                retain_where(names, keep, Ghost(is_not_named_tun()));
                nothing_left = names.len() == 0;
            },
            None => {},
        },
        None => {},
    }
    if nothing_left {
        rule.remove("inbound");
    }
}

/// Takes the virtual network card out of a configuration.
fn drop_tun(doc: &mut Json)
    ensures
        final(doc)@ == without_tun(old(doc)@),
{
    broadcast use lemma_set_same;

    match doc.get_mut("inbounds") {
        Some(v) => match v.as_array_mut() {
            Some(items) => {
                let keep = |i: &Json| -> (r: bool)
                    ensures
                        r == is_no_tun()(i@),
                    { !item_says(i, "type", "tun") };
                retain_where(items, keep, Ghost(is_no_tun()));
            },
            None => {},
        },
        None => {},
    }
    match rules_mut(doc, "route") {
        Some(rules) => {
            let edit = |rule: Json| -> (r: Json)
                ensures
                    r@ == without_tun_name()(rule@),
                {
                    let mut rule = rule;
                    drop_tun_name(&mut rule);
                    rule
                };
            replace_each(rules, edit, Ghost(without_tun_name()));
        },
        None => {},
    }
}

/// Whether a rule names the set of Chinese domains or that of Chinese addresses.
fn names_cn_set(rule: &Json) -> (r: bool)
    ensures
        r == is_cn_rule(rule@),
{
    let sets = match rule.get("rule_set") {
        Some(v) => match v.as_array() {
            Some(sets) => sets,
            None => {
                return false;
            },
        },
        None => {
            return false;
        },
    };
    let ghost whole = items_view(sets@);
    let mut i: usize = 0;
    while i < sets.len()
        invariant
            i <= sets.len(),
            whole == items_view(sets@),
            rule@.field("rule_set"@) == Some(JsonView::Array(whole)),
            forall|j: int| 0 <= j < i ==> !is_cn_set(#[trigger] whole[j]),
        decreases sets.len() - i,
    {
        assert(whole[i as int] == sets[i as int]@);
        if is_text(&sets[i], "geosite-cn") || is_text(&sets[i], "geoip-cn") {
            assert(is_cn_set(whole[i as int]));
            assert(has_cn_set(whole));
            return true;
        }
        i = i + 1;
    }
    false
}

/// Whether a rule is about private addresses.
fn names_private(rule: &Json) -> (r: bool)
    ensures
        r == is_private(rule@),
{
    match rule.get("ip_is_private") {
        Some(Json::Bool(b)) => *b,
        _ => false,
    }
}

/// Sends all but private traffic of a configuration through the proxy.
fn put_global_mode(doc: &mut Json)
    ensures
        final(doc)@ == with_global_mode(old(doc)@),
{
    broadcast use lemma_set_same;

    match rules_mut(doc, "route") {
        Some(rules) => {
            let keep = |rule: &Json| -> (r: bool)
                ensures
                    r == fits_global_mode()(rule@),
                {
                    !names_cn_set(rule) && (!item_says(rule, "outbound", "direct")
                        || names_private(rule))
                };
            retain_where(rules, keep, Ghost(fits_global_mode()));
        },
        None => {},
    }
    match rules_mut(doc, "dns") {
        Some(rules) => {
            let value = text_value("dns_proxy");
            put_where(rules, "rule_set", "geosite-cn", "server", &value);
        },
        None => {},
    }
    put_clash_api(doc, "default_mode", "global");
}

/// Puts a proxy and settings in a template.
pub fn apply_settings(doc: &mut Json, proxy: &Json, s: &Settings)
    ensures
        final(doc)@ == configured(old(doc)@, proxy@, *s),
{
    let old_server = find_placeholder(doc);
    put_proxy(doc, proxy);
    put_listen_port(doc, s.listen_port);
    let controller = joined("127.0.0.1:", number_text(s.api_port as u64).as_str());
    put_clash_api(doc, "external_controller", controller.as_str());
    match (old_server, proxy.get_str("server")) {
        (Some(old_name), Some(new_name)) => {
            put_server(doc, old_name.as_str(), new_name);
        },
        _ => {},
    }
    if !s.use_tun {
        drop_tun(doc);
    }
    if s.global {
        put_global_mode(doc);
    }
}

/// The template as a document. It has to hold no fractions and not be nested too
/// deep for a reader, so that what is made of it reads back.
pub open spec fn template_of(read: Result<JsonView, Seq<char>>) -> Result<JsonView, Seq<char>> {
    match read {
        Ok(doc) => if is_plain(doc, max_depth()) {
            Ok(doc)
        } else {
            Err("模板无法原样读回"@)
        },
        Err(e) => Err(e),
    }
}

/// The built-in template as a document.
pub open spec fn base_template() -> Result<JsonView, Seq<char>> {
    template_of(parsed_json(BASE_CONFIG@))
}

/// The template as a document, given what reading it gave.
pub fn checked_template(read: Result<Json, String>) -> (r: Result<Json, String>)
    ensures
        result_view(r) == template_of(result_view(read)),
{
    match read {
        Ok(doc) => if plain_within(&doc, MAX_DEPTH) {
            Ok(doc)
        } else {
            Err("模板无法原样读回".to_owned())
        },
        Err(e) => Err(e),
    }
}

/// The configuration for a link, given the template and what the link describes.
pub open spec fn config_text(
    template: Result<JsonView, Seq<char>>,
    proxy: Result<JsonView, Seq<char>>,
    s: Settings,
) -> Result<Seq<char>, Seq<char>> {
    match template {
        Err(e) => Err("内置模板解析失败: "@ + e),
        Ok(doc) => match proxy {
            Err(e) => Err(e),
            Ok(p) => Ok(rendered_json(configured(doc, p, s))),
        },
    }
}

/// The settings that the arguments of `generate_config` name.
pub open spec fn settings_of(
    use_tun: bool,
    listen_port: u16,
    api_port: u16,
    route_mode: Seq<char>,
) -> Settings {
    Settings { use_tun, listen_port, api_port, global: route_mode == "global"@ }
}

/// A text that is a configuration reads back as the configuration that was meant.
pub open spec fn reads_back(
    text: Result<Seq<char>, Seq<char>>,
    template: Result<JsonView, Seq<char>>,
    proxy: Result<JsonView, Seq<char>>,
    s: Settings,
) -> bool {
    text is Ok ==> template is Ok && proxy is Ok && parsed_json(text->Ok_0) == Ok::<
        JsonView,
        Seq<char>,
    >(configured(template->Ok_0, proxy->Ok_0, s))
}

/// The text of the configuration for a link: the template with the link's
/// outbound as the proxy. `listen_port` is the port of the mixed inbound and
/// `api_port` that of the control interface. Without `use_tun` there is no
/// virtual network card, and with the route mode `global` all but private traffic
/// goes through the proxy.
///
/// What is written reads back as the configuration that was meant.
pub fn generate_config(
    link: &str,
    use_tun: bool,
    listen_port: u16,
    api_port: u16,
    route_mode: &str,
) -> (r: Result<String, String>)
    requires
        vmess_in_lower_case(link@),
    ensures
        text_result_view(r) == config_text(
            base_template(),
            link_view(link@),
            settings_of(use_tun, listen_port, api_port, route_mode@),
        ),
        reads_back(
            text_result_view(r),
            base_template(),
            link_view(link@),
            settings_of(use_tun, listen_port, api_port, route_mode@),
        ),
{
    let mut doc = match checked_template(parse_json(BASE_CONFIG)) {
        Ok(doc) => doc,
        Err(e) => {
            return Err(joined("内置模板解析失败: ", e.as_str()));
        },
    };
    let proxy = match parse_link(link) {
        Ok(proxy) => proxy,
        Err(e) => {
            return Err(e);
        },
    };
    let s = Settings { use_tun, listen_port, api_port, global: same_text(route_mode, "global") };
    proof {
        law_outbound_is_plain(link@);
        law_configured_is_plain(doc@, proxy@, s, max_depth());
    }
    apply_settings(&mut doc, &proxy, &s);
    match to_string_pretty(&doc) {
        Ok(text) => Ok(text),
        Err(e) => Err(joined("序列化失败: ", e.as_str())),
    }
}

} // verus!
