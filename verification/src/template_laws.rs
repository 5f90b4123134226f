//! What a configuration keeps of its template and what it changes, item by item and
//! key by key.
use vstd::prelude::*;

use crate::config_gen::{
    config_text, configured, controller, first_proxy_server, fits_global_mode, has_cn_set,
    is_cn_rule, is_cn_set, is_no_tun, is_not_named_tun, placeholder, rule_renamed, set_where,
    settings_of, template_of, without_tun_name, Settings,
};
use crate::config_laws::law_parts;
use crate::json::{is_plain, rendered_json, text_view, unsigned_view, JsonNumber, JsonView};
use crate::text::{decimal, law_decimal_reads_back, lemma_decimal_value, number_in};

verus! {

// ---- Items that are kept ----

/// Indexes below `len`, each above the one before it.
pub open spec fn is_rising(at: Seq<int>, len: int) -> bool {
    &&& forall|a: int| 0 <= a < at.len() ==> 0 <= #[trigger] at[a] < len
    &&& forall|a: int, b: int| 0 <= a < b < at.len() ==> #[trigger] at[a] < #[trigger] at[b]
}

/// Where the items stand that a filter keeps.
pub proof fn lemma_filter_places<T>(s: Seq<T>, p: spec_fn(T) -> bool) -> (at: Seq<int>)
    ensures
        is_rising(at, s.len() as int),
        at.len() == s.filter(p).len(),
        forall|k: int| 0 <= k < at.len() ==> s.filter(p)[k] == s[#[trigger] at[k]],
        forall|i: int| 0 <= i < s.len() ==> (at.contains(i) <==> p(#[trigger] s[i])),
    decreases s.len(),
{
    reveal(Seq::filter);
    if s.len() == 0 {
        Seq::empty()
    } else {
        let shorter = s.drop_last();
        let before = lemma_filter_places(shorter, p);
        let last = s.len() - 1;
        if p(s.last()) {
            let at = before.push(last);
            assert forall|k: int| 0 <= k < at.len() implies s.filter(p)[k] == s[#[trigger] at[k]] by {
                if k < before.len() {
                    assert(at[k] == before[k]);
                    assert(shorter[before[k]] == s[before[k]]);
                }
            }
            assert forall|i: int| 0 <= i < s.len() implies (at.contains(i) <==> p(#[trigger] s[i])) by {
                if i < last {
                    assert(shorter[i] == s[i]);
                    if at.contains(i) {
                        let k = choose|k: int| 0 <= k < at.len() && at[k] == i;
                        assert(before[k] == i);
                    }
                    if before.contains(i) {
                        let k = choose|k: int| 0 <= k < before.len() && before[k] == i;
                        assert(at[k] == i);
                    }
                } else {
                    assert(at[before.len() as int] == i);
                }
            }
            assert forall|a: int| 0 <= a < at.len() implies 0 <= #[trigger] at[a] < s.len() by {
                if a < before.len() {
                    assert(at[a] == before[a]);
                }
            }
            assert forall|a: int, b: int| 0 <= a < b < at.len() implies #[trigger] at[a]
                < #[trigger] at[b] by {
                assert(at[a] == before[a]);
                if b < before.len() {
                    assert(at[b] == before[b]);
                }
            }
            at
        } else {
            assert forall|k: int| 0 <= k < before.len() implies s.filter(p)[k]
                == s[#[trigger] before[k]] by {
                assert(shorter[before[k]] == s[before[k]]);
            }
            assert forall|i: int| 0 <= i < s.len() implies (before.contains(i) <==> p(
                #[trigger] s[i],
            )) by {
                if i < last {
                    assert(shorter[i] == s[i]);
                }
            }
            before
        }
    }
}

// ---- Keys ----

proof fn lemma_keys_differ()
    ensures
        "outbounds"@ != "inbounds"@,
        "server"@ != "domain"@,
        "server"@ != "rule_set"@,
        "domain"@ != "rule_set"@,
        "tag"@ != "listen_port"@,
        "type"@ != "listen_port"@,
        "inbound"@ != "rule_set"@,
        "inbound"@ != "outbound"@,
        "inbound"@ != "ip_is_private"@,
        "external_controller"@ != "default_mode"@,
        "geosite-cn"@ != "geoip-cn"@,
{
    reveal_strlit("outbounds");
    reveal_strlit("inbounds");
    reveal_strlit("server");
    reveal_strlit("domain");
    reveal_strlit("rule_set");
    reveal_strlit("tag");
    reveal_strlit("type");
    reveal_strlit("listen_port");
    reveal_strlit("inbound");
    reveal_strlit("outbound");
    reveal_strlit("ip_is_private");
    reveal_strlit("external_controller");
    reveal_strlit("default_mode");
    reveal_strlit("geosite-cn");
    reveal_strlit("geoip-cn");
    assert("outbounds"@.len() == 9 && "inbounds"@.len() == 8);
    assert("server"@[0] == 's' && "domain"@[0] == 'd');
    assert("server"@.len() == 6 && "domain"@.len() == 6 && "rule_set"@.len() == 8);
    assert("tag"@.len() == 3 && "type"@.len() == 4 && "listen_port"@.len() == 11);
    assert("inbound"@.len() == 7 && "outbound"@.len() == 8 && "ip_is_private"@.len() == 13);
    assert("external_controller"@.len() == 19 && "default_mode"@.len() == 12);
    assert("geosite-cn"@.len() == 10 && "geoip-cn"@.len() == 8);
}

/// A configuration has the keys of its template, and under all but five of them the
/// same.
pub proof fn law_same_keys(template: JsonView, proxy: JsonView, s: Settings, key: Seq<char>)
    ensures
        configured(template, proxy, s).field(key) is Some <==> template.field(key) is Some,
        key != "outbounds"@ && key != "inbounds"@ && key != "experimental"@ && key != "dns"@ && key
            != "route"@ ==> configured(template, proxy, s).field(key) == template.field(key),
{
    law_parts(template, proxy, s);
}

// ---- The proxy ----

/// The server that a configuration puts another in place of is that of the first
/// outbound that the template tags `proxy`.
pub proof fn law_placeholder(template: JsonView, outbounds: Seq<JsonView>, k: int)
    requires
        template.field("outbounds"@) == Some(JsonView::Array(outbounds)),
        0 <= k < outbounds.len(),
        outbounds[k].text_field("tag"@) == Some("proxy"@),
        forall|j: int|
            0 <= j < k ==> (#[trigger] outbounds[j]).text_field("tag"@) != Some("proxy"@),
    ensures
        placeholder(template) == outbounds[k].text_field("server"@),
{
    lemma_first_server(outbounds, k);
}

proof fn lemma_first_server(outbounds: Seq<JsonView>, k: int)
    requires
        0 <= k < outbounds.len(),
        outbounds[k].text_field("tag"@) == Some("proxy"@),
        forall|j: int|
            0 <= j < k ==> (#[trigger] outbounds[j]).text_field("tag"@) != Some("proxy"@),
    ensures
        first_proxy_server(outbounds) == outbounds[k].text_field("server"@),
    decreases k,
{
    if k > 0 {
        let rest = outbounds.skip(1);
        assert(outbounds[0].text_field("tag"@) != Some("proxy"@));
        assert forall|j: int| 0 <= j < k - 1 implies (#[trigger] rest[j]).text_field("tag"@) != Some(
            "proxy"@,
        ) by {
            assert(rest[j] == outbounds[j + 1]);
        }
        lemma_first_server(rest, k - 1);
    }
}

// ---- DNS ----

/// A DNS rule of the template and what became of it. Its domains are the same but for
/// the template's server, which is the proxy's now; in the global mode a rule on
/// Chinese domains asks the DNS server behind the proxy; nothing else differs.
pub open spec fn is_dns_rule_of(
    before: JsonView,
    after: JsonView,
    old: Option<Seq<char>>,
    new: Option<Seq<char>>,
    global: bool,
) -> bool {
    &&& forall|key: Seq<char>|
        key != "domain"@ && !(global && key == "server"@ && before.text_field("rule_set"@) == Some(
            "geosite-cn"@,
        )) ==> #[trigger] after.field(key) == before.field(key)
    &&& global && before.text_field("rule_set"@) == Some("geosite-cn"@) ==> after.field("server"@)
        == Some(JsonView::Str("dns_proxy"@))
    &&& match before.field("domain"@) {
        Some(JsonView::Array(domains)) => after.field("domain"@) matches Some(
            JsonView::Array(renamed),
        ) && {
            &&& renamed.len() == domains.len()
            &&& forall|j: int|
                0 <= j < domains.len() ==> #[trigger] renamed[j] == (if old is Some && new is Some
                    && domains[j] == JsonView::Str(old->0) {
                    JsonView::Str(new->0)
                } else {
                    domains[j]
                })
        },
        other => after.field("domain"@) == other,
    }
}

/// The DNS rules of a configuration stand in the template's order, in every mode, and
/// each is the template's but for the proxy's server among its domains and, in the
/// global mode, the server of a rule on Chinese domains. So the proxy's own domain is
/// resolved as the template resolves its server's. The other DNS settings are the
/// template's.
pub proof fn law_dns_rules(
    template: JsonView,
    proxy: JsonView,
    s: Settings,
    dns: JsonView,
    before: Seq<JsonView>,
)
    requires
        template.field("dns"@) == Some(dns),
        dns.field("rules"@) == Some(JsonView::Array(before)),
    ensures
        configured(template, proxy, s).field("dns"@) matches Some(after) && {
            &&& forall|key: Seq<char>|
                key != "rules"@ ==> #[trigger] after.field(key) == dns.field(key)
            &&& after.field("rules"@) matches Some(JsonView::Array(rules)) && {
                &&& rules.len() == before.len()
                &&& forall|i: int|
                    0 <= i < before.len() ==> is_dns_rule_of(
                        before[i],
                        #[trigger] rules[i],
                        placeholder(template),
                        proxy.text_field("server"@),
                        s.global,
                    )
            }
        },
{
    law_parts(template, proxy, s);
    lemma_keys_differ();
    let (old_name, new_name) = (placeholder(template), proxy.text_field("server"@));
    let after = configured(template, proxy, s).field("dns"@)->0;
    let rules = after.field("rules"@)->0->Array_0;
    let f = set_where("rule_set"@, "geosite-cn"@, "server"@, text_view("dns_proxy"@));
    assert forall|i: int| 0 <= i < before.len() implies is_dns_rule_of(
        before[i],
        #[trigger] rules[i],
        old_name,
        new_name,
        s.global,
    ) by {
        let named = if old_name is Some && new_name is Some {
            rule_renamed(old_name->0, new_name->0)(before[i])
        } else {
            before[i]
        };
        assert(named.field("rule_set"@) == before[i].field("rule_set"@));
        assert(rules[i] == if s.global {
            f(named)
        } else {
            named
        });
    }
}

/// The DNS server that a rule on the template's own server asks is asked for the
/// proxy's in every mode, unless the rule is also one on Chinese domains.
pub proof fn law_proxy_resolved_as_before(
    template: JsonView,
    proxy: JsonView,
    s: Settings,
    dns: JsonView,
    before: Seq<JsonView>,
    i: int,
    domains: Seq<JsonView>,
    j: int,
)
    requires
        template.field("dns"@) == Some(dns),
        dns.field("rules"@) == Some(JsonView::Array(before)),
        0 <= i < before.len(),
        before[i].field("domain"@) == Some(JsonView::Array(domains)),
        0 <= j < domains.len(),
        placeholder(template) is Some,
        proxy.text_field("server"@) is Some,
        domains[j] == JsonView::Str(placeholder(template)->0),
        before[i].text_field("rule_set"@) != Some("geosite-cn"@),
    ensures
        ({
            let rule = configured(template, proxy, s).field("dns"@)->0.field(
                "rules"@,
            )->0->Array_0[i];
            &&& rule.field("server"@) == before[i].field("server"@)
            &&& rule.field("domain"@) matches Some(JsonView::Array(after)) && after[j] == JsonView::Str(
                proxy.text_field("server"@)->0,
            )
        }),
{
    lemma_keys_differ();
    law_dns_rules(template, proxy, s, dns, before);
    let rule = configured(template, proxy, s).field("dns"@)->0.field("rules"@)->0->Array_0[i];
    assert(is_dns_rule_of(
        before[i],
        rule,
        placeholder(template),
        proxy.text_field("server"@),
        s.global,
    ));
}

// ---- Inbounds ----

/// An inbound of the template and what became of it: a mixed one listens on the port,
/// and nothing else differs.
pub open spec fn is_inbound_of(before: JsonView, after: JsonView, port: u16) -> bool {
    let mixed = before.text_field("tag"@) == Some("mixed-in"@);
    &&& forall|key: Seq<char>|
        !(mixed && key == "listen_port"@) ==> #[trigger] after.field(key) == before.field(key)
    &&& mixed ==> after.field("listen_port"@) == Some(
        JsonView::Number(JsonNumber::Unsigned(port as u64)),
    )
    &&& !mixed ==> after == before
}

/// The inbounds of a configuration are those of the template, in their order, all of
/// them with the virtual network card and all but those of its type without, and each
/// is the template's but for the port of a mixed one.
pub proof fn law_inbounds(
    template: JsonView,
    proxy: JsonView,
    s: Settings,
    before: Seq<JsonView>,
)
    requires
        template.field("inbounds"@) == Some(JsonView::Array(before)),
    ensures
        configured(template, proxy, s).field("inbounds"@) matches Some(JsonView::Array(after)) && (
        exists|at: Seq<int>|
            {
                &&& #[trigger] is_rising(at, before.len() as int)
                &&& at.len() == after.len()
                &&& forall|i: int|
                    0 <= i < before.len() ==> (at.contains(i) <==> s.use_tun || (
                    #[trigger] before[i]).text_field("type"@) != Some("tun"@))
                &&& forall|k: int|
                    0 <= k < after.len() ==> is_inbound_of(
                        before[at[k]],
                        #[trigger] after[k],
                        s.listen_port,
                    )
            }),
{
    law_parts(template, proxy, s);
    lemma_keys_differ();
    let f = set_where("tag"@, "mixed-in"@, "listen_port"@, unsigned_view(s.listen_port as u64));
    let ports = before.map_values(f);
    let after = configured(template, proxy, s).field("inbounds"@)->0->Array_0;
    assert forall|i: int| 0 <= i < before.len() implies is_inbound_of(
        before[i],
        #[trigger] ports[i],
        s.listen_port,
    ) && ports[i].text_field("type"@) == before[i].text_field("type"@) by {
        assert(ports[i] == f(before[i]));
    }
    if s.use_tun {
        let at = Seq::new(before.len(), |i: int| i);
        assert(after == ports);
        assert(is_rising(at, before.len() as int));
        assert forall|i: int| 0 <= i < before.len() implies at.contains(i) by {
            assert(at[i] == i);
        }
    } else {
        let at = lemma_filter_places(ports, is_no_tun());
        assert(after == ports.filter(is_no_tun()));
        assert forall|i: int| 0 <= i < before.len() implies (at.contains(i) <==> (
        #[trigger] before[i]).text_field("type"@) != Some("tun"@)) by {
            assert(ports[i].text_field("type"@) == before[i].text_field("type"@));
        }
        assert forall|k: int| 0 <= k < after.len() implies is_inbound_of(
            before[at[k]],
            #[trigger] after[k],
            s.listen_port,
        ) by {
            assert(after[k] == ports[at[k]]);
        }
        assert(is_rising(at, before.len() as int));
    }
}

// ---- The control interface ----

/// The control interface of a configuration has the address of this machine with the
/// port that was asked for, and in the global mode shows that mode; its other settings,
/// and what stands beside it, are the template's.
pub proof fn law_control_interface(
    template: JsonView,
    proxy: JsonView,
    s: Settings,
    experimental: JsonView,
    api: JsonView,
)
    requires
        template.field("experimental"@) == Some(experimental),
        experimental.field("clash_api"@) == Some(api),
        api is Object,
    ensures
        configured(template, proxy, s).field("experimental"@) matches Some(after) && {
            &&& forall|key: Seq<char>|
                key != "clash_api"@ ==> #[trigger] after.field(key) == experimental.field(key)
            &&& after.field("clash_api"@) matches Some(now) && {
                &&& forall|key: Seq<char>|
                    key != "external_controller"@ && !(s.global && key == "default_mode"@)
                        ==> #[trigger] now.field(key) == api.field(key)
                &&& s.global ==> now.field("default_mode"@) == Some(JsonView::Str("global"@))
                &&& now.field("external_controller"@) matches Some(JsonView::Str(address))
                    && is_local_address(address, s.api_port)
            }
        },
{
    law_parts(template, proxy, s);
    lemma_keys_differ();
    law_controller(s.api_port);
}

/// An address of this machine: `127.0.0.1:` and digits that read as the port.
pub open spec fn is_local_address(address: Seq<char>, port: u16) -> bool {
    let host = "127.0.0.1:"@;
    &&& address.len() > host.len()
    &&& address.take(host.len() as int) == host
    &&& number_in(address.skip(host.len() as int)) == Some(port as nat)
}

/// The address of the control interface is one of this machine with the port.
pub proof fn law_controller(port: u16)
    ensures
        is_local_address(controller(port), port),
{
    law_decimal_reads_back(port as nat);
    lemma_decimal_value(port as nat);
    let host = "127.0.0.1:"@;
    assert((host + decimal(port as nat)).take(host.len() as int) =~= host);
    assert((host + decimal(port as nat)).skip(host.len() as int) =~= decimal(port as nat));
}

// ---- Routes ----

/// One of the sets that a rule names is that of Chinese domains or addresses.
pub open spec fn names_china(rule: JsonView) -> bool {
    rule.field("rule_set"@) matches Some(JsonView::Array(sets)) && exists|j: int|
        0 <= j < sets.len() && (#[trigger] sets[j] == JsonView::Str("geosite-cn"@) || sets[j]
            == JsonView::Str("geoip-cn"@))
}

/// A rule of the template stays: outside the global mode each does, and in it those
/// that neither name the Chinese sets nor let other than private traffic past the
/// proxy.
pub open spec fn stays(rule: JsonView, global: bool) -> bool {
    global ==> !names_china(rule) && (rule.text_field("outbound"@) == Some("direct"@)
        ==> rule.field("ip_is_private"@) == Some(JsonView::Bool(true)))
}

/// A rule of the template and what became of it: without the virtual network card its
/// name is gone from the inbounds that the rule names, and the demand with it if no
/// other is named. Nothing else differs.
pub open spec fn is_rule_of(before: JsonView, after: JsonView, use_tun: bool) -> bool {
    &&& forall|key: Seq<char>|
        key != "inbound"@ ==> #[trigger] after.field(key) == before.field(key)
    &&& match before.field("inbound"@) {
        Some(JsonView::Array(names)) => if use_tun {
            after.field("inbound"@) == before.field("inbound"@)
        } else {
            exists|at: Seq<int>|
                {
                    &&& #[trigger] is_rising(at, names.len() as int)
                    &&& forall|i: int|
                        0 <= i < names.len() ==> (at.contains(i) <==> #[trigger] names[i]
                            != JsonView::Str("tun-in"@))
                    &&& at.len() == 0 ==> after.field("inbound"@) is None
                    &&& at.len() > 0 ==> (after.field("inbound"@) matches Some(
                        JsonView::Array(kept),
                    ) && kept.len() == at.len() && forall|k: int|
                        0 <= k < at.len() ==> kept[k] == names[#[trigger] at[k]])
                }
        },
        other => after.field("inbound"@) == other,
    }
}

proof fn lemma_stays(rule: JsonView)
    ensures
        stays(rule, true) == fits_global_mode()(rule),
{
    lemma_keys_differ();
    assert(is_cn_rule(rule) == names_china(rule)) by {
        if rule.field("rule_set"@) is Some && rule.field("rule_set"@)->0 is Array {
            let sets = rule.field("rule_set"@)->0->Array_0;
            if has_cn_set(sets) {
                let j = choose|j: int| 0 <= j < sets.len() && is_cn_set(#[trigger] sets[j]);
                assert(sets[j] == JsonView::Str("geosite-cn"@) || sets[j] == JsonView::Str(
                    "geoip-cn"@,
                ));
            }
            if names_china(rule) {
                let j = choose|j: int|
                    0 <= j < sets.len() && (#[trigger] sets[j] == JsonView::Str("geosite-cn"@)
                        || sets[j] == JsonView::Str("geoip-cn"@));
                assert(is_cn_set(sets[j]));
            }
        }
    }
}

proof fn lemma_rule_without_tun(rule: JsonView)
    ensures
        is_rule_of(rule, without_tun_name()(rule), false),
{
    match rule.field("inbound"@) {
        Some(JsonView::Array(names)) => {
            let at = lemma_filter_places(names, is_not_named_tun());
            let kept = names.filter(is_not_named_tun());
            assert(is_rising(at, names.len() as int));
            assert forall|i: int| 0 <= i < names.len() implies (at.contains(i) <==> #[trigger] names[i]
                != JsonView::Str("tun-in"@)) by {
                assert(is_not_named_tun()(names[i]) == (names[i] != JsonView::Str("tun-in"@)));
            }
        },
        _ => {},
    }
}

/// The rules of a configuration are those of the template that stay, in their order,
/// and each is the template's but for the name of the virtual network card. The other
/// routing settings are the template's, among them where traffic goes that no rule
/// concerns.
pub proof fn law_routes(
    template: JsonView,
    proxy: JsonView,
    s: Settings,
    route: JsonView,
    before: Seq<JsonView>,
)
    requires
        template.field("route"@) == Some(route),
        route.field("rules"@) == Some(JsonView::Array(before)),
    ensures
        configured(template, proxy, s).field("route"@) matches Some(after) && {
            &&& forall|key: Seq<char>|
                key != "rules"@ ==> #[trigger] after.field(key) == route.field(key)
            &&& after.field("rules"@) matches Some(JsonView::Array(rules)) && (exists|at: Seq<int>|
                {
                    &&& #[trigger] is_rising(at, before.len() as int)
                    &&& at.len() == rules.len()
                    &&& forall|i: int|
                        0 <= i < before.len() ==> (at.contains(i) <==> stays(
                            #[trigger] before[i],
                            s.global,
                        ))
                    &&& forall|k: int|
                        0 <= k < rules.len() ==> is_rule_of(
                            before[at[k]],
                            #[trigger] rules[k],
                            s.use_tun,
                        )
                })
        },
{
    law_parts(template, proxy, s);
    lemma_keys_differ();
    let named = if s.use_tun {
        before
    } else {
        before.map_values(without_tun_name())
    };
    let rules = configured(template, proxy, s).field("route"@)->0.field("rules"@)->0->Array_0;
    assert forall|i: int| 0 <= i < before.len() implies is_rule_of(
        before[i],
        #[trigger] named[i],
        s.use_tun,
    ) && fits_global_mode()(named[i]) == stays(before[i], true) by {
        lemma_rule_without_tun(before[i]);
        lemma_stays(named[i]);
        lemma_stays(before[i]);
        assert(named[i].field("rule_set"@) == before[i].field("rule_set"@));
        assert(named[i].field("outbound"@) == before[i].field("outbound"@));
        assert(named[i].field("ip_is_private"@) == before[i].field("ip_is_private"@));
    }
    if s.global {
        let at = lemma_filter_places(named, fits_global_mode());
        assert(rules == named.filter(fits_global_mode()));
        assert forall|i: int| 0 <= i < before.len() implies (at.contains(i) <==> stays(
            #[trigger] before[i],
            s.global,
        )) by {
            assert(fits_global_mode()(named[i]) == stays(before[i], true));
        }
        assert forall|k: int| 0 <= k < rules.len() implies is_rule_of(
            before[at[k]],
            #[trigger] rules[k],
            s.use_tun,
        ) by {
            assert(rules[k] == named[at[k]]);
        }
        assert(is_rising(at, before.len() as int));
    } else {
        let at = Seq::new(before.len(), |i: int| i);
        assert(rules == named);
        assert(is_rising(at, before.len() as int));
        assert forall|i: int| 0 <= i < before.len() implies at.contains(i) by {
            assert(at[i] == i);
        }
    }
}

// ---- Settings ----

/// The arguments of a configuration are its settings, each its own, and the global
/// mode is on exactly for the text `global`.
pub proof fn law_settings(use_tun: bool, listen_port: u16, api_port: u16, route_mode: Seq<char>)
    ensures
        ({
            let s = settings_of(use_tun, listen_port, api_port, route_mode);
            &&& s.use_tun == use_tun
            &&& s.listen_port == listen_port
            &&& s.api_port == api_port
            &&& s.global <==> route_mode == "global"@
        }),
{
}

/// A template is used if it holds no fractions and nothing in it stands deeper than 127
/// arrays and objects; else, or if it cannot be read, making a configuration fails and
/// says why.
pub proof fn law_templates(doc: JsonView, e: Seq<char>, proxy: JsonView, s: Settings)
    ensures
        is_plain(doc, 127) ==> template_of(Ok(doc)) == Ok::<JsonView, Seq<char>>(doc),
        !is_plain(doc, 127) ==> template_of(Ok(doc)) == Err::<JsonView, Seq<char>>(
            "模板无法原样读回"@,
        ),
        template_of(Err(e)) == Err::<JsonView, Seq<char>>(e),
        config_text(Err(e), Ok(proxy), s) == Err::<Seq<char>, Seq<char>>("内置模板解析失败: "@ + e),
        config_text(Ok(doc), Err(e), s) == Err::<Seq<char>, Seq<char>>(e),
        config_text(Ok(doc), Ok(proxy), s) == Ok::<Seq<char>, Seq<char>>(
            rendered_json(configured(doc, proxy, s)),
        ),
{
}

} // verus!
