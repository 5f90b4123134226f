//! The latency of a node: which server its link names, and what some attempts to
//! connect to it show.
use vstd::prelude::*;
use vstd::utf8::{decode_utf8, valid_utf8};

use crate::codec::{decode_standard, from_utf8, standard_decode};
use crate::config_gen::{port_of, vmess_view};
use crate::json::{parse_json, parsed_json, Json, JsonNumber, JsonView};
use crate::outbound_laws::law_vmess_entries;
use crate::singbox::AppState;
use crate::text::{
    before, decimal, has_prefix, is_digit, law_decimal_reads_back, lemma_before, lemma_before_sum,
    lemma_decimal_value, lemma_first_index_bounds, lemma_first_index_free, lemma_pieces_sum,
    number_in, parse_number, pieces, split, strip_prefix, texts, until,
};

verus! {

/// How many attempts to connect a measurement takes.
pub const SAMPLES: usize = 3;

// ---- The server of a link ----

/// The host and the port that a VLESS or Trojan link names after its scheme: what
/// stands between the first `@` and the next, before the parameters and the name.
/// Without a port that can be read it is 443.
pub open spec fn server_after_at(rest: Seq<char>) -> Option<(Seq<char>, u16)> {
    let parts = pieces(rest, '@');
    if parts.len() < 2 {
        None
    } else {
        let host_port = pieces(before(before(parts[1], '?'), '#'), ':');
        Some(
            (
                host_port[0],
                if host_port.len() < 2 {
                    443
                } else {
                    match number_in(host_port[1]) {
                        Some(n) => if n <= u16::MAX {
                            n as u16
                        } else {
                            443
                        },
                        None => 443,
                    }
                },
            ),
        )
    }
}

/// The host and the port that the data of a VMess node name.
pub open spec fn server_in_data(data: JsonView) -> Option<(Seq<char>, u16)> {
    match data.text_field("add"@) {
        Some(host) => Some(
            (
                host,
                match data.field("port"@) {
                    Some(v) => match v.unsigned() {
                        Some(p) => port_of(p as int),
                        None => 443,
                    },
                    None => 443,
                },
            ),
        ),
        None => None,
    }
}

/// The data of a VMess node, given what decoding its base64 gave.
pub open spec fn data_in_bytes(bytes: Result<Seq<u8>, Seq<char>>) -> Option<JsonView> {
    match bytes {
        Ok(b) => if valid_utf8(b) {
            match parsed_json(decode_utf8(b)) {
                Ok(data) => Some(data),
                Err(_) => None,
            }
        } else {
            None
        },
        Err(_) => None,
    }
}

/// The server of a link: its host and its port.
pub open spec fn server_of(link: Seq<char>) -> Option<(Seq<char>, u16)> {
    if has_prefix(link, "vless://"@) {
        server_after_at(link.skip("vless://"@.len() as int))
    } else if has_prefix(link, "trojan://"@) {
        server_after_at(link.skip("trojan://"@.len() as int))
    } else if has_prefix(link, "vmess://"@) {
        match data_in_bytes(
            standard_decode(before(link.skip("vmess://"@.len() as int), '#')),
        ) {
            Some(data) => server_in_data(data),
            None => None,
        }
    } else {
        None
    }
}

/// A server, its host as a sequence of characters.
pub open spec fn server_view(server: Option<(String, u16)>) -> Option<(Seq<char>, u16)> {
    match server {
        Some((host, port)) => Some((host@, port)),
        None => None,
    }
}

/// The host and the port that a VLESS or Trojan link names after its scheme.
pub fn find_server(rest: &str) -> (r: Option<(String, u16)>)
    ensures
        server_view(r) == server_after_at(rest@),
{
    let parts = split(rest, '@');
    let ghost all = texts(parts@);
    assert(all.len() == parts.len());
    if parts.len() < 2 {
        return None;
    }
    assert(all[1] == parts[1]@);
    let unnamed = until(parts[1].as_str(), '?');
    let address = until(unnamed.as_str(), '#');
    let host_port = split(address.as_str(), ':');
    let ghost split_view = texts(host_port@);
    assert(split_view.len() == host_port.len());
    assert(split_view[0] == host_port[0]@);
    let port: u16 = if host_port.len() < 2 {
        443
    } else {
        assert(split_view[1] == host_port[1]@);
        match parse_number(host_port[1].as_str(), 65535) {
            Some(n) => n as u16,
            None => 443,
        }
    };
    Some((host_port[0].clone(), port))
}

/// The host and the port that the data of a VMess node name.
pub fn server_from_data(data: &Json) -> (r: Option<(String, u16)>)
    ensures
        server_view(r) == server_in_data(data@),
{
    match data.get_str("add") {
        Some(host) => {
            let port: u64 = match data.get("port") {
                Some(v) => v.as_u64().unwrap_or(443),
                None => 443,
            };
            Some((host.to_owned(), (port % 65536) as u16))
        },
        None => None,
    }
}

/// The data of a VMess node, given what decoding its base64 gave.
pub fn read_data(bytes: Result<Vec<u8>, String>) -> (r: Option<Json>)
    ensures
        (match r {
            Some(data) => Some(data@),
            None => None,
        }) == data_in_bytes(
            match bytes {
                Ok(b) => Ok(b@),
                Err(e) => Err(e@),
            },
        ),
{
    match bytes {
        Ok(b) => match from_utf8(b) {
            Ok(text) => match parse_json(text.as_str()) {
                Ok(data) => Some(data),
                Err(_) => None,
            },
            Err(_) => None,
        },
        Err(_) => None,
    }
}

/// The server of a link, its host and its port, for measuring its latency.
pub fn extract_server_from_link(link: &str) -> (r: Option<(String, u16)>)
    ensures
        server_view(r) == server_of(link@),
{
    match strip_prefix(link, "vless://") {
        Some(rest) => {
            return find_server(rest.as_str());
        },
        None => {},
    }
    match strip_prefix(link, "trojan://") {
        Some(rest) => {
            return find_server(rest.as_str());
        },
        None => {},
    }
    match strip_prefix(link, "vmess://") {
        Some(rest) => {
            let payload = until(rest.as_str(), '#');
            match read_data(decode_standard(payload.as_str())) {
                Some(data) => server_from_data(&data),
                None => None,
            }
        },
        None => None,
    }
}

// ---- Measuring ----

/// The least of some numbers.
pub open spec fn least(samples: Seq<u64>) -> u64
    decreases samples.len(),
{
    if samples.len() <= 1 {
        samples[0]
    } else if least(samples.drop_last()) <= samples.last() {
        least(samples.drop_last())
    } else {
        samples.last()
    }
}

/// An attempt to connect to a server gave a latency, or failed.
pub open spec fn attempt_gave<F: Fn(&str, u16) -> Option<u64>>(
    connect: F,
    server: (Seq<char>, u16),
    result: Option<u64>,
) -> bool {
    exists|h: &str| h@ == server.0 && #[trigger] call_ensures(connect, (h, server.1), result)
}

/// The latencies of the attempts that did not fail.
pub open spec fn values(outcomes: Seq<Option<u64>>) -> Seq<u64>
    decreases outcomes.len(),
{
    if outcomes.len() == 0 {
        Seq::empty()
    } else {
        match outcomes.last() {
            Some(ms) => values(outcomes.drop_last()).push(ms),
            None => values(outcomes.drop_last()),
        }
    }
}

/// One of some attempts failed.
pub open spec fn has_failure(outcomes: Seq<Option<u64>>) -> bool {
    exists|i: int| 0 <= i < outcomes.len() && (#[trigger] outcomes[i]) is None
}

/// How a measurement goes on.
#[derive(Debug, Clone, Copy, PartialEq, Eq)]
pub enum Attempt {
    /// Another attempt is needed.
    Again,
    /// The measurement is over, with this latency or none.
    Done(Option<u64>),
}

/// How a measurement goes on after some attempts: one that failed ends it with
/// nothing, and enough of them end it with the least latency.
pub open spec fn attempt_after(outcomes: Seq<Option<u64>>) -> Attempt {
    if has_failure(outcomes) {
        Attempt::Done(None)
    } else if outcomes.len() < SAMPLES {
        Attempt::Again
    } else {
        Attempt::Done(Some(least(values(outcomes))))
    }
}

proof fn lemma_values(outcomes: Seq<Option<u64>>)
    requires
        !has_failure(outcomes),
    ensures
        values(outcomes).len() == outcomes.len(),
        forall|i: int|
            0 <= i < outcomes.len() ==> Some(#[trigger] values(outcomes)[i]) == outcomes[i],
    decreases outcomes.len(),
{
    if outcomes.len() > 0 {
        let shorter = outcomes.drop_last();
        assert(outcomes[outcomes.len() - 1] is Some);
        assert forall|i: int| 0 <= i < shorter.len() implies (#[trigger] shorter[i]) is Some by {
            assert(outcomes[i] is Some);
        }
        lemma_values(shorter);
        assert forall|i: int| 0 <= i < outcomes.len() implies Some(
            #[trigger] values(outcomes)[i],
        ) == outcomes[i] by {
            if i < shorter.len() {
                assert(values(outcomes)[i] == values(shorter)[i]);
                assert(shorter[i] == outcomes[i]);
            }
        }
    }
}

/// Tells how a measurement goes on, given what the attempts so far gave: each a
/// latency, or nothing where it failed.
pub fn next_attempt(outcomes: &Vec<Option<u64>>) -> (r: Attempt)
    ensures
        r == attempt_after(outcomes@),
{
    let mut best: u64 = 0;
    let mut i: usize = 0;
    while i < outcomes.len()
        invariant
            i <= outcomes.len(),
            !has_failure(outcomes@.take(i as int)),
            values(outcomes@.take(i as int)).len() == i,
            i > 0 ==> best == least(values(outcomes@.take(i as int))),
        decreases outcomes.len() - i,
    {
        let ghost seen = outcomes@.take(i as int);
        let ghost longer = outcomes@.take(i + 1);
        assert(longer.drop_last() =~= seen);
        match outcomes[i] {
            Some(ms) => {
                if i == 0 || ms < best {
                    best = ms;
                }
                proof {
                    assert(longer.last() == Some(ms));
                    assert(values(longer).drop_last() =~= values(seen));
                    assert forall|k: int| 0 <= k < longer.len() implies (
                    #[trigger] longer[k]) is Some by {
                        if k < seen.len() {
                            assert(seen[k] is Some);
                        }
                    }
                }
            },
            None => {
                assert(outcomes@[i as int] is None);
                return Attempt::Done(None);
            },
        }
        i = i + 1;
    }
    assert(outcomes@.take(i as int) =~= outcomes@);
    if outcomes.len() < SAMPLES {
        Attempt::Again
    } else {
        Attempt::Done(Some(best))
    }
}

/// `outcomes` are what attempts to connect to a server gave, up to the one that
/// ended the measurement.
pub open spec fn is_measurement<F: Fn(&str, u16) -> Option<u64>>(
    connect: F,
    server: (Seq<char>, u16),
    outcomes: Seq<Option<u64>>,
) -> bool {
    &&& forall|i: int|
        0 <= i < outcomes.len() ==> attempt_gave(connect, server, #[trigger] outcomes[i])
    &&& forall|n: int|
        0 <= n < outcomes.len() ==> attempt_after(#[trigger] outcomes.take(n)) is Again
    &&& attempt_after(outcomes) is Done
}

impl AppState {
    /// Measures the latency of a link's server by connecting to it a few times: the
    /// least that was seen, or nothing if the link names no server or one attempt
    /// failed.
    pub fn measure_latency<F: Fn(&str, u16) -> Option<u64>>(link: &str, connect: F) -> (r: Option<
        u64,
    >)
        requires
            forall|h: &str, p: u16|
                server_of(link@) == Some((h@, p)) ==> #[trigger] call_requires(connect, (h, p)),
        ensures
            match server_of(link@) {
                Some(server) => exists|outcomes: Seq<Option<u64>>| #[trigger]
                    is_measurement(connect, server, outcomes) && attempt_after(outcomes)
                        == Attempt::Done(r),
                None => r is None,
            },
    {
        let (host, port) = match extract_server_from_link(link) {
            Some(server) => server,
            None => {
                return None;
            },
        };
        let ghost server = (host@, port);
        let mut outcomes: Vec<Option<u64>> = Vec::new();
        loop
            invariant
                server == (host@, port),
                server_of(link@) == Some(server),
                forall|h: &str, p: u16|
                    server_of(link@) == Some((h@, p)) ==> #[trigger] call_requires(connect, (h, p)),
                outcomes.len() <= SAMPLES,
                forall|i: int|
                    0 <= i < outcomes.len() ==> attempt_gave(
                        connect,
                        server,
                        #[trigger] outcomes@[i],
                    ),
                forall|n: int|
                    0 <= n < outcomes.len() ==> attempt_after(
                        #[trigger] outcomes@.take(n),
                    ) is Again,
            decreases SAMPLES - outcomes.len(),
        {
            match next_attempt(&outcomes) {
                Attempt::Again => {
                    let h: &str = host.as_str();
                    let outcome = connect(h, port);
                    let ghost seen = outcomes@;
                    outcomes.push(outcome);
                    proof {
                        assert(h@ == server.0 && call_ensures(connect, (h, server.1), outcome));
                        assert(attempt_gave(connect, server, outcome));
                        assert forall|i: int| 0 <= i < outcomes.len() implies attempt_gave(
                            connect,
                            server,
                            #[trigger] outcomes@[i],
                        ) by {
                            if i < seen.len() {
                                assert(outcomes@[i] == seen[i]);
                            }
                        }
                        assert forall|n: int| 0 <= n < outcomes.len() implies attempt_after(
                            #[trigger] outcomes@.take(n),
                        ) is Again by {
                            assert(outcomes@.take(n) =~= seen.take(n));
                            assert(seen.take(seen.len() as int) =~= seen);
                        }
                    }
                },
                Attempt::Done(latency) => {
                    assert(is_measurement(connect, server_of(link@)->0, outcomes@));
                    return latency;
                },
            }
        }
    }
}

/// A measurement takes as many attempts as there are samples, unless one fails. If
/// none does, its latency is one that was seen, and none was less; if one does,
/// there is none.
pub proof fn law_measurement(outcomes: Seq<Option<u64>>)
    ensures
        attempt_after(outcomes) is Again <==> !has_failure(outcomes) && outcomes.len() < SAMPLES,
        has_failure(outcomes) ==> attempt_after(outcomes) == Attempt::Done(None),
        attempt_after(outcomes) matches Attempt::Done(Some(ms)) ==> {
            &&& outcomes.len() >= SAMPLES
            &&& outcomes.contains(Some(ms))
            &&& forall|i: int|
                0 <= i < outcomes.len() ==> (#[trigger] outcomes[i] matches Some(x) && ms <= x)
        },
{
    if attempt_after(outcomes) is Done && !has_failure(outcomes) {
        let all = values(outcomes);
        lemma_values(outcomes);
        law_least(all);
        let k = choose|k: int| 0 <= k < all.len() && all[k] == least(all);
        assert(outcomes[k] == Some(least(all)));
        assert forall|i: int| 0 <= i < outcomes.len() implies (#[trigger] outcomes[i] matches Some(
            x,
        ) && least(all) <= x) by {
            assert(Some(all[i]) == outcomes[i]);
        }
    }
}

/// The least of some numbers is one of them, and none is less.
pub proof fn law_least(samples: Seq<u64>)
    requires
        samples.len() > 0,
    ensures
        samples.contains(least(samples)),
        forall|i: int| 0 <= i < samples.len() ==> least(samples) <= #[trigger] samples[i],
    decreases samples.len(),
{
    if samples.len() > 1 {
        law_least(samples.drop_last());
        assert forall|i: int| 0 <= i < samples.len() implies least(samples)
            <= #[trigger] samples[i] by {
            if i < samples.len() - 1 {
                assert(samples.drop_last()[i] == samples[i]);
            }
        }
        let k = choose|k: int|
            0 <= k < samples.drop_last().len() && samples.drop_last()[k] == least(
                samples.drop_last(),
            );
        assert(samples[k] == least(samples.drop_last()));
        assert(samples[samples.len() - 1] == samples.last());
    } else {
        assert(samples[0] == least(samples));
    }
}

// ---- Servers ----

/// What is measured of a VMess node is the address that its data name under `add`,
/// whatever else they hold, at the port under `port`: the number itself where it is a
/// port, else its lowest sixteen bits, and 443 where there is no such number. Without
/// an address nothing is measured.
pub proof fn law_server_in_data(data: JsonView)
    ensures
        server_in_data(data) is Some <==> data.text_field("add"@) is Some,
        server_in_data(data) matches Some((host, port)) ==> {
            &&& data.field("add"@) == Some(JsonView::Str(host))
            &&& (data.field("port"@) matches Some(JsonView::Number(JsonNumber::Unsigned(n)))
                && n <= 65535) ==> port == data.field("port"@)->0.unsigned()->0
            &&& data.field("port"@) matches Some(JsonView::Number(JsonNumber::Unsigned(n))) ==> (n
                - port) % 65536 == 0
            &&& !(data.field("port"@) matches Some(JsonView::Number(JsonNumber::Unsigned(_))))
                ==> port == 443
        },
{
}

/// The server that is measured for a VMess node is the one that its outbound connects
/// to, at the same port where the node names one.
pub proof fn law_measured_server_is_used(node: JsonView, outbound: JsonView)
    requires
        vmess_view(node) == Ok::<JsonView, Seq<char>>(outbound),
    ensures
        server_in_data(node) matches Some((host, port)) && {
            &&& outbound.field("server"@) == Some(JsonView::Str(host))
            &&& (node.field("port"@) matches Some(JsonView::Number(JsonNumber::Unsigned(n))) && n
                <= 65535) ==> outbound.field("server_port"@) == Some(
                JsonView::Number(JsonNumber::Unsigned(port as u64)),
            )
            &&& node.field("port"@) is None ==> outbound.field("server_port"@) == Some(
                JsonView::Number(JsonNumber::Unsigned(port as u64)),
            )
        },
{
    law_vmess_entries(node);
    law_server_in_data(node);
}

/// The server of a VMess link is that of the data which its base64 carries; a name
/// after it makes no difference.
pub proof fn law_vmess_server(payload: Seq<char>, name: Seq<char>, bytes: Seq<u8>, data: JsonView)
    requires
        !payload.contains('#'),
        standard_decode(payload) == Ok::<Seq<u8>, Seq<char>>(bytes),
        valid_utf8(bytes),
        parsed_json(decode_utf8(bytes)) == Ok::<JsonView, Seq<char>>(data),
    ensures
        server_of("vmess://"@ + payload + seq!['#'] + name) == server_of("vmess://"@ + payload),
        data.text_field("add"@) is None ==> server_of("vmess://"@ + payload) is None,
        data.text_field("add"@) matches Some(host) ==> (server_of("vmess://"@ + payload) matches Some(
            server,
        ) && server.0 == host),
{
    reveal_strlit("vmess://");
    reveal_strlit("vless://");
    reveal_strlit("trojan://");
    let scheme = "vmess://"@;
    let (a, b) = (scheme + payload, scheme + payload + seq!['#'] + name);
    assert(scheme.len() == 8 && scheme[1] == 'm' && scheme[0] == 'v');
    assert("vless://"@[1] == 'l' && "trojan://"@[0] == 't');
    assert(a.take(8) =~= scheme && b.take(8) =~= scheme);
    assert(a.take(8)[1] == 'm' && b.take(8)[1] == 'm');
    assert(a[0] == 'v' && b[0] == 'v');
    if has_prefix(a, "trojan://"@) {
        assert(a.take(9)[0] == a[0]);
    }
    if has_prefix(b, "trojan://"@) {
        assert(b.take(9)[0] == b[0]);
    }
    assert(a.skip(8) =~= payload);
    assert(b.skip(8) =~= payload + seq!['#'] + name);
    lemma_before(payload, '#', name);
    law_server_in_data(data);
}

/// The end of an address: nothing, or parameters or a name.
pub open spec fn ends_address(tail: Seq<char>) -> bool {
    tail.len() > 0 ==> tail[0] == '?' || tail[0] == '#'
}

/// A host of a link holds no character that ends it.
pub open spec fn is_host(host: Seq<char>) -> bool {
    !host.contains('@') && !host.contains(':') && !host.contains('?') && !host.contains('#')
}

proof fn lemma_address(user: Seq<char>, address: Seq<char>, tail: Seq<char>)
    requires
        !user.contains('@'),
        !address.contains('@'),
        !address.contains('?'),
        !address.contains('#'),
        ends_address(tail),
    ensures
        ({
            let parts = pieces(user + seq!['@'] + (address + tail), '@');
            parts.len() >= 2 && before(before(parts[1], '?'), '#') == address
        }),
{
    let rest = address + tail;
    lemma_pieces_sum(user, '@', rest);
    lemma_before_sum(address, tail, '@');
    let end = before(tail, '@');
    lemma_first_index_bounds(tail, '@', 0);
    assert(end.len() > 0 ==> end[0] == tail[0]);
    lemma_before_sum(address, end, '?');
    let middle = before(end, '?');
    lemma_first_index_bounds(end, '?', 0);
    assert(middle.len() > 0 ==> middle[0] == end[0]);
    lemma_first_index_free(end, '?', 0);
    lemma_before_sum(address, middle, '#');
    lemma_first_index_bounds(middle, '#', 0);
    lemma_first_index_free(middle, '#', 0);
    if middle.len() > 0 {
        if end[0] == '?' {
            assert(middle.contains(middle[0]));
        }
        assert(middle[0] == '#');
        if before(middle, '#').len() > 0 {
            assert(before(middle, '#').contains(before(middle, '#')[0]));
        }
    }
    assert(before(middle, '#').len() == 0);
    assert(address + before(middle, '#') =~= address);
}

/// The server of a VLESS or Trojan link is the host after the user, at the port after
/// it, and at 443 where none is named. Neither parameters nor a name make a
/// difference, and neither does the user.
pub proof fn law_url_server(user: Seq<char>, host: Seq<char>, port: u16, tail: Seq<char>)
    requires
        !user.contains('@'),
        is_host(host),
        ends_address(tail),
    ensures
        ({
            let named = user + seq!['@'] + ((host + seq![':'] + decimal(port as nat)) + tail);
            let bare = user + seq!['@'] + (host + tail);
            &&& server_of("vless://"@ + named) == Some((host, port))
            &&& server_of("trojan://"@ + named) == Some((host, port))
            &&& server_of("vless://"@ + bare) == Some((host, 443u16))
            &&& server_of("trojan://"@ + bare) == Some((host, 443u16))
        }),
{
    let digits = decimal(port as nat);
    let address = host + seq![':'] + digits;
    lemma_decimal_value(port as nat);
    law_decimal_reads_back(port as nat);
    assert forall|c: char| !is_digit(c) implies !#[trigger] digits.contains(c) by {
        if digits.contains(c) {
            let i = choose|i: int| 0 <= i < digits.len() && digits[i] == c;
            assert(is_digit(digits[i]));
        }
    }
    assert forall|c: char| !is_digit(c) && c != ':' && !host.contains(c) implies !#[trigger] address.contains(
        c,
    ) by {
        if address.contains(c) {
            let i = choose|i: int| 0 <= i < address.len() && address[i] == c;
            if i < host.len() {
                assert(host[i] == c);
            } else if i > host.len() {
                assert(digits[i - host.len() - 1] == c);
            }
        }
    }
    let named = user + seq!['@'] + (address + tail);
    let bare = user + seq!['@'] + (host + tail);
    lemma_address(user, address, tail);
    lemma_address(user, host, tail);
    lemma_pieces_sum(host, ':', digits);
    assert(!digits.contains(':'));
    lemma_pieces_sum(digits, ':', digits);
    assert(server_after_at(named) == Some((host, port)));
    assert(server_after_at(bare) == Some((host, 443u16)));
    reveal_strlit("vless://");
    reveal_strlit("trojan://");
    let (v, t) = ("vless://"@, "trojan://"@);
    assert(v.len() == 8 && t.len() == 9 && v[0] == 'v' && t[0] == 't');
    assert((v + named).skip(8) =~= named && (v + bare).skip(8) =~= bare);
    assert((t + named).skip(9) =~= named && (t + bare).skip(9) =~= bare);
    assert((v + named).take(8) =~= v && (v + bare).take(8) =~= v);
    assert((t + named).take(9) =~= t && (t + bare).take(9) =~= t);
    assert((t + named).take(8)[0] == 't' && (t + bare).take(8)[0] == 't');
}

/// A measurement goes on exactly while it has had fewer than 3 attempts and none of them
/// failed.
pub proof fn law_attempts(outcomes: Seq<Option<u64>>)
    ensures
        attempt_after(outcomes) is Again <==> outcomes.len() < 3 && (forall|i: int|
            0 <= i < outcomes.len() ==> (#[trigger] outcomes[i]) is Some),
        attempt_after(outcomes) == Attempt::Done(None) <==> (exists|i: int|
            0 <= i < outcomes.len() && (#[trigger] outcomes[i]) is None),
{
}

/// What is measured for a link is what connecting to its server gave, and nothing is
/// measured only if connecting to it failed. Without a server there is nothing to
/// measure.
pub proof fn law_measured<F: Fn(&str, u16) -> Option<u64>>(
    link: &str,
    connect: F,
    r: Option<u64>,
)
    requires
        call_ensures(AppState::measure_latency::<F>, (link, connect), r),
    ensures
        server_of(link@) is None ==> r is None,
        server_of(link@) matches Some((host, port)) ==> exists|h: &str|
            h@ == host && #[trigger] call_ensures(connect, (h, port), r),
{
    if server_of(link@) is Some {
        let server = server_of(link@)->0;
        let outcomes = choose|outcomes: Seq<Option<u64>>| #[trigger]
            is_measurement(connect, server, outcomes) && attempt_after(outcomes) == Attempt::Done(r);
        assert(is_measurement(connect, server, outcomes));
        law_measurement(outcomes);
        law_attempts(outcomes);
        let i = match r {
            Some(ms) => choose|i: int| 0 <= i < outcomes.len() && outcomes[i] == Some(ms),
            None => choose|i: int| 0 <= i < outcomes.len() && (#[trigger] outcomes[i]) is None,
        };
        assert(outcomes[i] == r);
        assert(attempt_gave(connect, server, outcomes[i]));
        let h = choose|h: &str|
            h@ == server.0 && #[trigger] call_ensures(connect, (h, server.1), r);
        assert(h@ == server.0 && call_ensures(connect, (h, server.1), r));
    }
}

} // verus!
