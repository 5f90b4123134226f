//! The port of the mixed inbound and that of the control interface, which go
//! together: choosing them, and finding them again at the next start.
use vstd::prelude::*;

use crate::config_gen::{configured, is_no_tun, says, set_where, Settings};
use crate::config_laws::{law_listen_port, law_parts};
use crate::json::{items_view, parse_json, parsed_json, unsigned_view, Json, JsonNumber, JsonView};
use crate::singbox::{AppState, AppView};
use crate::text::{
    decimal, is_digit, law_decimal_reads_back, lemma_decimal_value, lemma_trimmed_same, number_in,
    number_text, opt_view, parse_number, same_text, trim, trimmed,
};

verus! {

/// How far the port of the control interface is above that of the mixed inbound.
pub const API_PORT_OFFSET: u16 = 7010;

/// The port of the mixed inbound where none was chosen.
pub const DEFAULT_PORT: u16 = 2080;

/// The lowest port that is taken over from an earlier run.
pub const MIN_PORT: u16 = 1024;

/// The port of the control interface that goes with a port of the mixed inbound.
pub open spec fn api_port_of(port: u16) -> u16 {
    if port + API_PORT_OFFSET > u16::MAX {
        u16::MAX
    } else {
        (port + API_PORT_OFFSET) as u16
    }
}

/// The port that the first mixed inbound with a port listens on.
pub open spec fn first_listen_port(inbounds: Seq<JsonView>) -> Option<u64>
    decreases inbounds.len(),
{
    if inbounds.len() == 0 {
        None
    } else {
        match listen_port(inbounds[0]) {
            Some(p) => Some(p),
            None => first_listen_port(inbounds.skip(1)),
        }
    }
}

/// The port of an inbound, if it is the mixed one.
pub open spec fn listen_port(inbound: JsonView) -> Option<u64> {
    if says(inbound, "tag"@, "mixed-in"@) && inbound.field("listen_port"@) is Some {
        inbound.field("listen_port"@)->0.unsigned()
    } else {
        None
    }
}

/// The port that a configuration names, the lowest sixteen bits of it; the default
/// where it names none.
pub open spec fn port_in_config(config: Option<JsonView>) -> u16 {
    match config {
        Some(doc) => match doc.field("inbounds"@) {
            Some(JsonView::Array(inbounds)) => match first_listen_port(inbounds) {
                Some(p) => (p % 65536) as u16,
                None => DEFAULT_PORT,
            },
            _ => DEFAULT_PORT,
        },
        None => DEFAULT_PORT,
    }
}

/// The document that a text holds, if there is a text and it holds one.
pub open spec fn document_in(text: Option<Seq<char>>) -> Option<JsonView> {
    match text {
        Some(t) => match parsed_json(t) {
            Ok(doc) => Some(doc),
            Err(_) => None,
        },
        None => None,
    }
}

/// The port that a file of its own names, if it may be taken over.
pub open spec fn port_in_file(text: Option<Seq<char>>) -> Option<u16> {
    match text {
        Some(t) => match number_in(trimmed(t)) {
            Some(n) => if MIN_PORT <= n <= u16::MAX {
                Some(n as u16)
            } else {
                None
            },
            None => None,
        },
        None => None,
    }
}

/// The port for the next run: the one that was chosen, else that of the last
/// configuration, else the default.
pub open spec fn loaded_port(
    port_file: Option<Seq<char>>,
    config_file: Option<Seq<char>>,
) -> u16 {
    match port_in_file(port_file) {
        Some(p) => p,
        None => port_in_config(document_in(config_file)),
    }
}

/// A port and the one of the control interface that goes with it were both free
/// when they were tried.
pub open spec fn pair_was_free<F: Fn(u16) -> bool>(in_use: F, port: int) -> bool {
    &&& call_ensures(in_use, (port as u16,), false)
    &&& call_ensures(in_use, (api_port_of(port as u16),), false)
}

/// One of a port and the one of the control interface that goes with it was taken
/// when they were tried.
pub open spec fn pair_was_taken<F: Fn(u16) -> bool>(in_use: F, port: int) -> bool {
    ||| call_ensures(in_use, (port as u16,), true)
    ||| call_ensures(in_use, (api_port_of(port as u16),), true)
}

/// `r` is the first port above `from` that was free together with the one that goes
/// with it, or the next port where all were taken.
pub open spec fn is_next_pair<F: Fn(u16) -> bool>(in_use: F, from: u16, r: u16) -> bool {
    ||| {
        &&& from < r < u16::MAX
        &&& pair_was_free(in_use, r as int)
        &&& forall|p: int| from < p < r ==> #[trigger] pair_was_taken(in_use, p)
    }
    ||| {
        &&& r == from + 1
        &&& forall|p: int| from < p < u16::MAX ==> #[trigger] pair_was_taken(in_use, p)
    }
}

/// The document that a text holds, if there is a text and it holds one.
pub fn read_document(text: Option<&str>) -> (r: Option<Json>)
    ensures
        match r {
            Some(doc) => document_in(opt_view(text)) == Some(doc@),
            None => document_in(opt_view(text)) is None,
        },
{
    match text {
        Some(t) => match parse_json(t) {
            Ok(doc) => Some(doc),
            Err(_) => None,
        },
        None => None,
    }
}

/// The port that a configuration names.
pub fn find_port(config: Option<&Json>) -> (r: u16)
    ensures
        r == port_in_config(
            match config {
                Some(doc) => Some(doc@),
                None => None,
            },
        ),
{
    let doc = match config {
        Some(doc) => doc,
        None => {
            return DEFAULT_PORT;
        },
    };
    let inbounds = match doc.get("inbounds") {
        Some(v) => match v.as_array() {
            Some(items) => items,
            None => {
                return DEFAULT_PORT;
            },
        },
        None => {
            return DEFAULT_PORT;
        },
    };
    let ghost whole = items_view(inbounds@);
    let mut i: usize = 0;
    assert(whole.skip(0) =~= whole);
    while i < inbounds.len()
        invariant
            i <= inbounds.len(),
            whole == items_view(inbounds@),
            config matches Some(d) && d@.field("inbounds"@) == Some(JsonView::Array(whole)),
            first_listen_port(whole) == first_listen_port(whole.skip(i as int)),
        decreases inbounds.len() - i,
    {
        assert(whole.skip(i as int).skip(1) =~= whole.skip(i + 1));
        assert(whole.skip(i as int)[0] == inbounds[i as int]@);
        let inbound = &inbounds[i];
        let is_mixed: bool = match inbound.get_str("tag") {
            Some(t) => same_text(t, "mixed-in"),
            None => false,
        };
        if is_mixed {
            match inbound.get("listen_port") {
                Some(v) => match v.as_u64() {
                    Some(p) => {
                        return (p % 65536) as u16;
                    },
                    None => {},
                },
                None => {},
            }
        }
        i = i + 1;
    }
    DEFAULT_PORT
}

impl AppState {
    /// The port that the text of a configuration names; the default where there is
    /// no such text or it names none.
    pub fn read_port_from_config(config_file: Option<&str>) -> (r: u16)
        ensures
            r == port_in_config(document_in(opt_view(config_file))),
    {
        match read_document(config_file) {
            Some(doc) => find_port(Some(&doc)),
            None => find_port(None),
        }
    }

    /// The port for the next run, given the files that the last one left: the one
    /// that was chosen, else that of the last configuration, else the default.
    pub fn load_port(port_file: Option<&str>, config_file: Option<&str>) -> (r: u16)
        ensures
            r == loaded_port(opt_view(port_file), opt_view(config_file)),
    {
        match port_file {
            Some(t) => {
                let text = trim(t);
                match parse_number(text.as_str(), 65535) {
                    Some(n) => {
                        if n >= MIN_PORT as u64 {
                            return n as u16;
                        }
                    },
                    None => {},
                }
            },
            None => {},
        }
        AppState::read_port_from_config(config_file)
    }

    /// The file that keeps the chosen port for the next run.
    pub fn port_file(&self) -> (r: String)
        ensures
            r@ == decimal(self@.proxy_port as nat),
    {
        number_text(self.proxy_port as u64)
    }

    /// The port of the mixed inbound.
    pub fn get_proxy_port(&self) -> (r: u16)
        ensures
            r == self@.proxy_port,
    {
        self.proxy_port
    }

    /// Chooses the port of the mixed inbound.
    pub fn set_proxy_port(&mut self, port: u16)
        ensures
            final(self)@ == (AppView { proxy_port: port, ..old(self)@ }),
    {
        self.proxy_port = port;
    }

    /// The port of the control interface that goes with a port.
    pub fn api_port_for(port: u16) -> (r: u16)
        ensures
            r == api_port_of(port),
    {
        if port > 65535 - API_PORT_OFFSET {
            65535
        } else {
            port + API_PORT_OFFSET
        }
    }

    /// The port of the control interface.
    pub fn api_port(&self) -> (r: u16)
        ensures
            r == api_port_of(self@.proxy_port),
    {
        AppState::api_port_for(self.proxy_port)
    }

    /// The first port above `from` that is free together with the one of the
    /// control interface that goes with it; the next port where there is none.
    /// `in_use` tries whether a port is taken.
    pub fn next_free_pair<F: Fn(u16) -> bool>(from: u16, in_use: &F) -> (r: u16)
        requires
            from < u16::MAX,
            forall|p: u16| p > from ==> #[trigger] call_requires(*in_use, (p,)),
        ensures
            is_next_pair(*in_use, from, r),
    {
        let mut p: u16 = from + 1;
        while p < 65535
            invariant
                from < p <= u16::MAX,
                forall|q: u16| q > from ==> #[trigger] call_requires(*in_use, (q,)),
                forall|q: int| from < q < p ==> #[trigger] pair_was_taken(*in_use, q),
            decreases u16::MAX - p,
        {
            let api: u16 = AppState::api_port_for(p);
            if !in_use(p) && !in_use(api) {
                return p;
            }
            assert(pair_was_taken(*in_use, p as int));
            p = p + 1;
        }
        from + 1
    }
}

// ---- Laws ----

/// A port that was chosen is the port of the next run, whatever the configuration
/// says.
pub proof fn law_chosen_port_kept(port: u16, config_file: Option<Seq<char>>)
    requires
        port >= MIN_PORT,
    ensures
        loaded_port(Some(decimal(port as nat)), config_file) == port,
{
    let text = decimal(port as nat);
    lemma_decimal_value(port as nat);
    assert(is_digit(text[0]));
    assert(is_digit(text[text.len() - 1]));
    lemma_trimmed_same(text);
    law_decimal_reads_back(port as nat);
}

/// The port that some inbounds agree on is the one that is found.
proof fn lemma_found_port(inbounds: Seq<JsonView>, port: u64, i: int)
    requires
        0 <= i < inbounds.len(),
        says(inbounds[i], "tag"@, "mixed-in"@),
        forall|j: int|
            0 <= j < inbounds.len() && says(#[trigger] inbounds[j], "tag"@, "mixed-in"@)
                ==> inbounds[j].field("listen_port"@) == Some(unsigned_view(port)),
    ensures
        first_listen_port(inbounds) == Some(port),
    decreases inbounds.len(),
{
    if !says(inbounds[0], "tag"@, "mixed-in"@) {
        let rest = inbounds.skip(1);
        assert(rest[i - 1] == inbounds[i]);
        assert forall|j: int|
            0 <= j < rest.len() && says(#[trigger] rest[j], "tag"@, "mixed-in"@) implies rest[j].field(
            "listen_port"@,
        ) == Some(unsigned_view(port)) by {
            assert(rest[j] == inbounds[j + 1]);
        }
        lemma_found_port(rest, port, i - 1);
    }
}

/// The port that a configuration was made for is the one that is read out of it,
/// where the template has a mixed inbound.
pub proof fn law_configured_port_found(
    template: JsonView,
    proxy: JsonView,
    s: Settings,
    before: Seq<JsonView>,
    i: int,
)
    requires
        template.field("inbounds"@) == Some(JsonView::Array(before)),
        0 <= i < before.len(),
        says(before[i], "tag"@, "mixed-in"@),
        s.use_tun || !says(before[i], "type"@, "tun"@),
    ensures
        port_in_config(Some(configured(template, proxy, s))) == s.listen_port,
{
    law_parts(template, proxy, s);
    let f = set_where("tag"@, "mixed-in"@, "listen_port"@, unsigned_view(s.listen_port as u64));
    let ports = before.map_values(f);
    let after = configured(template, proxy, s).field("inbounds"@)->0->Array_0;
    reveal_strlit("tag");
    reveal_strlit("type");
    reveal_strlit("listen_port");
    assert("tag"@.len() == 3 && "type"@.len() == 4 && "listen_port"@.len() == 11);
    assert(says(ports[i], "tag"@, "mixed-in"@));
    assert(says(ports[i], "type"@, "tun"@) == says(before[i], "type"@, "tun"@));
    if !s.use_tun {
        ports.lemma_filter_contains(is_no_tun(), i);
    }
    assert(after.contains(ports[i]));
    let k = choose|k: int| 0 <= k < after.len() && #[trigger] after[k] == ports[i];
    assert forall|j: int|
        0 <= j < after.len() && says(#[trigger] after[j], "tag"@, "mixed-in"@) implies after[j].field(
        "listen_port"@,
    ) == Some(unsigned_view(s.listen_port as u64)) by {
        law_listen_port(template, proxy, s, after, j);
    }
    lemma_found_port(after, s.listen_port as u64, k);
}

/// The port that a configuration was made for is found again in its text, where
/// the text reads back as the configuration and no port was chosen since.
pub proof fn law_config_file_port_kept(
    config_file: Seq<char>,
    template: JsonView,
    proxy: JsonView,
    s: Settings,
    before: Seq<JsonView>,
    i: int,
)
    requires
        parsed_json(config_file) == Ok::<JsonView, Seq<char>>(configured(template, proxy, s)),
        template.field("inbounds"@) == Some(JsonView::Array(before)),
        0 <= i < before.len(),
        says(before[i], "tag"@, "mixed-in"@),
        s.use_tun || !says(before[i], "type"@, "tun"@),
    ensures
        loaded_port(None, Some(config_file)) == s.listen_port,
{
    law_configured_port_found(template, proxy, s, before, i);
}

/// The port for the next run is the number in its file where that is from 1024 to
/// 65535. Else the file makes no difference, and without a configuration it is 2080.
pub proof fn law_port_choice(port_file: Option<Seq<char>>, config_file: Option<Seq<char>>)
    ensures
        ({
            let r = loaded_port(port_file, config_file);
            let named = port_file matches Some(t) && (number_in(trimmed(t)) matches Some(n) && 1024
                <= n <= 65535);
            &&& named ==> r == number_in(trimmed(port_file->0))->0
            &&& !named ==> r == loaded_port(None, config_file)
            &&& !named && config_file is None ==> r == 2080
            &&& !named && (config_file matches Some(c) && parsed_json(c) is Err) ==> r == 2080
        }),
{
}

/// The port of a configuration is that of its first mixed inbound that has one, and
/// 2080 where none has.
pub proof fn law_port_of_config(doc: JsonView, inbounds: Seq<JsonView>, k: int, port: u64)
    requires
        doc.field("inbounds"@) == Some(JsonView::Array(inbounds)),
        0 <= k <= inbounds.len(),
        forall|j: int|
            0 <= j < k ==> (#[trigger] inbounds[j]).text_field("tag"@) != Some("mixed-in"@)
                || !(inbounds[j].field("listen_port"@) matches Some(
                JsonView::Number(JsonNumber::Unsigned(_)),
            )),
        k < inbounds.len() ==> inbounds[k].text_field("tag"@) == Some("mixed-in"@)
            && inbounds[k].field("listen_port"@) == Some(
            JsonView::Number(JsonNumber::Unsigned(port)),
        ),
        port <= 65535,
    ensures
        k < inbounds.len() ==> port_in_config(Some(doc)) == port,
        k == inbounds.len() ==> port_in_config(Some(doc)) == 2080,
{
    lemma_first_port(inbounds, k, port);
}

proof fn lemma_first_port(inbounds: Seq<JsonView>, k: int, port: u64)
    requires
        0 <= k <= inbounds.len(),
        forall|j: int|
            0 <= j < k ==> (#[trigger] inbounds[j]).text_field("tag"@) != Some("mixed-in"@)
                || !(inbounds[j].field("listen_port"@) matches Some(
                JsonView::Number(JsonNumber::Unsigned(_)),
            )),
        k < inbounds.len() ==> inbounds[k].text_field("tag"@) == Some("mixed-in"@)
            && inbounds[k].field("listen_port"@) == Some(
            JsonView::Number(JsonNumber::Unsigned(port)),
        ),
    ensures
        first_listen_port(inbounds) == (if k < inbounds.len() {
            Some(port)
        } else {
            None
        }),
    decreases k,
{
    if k > 0 {
        let rest = inbounds.skip(1);
        assert(listen_port(inbounds[0]) is None);
        assert forall|j: int| 0 <= j < k - 1 implies (#[trigger] rest[j]).text_field("tag"@) != Some(
            "mixed-in"@,
        ) || !(rest[j].field("listen_port"@) matches Some(
            JsonView::Number(JsonNumber::Unsigned(_)),
        )) by {
            assert(rest[j] == inbounds[j + 1]);
        }
        lemma_first_port(rest, k - 1, port);
    }
}

/// Where asking for a port always gives the same answer, the pair of ports that is
/// found is free, with the second 7010 above the first as far as there are ports, and
/// no pair between is; only where no pair is free it is the next.
pub proof fn law_first_free_pair<F: Fn(u16) -> bool>(
    in_use: F,
    taken: spec_fn(int) -> bool,
    from: u16,
    r: u16,
    p: int,
)
    requires
        forall|q: u16, b: bool| #[trigger] call_ensures(in_use, (q,), b) ==> b == taken(q as int),
        is_next_pair(in_use, from, r),
        from < p < 65535,
    ensures
        from < r,
        p < r ==> taken(p) || taken(
            if p + 7010 > 65535 {
                65535
            } else {
                p + 7010
            },
        ),
        taken(r as int) || taken(
            if r + 7010 > 65535 {
                65535
            } else {
                r + 7010
            },
        ) ==> r == from + 1 && (taken(p) || taken(
            if p + 7010 > 65535 {
                65535
            } else {
                p + 7010
            },
        )),
{
    if p < r || !pair_was_free(in_use, r as int) {
        assert(pair_was_taken(in_use, p));
    }
}

} // verus!
