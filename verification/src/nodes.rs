//! The list of nodes: adding, removing and selecting them, the settings that hold
//! for all of them, and the names that are made up for them.
use vstd::prelude::*;
use vstd::utf8::{
    char_is_scalar, decode_utf8, encode_scalar, encode_utf8, encode_utf8_decode_utf8,
    encode_utf8_valid_utf8, has_width_1_encoding, is_ascii_chars, is_ascii_chars_encode_utf8,
    valid_utf8,
};

use crate::codec;
use crate::text;

verus! {

// ---- The list of nodes ----

/// One node.
#[derive(Debug, PartialEq, Eq)]
pub struct NodeInfo {
    pub name: String,
    pub link: String,
    /// The last latency that was measured, in milliseconds: 0 if none was,
    /// `u64::MAX` if the node could not be reached. It is not saved.
    pub latency: u64,
}

/// One node, its texts as sequences of characters.
#[verifier::ext_equal]
pub struct NodeView {
    pub name: Seq<char>,
    pub link: Seq<char>,
    pub latency: u64,
}

impl View for NodeInfo {
    type V = NodeView;

    open spec fn view(&self) -> NodeView {
        NodeView { name: self.name@, link: self.link@, latency: self.latency }
    }
}

/// The nodes, which of them is selected, and the settings that hold for all.
#[derive(Debug, PartialEq, Eq)]
pub struct NodesStore {
    pub nodes: Vec<NodeInfo>,
    /// The index of the selected node, 0 where there is none.
    pub current: usize,
    /// Whether a virtual network card takes over the traffic of all programs.
    pub use_tun: bool,
    /// `rule` or `global`.
    pub route_mode: String,
}

/// The nodes and their settings, as mathematical values.
#[verifier::ext_equal]
pub struct StoreView {
    pub nodes: Seq<NodeView>,
    pub current: int,
    pub use_tun: bool,
    pub route_mode: Seq<char>,
}

/// The nodes of a list, as mathematical values.
pub open spec fn nodes_view(nodes: Seq<NodeInfo>) -> Seq<NodeView> {
    nodes.map_values(|n: NodeInfo| n@)
}

impl View for NodesStore {
    type V = StoreView;

    open spec fn view(&self) -> StoreView {
        StoreView {
            nodes: nodes_view(self.nodes@),
            current: self.current as int,
            use_tun: self.use_tun,
            route_mode: self.route_mode@,
        }
    }
}

/// The route mode that a text stands for: `global`, or else `rule`.
pub open spec fn mode_of(mode: Seq<char>) -> Seq<char> {
    if mode == "global"@ {
        "global"@
    } else {
        "rule"@
    }
}

/// An index of a list of `len` nodes: the last one if it was too large.
pub open spec fn clamped(current: int, len: int) -> int {
    if len == 0 {
        0
    } else if current >= len {
        len - 1
    } else {
        current
    }
}

impl StoreView {
    /// The selected node is one of the nodes; with no nodes the index is 0.
    pub open spec fn valid(self) -> bool {
        0 <= self.current < self.nodes.len() || (self.nodes.len() == 0 && self.current == 0)
    }

    /// The selected node.
    pub open spec fn selected(self) -> Option<NodeView> {
        if 0 <= self.current < self.nodes.len() {
            Some(self.nodes[self.current])
        } else {
            None
        }
    }

    /// With a node for a link added and selected.
    pub open spec fn added(self, link: Seq<char>) -> StoreView {
        StoreView {
            nodes: self.nodes.push(
                NodeView { name: node_name(link, self.nodes.len() + 1), link, latency: 0 },
            ),
            current: self.nodes.len() as int,
            ..self
        }
    }

    /// With the node at `index` selected.
    pub open spec fn selecting(self, index: int) -> StoreView {
        StoreView { current: index, ..self }
    }

    /// With a latency noted at the node at `index`.
    pub open spec fn noting(self, index: int, latency: u64) -> StoreView {
        StoreView {
            nodes: self.nodes.update(index, NodeView { latency, ..self.nodes[index] }),
            ..self
        }
    }

    /// With the node at `index` taken out. The selected index stays, unless it
    /// was past the new end.
    pub open spec fn removed(self, index: int) -> StoreView {
        StoreView {
            nodes: self.nodes.remove(index),
            current: if self.nodes.len() > 1 && self.current >= self.nodes.len() - 1 {
                self.nodes.len() - 2
            } else {
                self.current
            },
            ..self
        }
    }

    /// What is left after saving and loading: the same without latencies.
    pub open spec fn without_latencies(self) -> StoreView {
        StoreView {
            nodes: self.nodes.map_values(|n: NodeView| NodeView { latency: 0, ..n }),
            ..self
        }
    }
}

/// A node as it is saved.
#[derive(Debug, PartialEq, Eq)]
pub struct SavedNode {
    pub name: String,
    pub link: String,
}

/// The nodes as they are saved. A setting that a file lacks is `None`.
#[derive(Debug, PartialEq, Eq)]
pub struct SavedNodes {
    pub nodes: Vec<SavedNode>,
    pub current: usize,
    pub use_tun: Option<bool>,
    pub route_mode: Option<String>,
}

/// The nodes of a saved list, as mathematical values. Their latencies are not known.
pub open spec fn saved_nodes_view(nodes: Seq<SavedNode>) -> Seq<NodeView> {
    nodes.map_values(|n: SavedNode| NodeView { name: n.name@, link: n.link@, latency: 0 })
}

/// The nodes and settings that a saved list holds: the index within its bounds,
/// the virtual network card on and the mode `rule` where the file lacks them.
pub open spec fn loaded(saved: SavedNodes) -> StoreView {
    StoreView {
        nodes: saved_nodes_view(saved.nodes@),
        current: clamped(saved.current as int, saved.nodes@.len() as int),
        use_tun: match saved.use_tun {
            Some(v) => v,
            None => true,
        },
        route_mode: match saved.route_mode {
            Some(m) => m@,
            None => "rule"@,
        },
    }
}

/// A saved list is that of a state: an index that is out of bounds is saved as 0.
pub open spec fn is_saved_form(s: StoreView, saved: SavedNodes) -> bool {
    &&& saved_nodes_view(saved.nodes@) == s.without_latencies().nodes
    &&& saved.current == (if s.current < s.nodes.len() {
        s.current
    } else {
        0
    })
    &&& saved.use_tun == Some(s.use_tun)
    &&& saved.route_mode matches Some(m) && m@ == s.route_mode
}

/// No nodes, no virtual network card, no mode.
pub open spec fn empty_store() -> StoreView {
    StoreView { nodes: Seq::empty(), current: 0, use_tun: false, route_mode: ""@ }
}

impl Default for NodesStore {
    fn default() -> (r: NodesStore)
        ensures
            r@ == empty_store(),
    {
        let r = NodesStore {
            nodes: Vec::new(),
            current: 0,
            use_tun: false,
            route_mode: "".to_owned(),
        };
        assert(nodes_view(r.nodes@) =~= Seq::empty());
        r
    }
}

impl NodesStore {
    /// The list out of a saved one, or an empty one where there is none that can
    /// be read.
    pub fn load(saved: Option<SavedNodes>) -> (r: NodesStore)
        ensures
            match saved {
                Some(s) => r@ == loaded(s),
                None => r@ == empty_store(),
            },
            r@.valid(),
    {
        match saved {
            Some(s) => {
                let ghost whole = s;
                let mut nodes: Vec<NodeInfo> = Vec::new();
                let mut i: usize = 0;
                while i < s.nodes.len()
                    invariant
                        i <= s.nodes.len(),
                        s == whole,
                        nodes.len() == i,
                        forall|j: int|
                            0 <= j < i ==> (#[trigger] nodes[j])@ == saved_nodes_view(s.nodes@)[j],
                    decreases s.nodes.len() - i,
                {
                    nodes.push(
                        NodeInfo {
                            name: s.nodes[i].name.clone(),
                            link: s.nodes[i].link.clone(),
                            latency: 0,
                        },
                    );
                    i = i + 1;
                }
                assert(nodes_view(nodes@) =~= saved_nodes_view(s.nodes@));
                let current: usize = if nodes.len() == 0 {
                    0
                } else if s.current >= nodes.len() {
                    nodes.len() - 1
                } else {
                    s.current
                };
                NodesStore {
                    nodes,
                    current,
                    use_tun: match s.use_tun {
                        Some(v) => v,
                        None => true,
                    },
                    route_mode: match s.route_mode {
                        Some(m) => m,
                        None => "rule".to_owned(),
                    },
                }
            },
            None => NodesStore::default(),
        }
    }

    /// The list as it is to be saved: an index that is out of bounds is saved as 0.
    pub fn save(&self) -> (r: SavedNodes)
        ensures
            is_saved_form(self@, r),
    {
        let mut nodes: Vec<SavedNode> = Vec::new();
        let mut i: usize = 0;
        while i < self.nodes.len()
            invariant
                i <= self.nodes.len(),
                nodes.len() == i,
                forall|j: int|
                    0 <= j < i ==> (#[trigger] nodes[j]).name@ == self.nodes[j].name@
                        && nodes[j].link@ == self.nodes[j].link@,
            decreases self.nodes.len() - i,
        {
            nodes.push(
                SavedNode { name: self.nodes[i].name.clone(), link: self.nodes[i].link.clone() },
            );
            i = i + 1;
        }
        assert(saved_nodes_view(nodes@) =~= self@.without_latencies().nodes);
        SavedNodes {
            nodes,
            current: if self.current < self.nodes.len() {
                self.current
            } else {
                0
            },
            use_tun: Some(self.use_tun),
            route_mode: Some(self.route_mode.clone()),
        }
    }

    /// Adds a node for a link and selects it. Its name is the one in the link, or
    /// else one made of its number and its server.
    pub fn add(&mut self, link: &str)
        requires
            old(self).nodes.len() < usize::MAX,
        ensures
            final(self)@ == old(self)@.added(link@),
            final(self)@.valid(),
    {
        let ghost before = self.nodes@;
        let name = extract_name(link, self.nodes.len() + 1);
        let node = NodeInfo { name, link: link.to_owned(), latency: 0 };
        self.nodes.push(node);
        assert(nodes_view(self.nodes@) =~= nodes_view(before).push(node@));
        self.current = self.nodes.len() - 1;
    }

    /// Whether the virtual network card is on.
    pub fn use_tun(&self) -> (r: bool)
        ensures
            r == self@.use_tun,
    {
        self.use_tun
    }

    /// Turns the virtual network card on or off.
    pub fn set_use_tun(&mut self, v: bool)
        ensures
            final(self)@ == (StoreView { use_tun: v, ..old(self)@ }),
    {
        self.use_tun = v;
    }

    /// Takes out the node at an index, if there is one.
    pub fn remove(&mut self, index: usize) -> (r: bool)
        ensures
            r == (index < old(self)@.nodes.len()),
            final(self)@ == (if r {
                old(self)@.removed(index as int)
            } else {
                old(self)@
            }),
            old(self)@.valid() ==> final(self)@.valid(),
    {
        if index >= self.nodes.len() {
            return false;
        }
        let ghost before = self.nodes@;
        let _ = self.nodes.remove(index);
        assert(nodes_view(self.nodes@) =~= nodes_view(before).remove(index as int));
        if self.nodes.len() > 0 && self.current >= self.nodes.len() {
            self.current = self.nodes.len() - 1;
        }
        true
    }

    /// Selects the node at an index, if there is one.
    pub fn set_current(&mut self, index: usize) -> (r: bool)
        ensures
            r == (index < old(self)@.nodes.len()),
            final(self)@ == (if r {
                StoreView { current: index as int, ..old(self)@ }
            } else {
                old(self)@
            }),
            r ==> final(self)@ == old(self)@.selecting(index as int),
    {
        if index >= self.nodes.len() {
            return false;
        }
        self.current = index;
        true
    }

    /// The selected node.
    pub fn current_node(&self) -> (r: Option<&NodeInfo>)
        ensures
            match r {
                Some(n) => self@.selected() == Some(n@),
                None => self@.selected() is None,
            },
    {
        if self.current < self.nodes.len() {
            Some(&self.nodes[self.current])
        } else {
            None
        }
    }

    /// The selected node, to be changed.
    pub fn current_node_mut(&mut self) -> (r: Option<&mut NodeInfo>)
        ensures
            match r {
                Some(n) => old(self)@.selected() == Some(n@) && final(self)@ == (StoreView {
                    nodes: old(self)@.nodes.update(old(self)@.current, final(n)@),
                    ..old(self)@
                }),
                None => old(self)@.selected() is None && final(self)@ == old(self)@,
            },
    {
        if self.current < self.nodes.len() {
            let i: usize = self.current;
            proof {
                let nodes = self.nodes@;
                assert forall|n: NodeInfo| #[trigger]
                    nodes_view(nodes.update(i as int, n)) == nodes_view(nodes).update(
                        i as int,
                        n@,
                    ) by {
                    assert(nodes_view(nodes.update(i as int, n)) =~= nodes_view(nodes).update(
                        i as int,
                        n@,
                    ));
                }
            }
            Some(&mut self.nodes[i])
        } else {
            None
        }
    }

    /// The route mode, `global` or `rule`.
    pub fn route_mode(&self) -> (r: &str)
        ensures
            r@ == mode_of(self@.route_mode),
    {
        if text::same_text(self.route_mode.as_str(), "global") {
            "global"
        } else {
            "rule"
        }
    }

    /// Sets the route mode; anything but `global` means `rule`.
    pub fn set_route_mode(&mut self, mode: &str)
        ensures
            final(self)@ == (StoreView { route_mode: mode_of(mode@), ..old(self)@ }),
    {
        self.route_mode = if text::same_text(mode, "global") {
            "global".to_owned()
        } else {
            "rule".to_owned()
        };
    }
}

// ---- Names of nodes ----

/// The value of a hexadecimal digit.
pub open spec fn hex_value(b: u8) -> Option<u8> {
    if 48 <= b <= 57 {
        Some((b - 48) as u8)
    } else if 65 <= b <= 70 {
        Some((b - 55) as u8)
    } else if 97 <= b <= 102 {
        Some((b - 87) as u8)
    } else {
        None
    }
}

/// The byte that the two characters of an escape stand for, if both are
/// hexadecimal digits.
pub open spec fn escaped_byte(a: u8, b: u8) -> Option<u8> {
    match (hex_value(a), hex_value(b)) {
        (Some(high), Some(low)) => Some((high * 16 + low) as u8),
        _ => None,
    }
}

/// Bytes with each escape `%XX` replaced by the byte that it stands for. What is
/// no complete escape stays.
pub open spec fn percent_decoded(bytes: Seq<u8>) -> Seq<u8>
    decreases bytes.len(),
{
    if bytes.len() == 0 {
        Seq::empty()
    } else if bytes[0] == 37 && bytes.len() > 2 && escaped_byte(bytes[1], bytes[2]) is Some {
        seq![escaped_byte(bytes[1], bytes[2])->0] + percent_decoded(bytes.skip(3))
    } else {
        seq![bytes[0]] + percent_decoded(bytes.skip(1))
    }
}

/// A text with its escapes replaced.
pub open spec fn url_decoded(s: Seq<char>) -> Seq<char> {
    codec::lossy_text(percent_decoded(encode_utf8(s)))
}

/// What stands after the last `#` of a link; nothing if it has none.
pub open spec fn fragment(link: Seq<char>) -> Seq<char> {
    if text::last_index(link, '#') >= 0 {
        link.skip(text::last_index(link, '#') + 1)
    } else {
        Seq::empty()
    }
}

/// A link without its scheme.
pub open spec fn link_body(link: Seq<char>) -> Seq<char> {
    text::without_prefixes(
        text::without_prefixes(text::without_prefixes(link, "vmess://"@), "vless://"@),
        "trojan://"@,
    )
}

/// The host that stands after the first `@`, up to a port, parameters or a name.
pub open spec fn host_after_at(body: Seq<char>) -> Seq<char> {
    let at = text::first_index(body, '@', 0);
    if at < body.len() {
        text::before(text::before(text::before(body.skip(at + 1), ':'), '?'), '#')
    } else {
        Seq::empty()
    }
}

/// A short form of the server of a link: its host, or else the first fifteen
/// characters of the link.
pub open spec fn server_hint(link: Seq<char>) -> Seq<char> {
    let body = link_body(link);
    let host = host_after_at(body);
    if host.len() > 0 {
        host
    } else if body.len() == 0 {
        "未知"@
    } else if body.len() <= 15 {
        body
    } else {
        body.take(15)
    }
}

/// The name of a node: the one in its link, or else one made of its number and
/// its server. `decoded` is the name in the link with its escapes replaced.
pub open spec fn name_of(
    decoded: Option<Seq<char>>,
    link: Seq<char>,
    auto_index: nat,
) -> Seq<char> {
    if decoded is Some && decoded->0.len() > 0 {
        decoded->0
    } else {
        "节点"@ + text::decimal(auto_index) + " ("@ + server_hint(link) + ")"@
    }
}

/// The name of a node.
pub open spec fn node_name(link: Seq<char>, auto_index: nat) -> Seq<char> {
    name_of(
        if text::last_index(link, '#') >= 0 {
            Some(url_decoded(fragment(link)))
        } else {
            None
        },
        link,
        auto_index,
    )
}

/// The value of a hexadecimal digit.
fn hex_digit(b: u8) -> (r: Option<u8>)
    ensures
        r == hex_value(b),
{
    if 48 <= b && b <= 57 {
        Some(b - 48)
    } else if 65 <= b && b <= 70 {
        Some(b - 55)
    } else if 97 <= b && b <= 102 {
        Some(b - 87)
    } else {
        None
    }
}

/// The byte that the two characters of an escape stand for.
fn escape(a: u8, b: u8) -> (r: Option<u8>)
    ensures
        r == escaped_byte(a, b),
{
    match (hex_digit(a), hex_digit(b)) {
        (Some(high), Some(low)) => Some(high * 16 + low),
        _ => None,
    }
}

/// Bytes with each escape replaced by the byte that it stands for.
pub fn percent_decode(bytes: &[u8]) -> (r: Vec<u8>)
    ensures
        r@ == percent_decoded(bytes@),
{
    let mut out: Vec<u8> = Vec::new();
    let mut i: usize = 0;
    assert(bytes@.skip(0) =~= bytes@);
    assert(out@ + percent_decoded(bytes@) =~= percent_decoded(bytes@));
    while i < bytes.len()
        invariant
            i <= bytes.len(),
            out@ + percent_decoded(bytes@.skip(i as int)) == percent_decoded(bytes@),
        decreases bytes.len() - i,
    {
        let ghost rest = bytes@.skip(i as int);
        let ghost done = out@;
        if bytes[i] == 37 && bytes.len() - i > 2 {
            match escape(bytes[i + 1], bytes[i + 2]) {
                Some(b) => {
                    proof {
                        assert(rest.skip(3) =~= bytes@.skip(i + 3));
                        assert(done.push(b) + percent_decoded(rest.skip(3)) =~= done + (seq![b]
                            + percent_decoded(rest.skip(3))));
                    }
                    out.push(b);
                    i = i + 3;
                    continue ;
                },
                None => {},
            }
        }
        proof {
            assert(rest.skip(1) =~= bytes@.skip(i + 1));
            assert(done.push(rest[0]) + percent_decoded(rest.skip(1)) =~= done + (seq![rest[0]]
                + percent_decoded(rest.skip(1))));
        }
        out.push(bytes[i]);
        i = i + 1;
    }
    assert(bytes@.skip(i as int) =~= Seq::empty());
    assert(out@ + percent_decoded(Seq::<u8>::empty()) =~= out@);
    out
}

/// A text with its escapes replaced, read as UTF-8.
pub fn url_decode(s: &str) -> (r: String)
    ensures
        r@ == url_decoded(s@),
        valid_utf8(percent_decoded(encode_utf8(s@))) ==> r@ == decode_utf8(
            percent_decoded(encode_utf8(s@)),
        ),
        !s@.contains('%') ==> r@ == s@,
        forall|name: Seq<char>| #[trigger] is_escaped(s@, name) ==> r@ == name,
        s@.len() > 0 ==> r@.len() > 0,
{
    let bytes = percent_decode(s.as_bytes());
    proof {
        broadcast use {encode_utf8_decode_utf8, encode_utf8_valid_utf8};

        if !s@.contains('%') {
            lemma_no_percent_byte(s@);
            lemma_nothing_escaped(encode_utf8(s@));
        }
        assert forall|name: Seq<char>| #[trigger] is_escaped(s@, name) implies percent_decoded(
            encode_utf8(s@),
        ) == encode_utf8(name) by {
            law_escapes_undone(s@, name);
        }
        if s@.len() > 0 {
            lemma_utf8_not_empty(s@);
        }
    }
    codec::from_utf8_lossy(&bytes)
}

/// A short form of the server of a link, for the name of a node.
pub fn extract_server_hint(link: &str) -> (r: String)
    ensures
        r@ == server_hint(link@),
{
    proof {
        reveal_strlit("vmess://");
        reveal_strlit("vless://");
        reveal_strlit("trojan://");
    }
    let a = text::strip_prefixes(link, "vmess://");
    let b = text::strip_prefixes(a.as_str(), "vless://");
    let body = text::strip_prefixes(b.as_str(), "trojan://");
    match text::find(body.as_str(), '@') {
        Some(at) => {
            let rest = text::skip(body.as_str(), at + 1);
            let x = text::until(rest.as_str(), ':');
            let y = text::until(x.as_str(), '?');
            let host = text::until(y.as_str(), '#');
            if !text::same_text(host.as_str(), "") {
                proof {
                    reveal_strlit("");
                    assert(host@.len() > 0) by {
                        if host@.len() == 0 {
                            assert(host@ =~= ""@);
                        }
                    }
                }
                return host;
            }
            proof {
                reveal_strlit("");
            }
        },
        None => {},
    }
    let chars = text::to_chars(body.as_str());
    if chars.len() == 0 {
        "未知".to_owned()
    } else if chars.len() <= 15 {
        body
    } else {
        assert(chars@.subrange(0, 15) =~= body@.take(15));
        text::from_chars(&chars, 0, 15)
    }
}

/// The name of a node, given the name in its link with the escapes replaced.
pub fn name_or_number(decoded: Option<String>, link: &str, auto_index: usize) -> (r: String)
    ensures
        r@ == name_of(
            match decoded {
                Some(d) => Some(d@),
                None => None,
            },
            link@,
            auto_index as nat,
        ),
{
    match decoded {
        Some(d) => {
            proof {
                reveal_strlit("");
            }
            if !text::same_text(d.as_str(), "") {
                assert(d@.len() > 0) by {
                    if d@.len() == 0 {
                        assert(d@ =~= ""@);
                    }
                }
                return d;
            }
        },
        None => {},
    }
    let mut name = "节点".to_owned();
    name.append(text::number_text(auto_index as u64).as_str());
    name.append(" (");
    name.append(extract_server_hint(link).as_str());
    name.append(")");
    name
}

/// The name of a node: the one in its link, or else one made of its number and
/// its server.
pub fn extract_name(link: &str, auto_index: usize) -> (r: String)
    ensures
        r@ == node_name(link@, auto_index as nat),
        fragment(link@).len() > 0 ==> r@ == url_decoded(fragment(link@)),
        fragment(link@).len() > 0 && !fragment(link@).contains('%') ==> r@ == fragment(link@),
        forall|name: Seq<char>|
            name.len() > 0 && #[trigger] is_escaped(fragment(link@), name) ==> r@ == name,
        r@.len() > 0,
{
    proof {
        law_no_empty_name(link@, auto_index as nat);
        assert forall|name: Seq<char>|
            name.len() > 0 && #[trigger] is_escaped(fragment(link@), name) implies fragment(
            link@,
        ).len() > 0 by {
            lemma_utf8_not_empty(name);
        }
    }
    match text::rfind(link, '#') {
        Some(i) => {
            let raw = text::skip(link, i + 1);
            let decoded = url_decode(raw.as_str());
            name_or_number(Some(decoded), link, auto_index)
        },
        None => name_or_number(None, link, auto_index),
    }
}

// ---- Laws ----

/// What was saved is what is loaded, but for the latencies.
pub proof fn law_saved_is_loaded(s: StoreView, saved: SavedNodes)
    requires
        s.valid(),
        is_saved_form(s, saved),
    ensures
        loaded(saved) == s.without_latencies(),
{
    assert(saved.nodes@.len() == saved_nodes_view(saved.nodes@).len());
}

/// Whatever is loaded, the selected node is one of the nodes.
pub proof fn law_loaded_is_valid(saved: SavedNodes)
    ensures
        loaded(saved).valid(),
        empty_store().valid(),
{
}

/// Adding a node selects it and leaves the others.
pub proof fn law_added_is_selected(s: StoreView, link: Seq<char>)
    ensures
        s.added(link).valid(),
        s.added(link).selected() matches Some(n) && n.link == link && n.name == node_name(
            link,
            s.nodes.len() + 1,
        ),
        s.added(link).nodes.drop_last() == s.nodes,
{
    assert(s.added(link).nodes.drop_last() =~= s.nodes);
}

/// Taking out a node that was just added gives back the nodes from before.
pub proof fn law_remove_undoes_add(s: StoreView, link: Seq<char>)
    ensures
        s.added(link).removed(s.nodes.len() as int).nodes == s.nodes,
{
    assert(s.added(link).removed(s.nodes.len() as int).nodes =~= s.nodes);
}

/// Taking out a node keeps the selected node among the nodes.
pub proof fn law_removed_is_valid(s: StoreView, index: int)
    requires
        s.valid(),
        0 <= index < s.nodes.len(),
    ensures
        s.removed(index).valid(),
        s.removed(index).nodes.len() == s.nodes.len() - 1,
        index > s.current ==> s.removed(index).selected() == s.selected(),
{
}

/// The route mode is always one of two, and setting it twice is setting it once.
pub proof fn law_two_modes(mode: Seq<char>)
    ensures
        mode_of(mode) == "global"@ || mode_of(mode) == "rule"@,
        mode_of(mode_of(mode)) == mode_of(mode),
{
}

/// No node has an empty name.
pub proof fn law_no_empty_name(link: Seq<char>, auto_index: nat)
    ensures
        node_name(link, auto_index).len() > 0,
{
    reveal_strlit(")");
}

/// A character is the hexadecimal digit of a number below sixteen, in either case.
pub open spec fn is_hex_char(c: char, n: u8) -> bool {
    if n < 10 {
        c == (48 + n) as char
    } else {
        c == (55 + n) as char || c == (87 + n) as char
    }
}

/// A text is made of the escapes of some bytes, one after the other.
pub open spec fn are_escapes(s: Seq<char>, bytes: Seq<u8>) -> bool
    decreases bytes.len(),
{
    if bytes.len() == 0 {
        s.len() == 0
    } else {
        &&& s.len() >= 3
        &&& s[0] == '%'
        &&& is_hex_char(s[1], (bytes[0] / 16) as u8)
        &&& is_hex_char(s[2], (bytes[0] % 16) as u8)
        &&& are_escapes(s.skip(3), bytes.skip(1))
    }
}

/// A text is another with each byte of its UTF-8 as an escape.
pub open spec fn is_escaped(s: Seq<char>, name: Seq<char>) -> bool {
    are_escapes(s, encode_utf8(name))
}

proof fn lemma_escapes(text: Seq<char>, bytes: Seq<u8>)
    requires
        are_escapes(text, bytes),
    ensures
        is_ascii_chars(text),
        percent_decoded(encode_utf8(text)) == bytes,
    decreases bytes.len(),
{
    if bytes.len() == 0 {
        assert(text =~= Seq::<char>::empty());
        assert(encode_utf8(text) =~= Seq::<u8>::empty());
        assert(percent_decoded(encode_utf8(text)) =~= bytes);
    } else {
        let (high, low) = ((bytes[0] / 16) as u8, (bytes[0] % 16) as u8);
        let rest = text.skip(3);
        lemma_escapes(rest, bytes.skip(1));
        assert forall|i: int| 0 <= i < text.len() implies '\0' <= #[trigger] text[i] <= '\u{7f}' by {
            if i >= 3 {
                assert(text[i] == rest[i - 3]);
            }
        }
        is_ascii_chars_encode_utf8(text);
        is_ascii_chars_encode_utf8(rest);
        let encoded = encode_utf8(text);
        assert(encoded.skip(3) =~= encode_utf8(rest)) by {
            assert forall|i: int| 0 <= i < rest.len() implies encoded.skip(3)[i] == encode_utf8(
                rest,
            )[i] by {
                assert(text[i + 3] == rest[i]);
                assert(text[i + 3] as u8 == encoded[i + 3]);
                assert(rest[i] as u8 == encode_utf8(rest)[i]);
            }
        }
        assert(text[0] as u8 == encoded[0]);
        assert(text[1] as u8 == encoded[1]);
        assert(text[2] as u8 == encoded[2]);
        assert(hex_value(encoded[1]) == Some(high));
        assert(hex_value(encoded[2]) == Some(low));
        assert(escaped_byte(encoded[1], encoded[2]) == Some(bytes[0]));
        assert(percent_decoded(encoded) =~= seq![bytes[0]] + bytes.skip(1));
        assert(percent_decoded(encoded) =~= bytes);
    }
}

/// Escapes are undone: of the escapes of any text, with digits in upper or in lower
/// case, reading them gives its UTF-8.
pub proof fn law_escapes_undone(s: Seq<char>, name: Seq<char>)
    requires
        is_escaped(s, name),
    ensures
        percent_decoded(encode_utf8(s)) == encode_utf8(name),
{
    lemma_escapes(s, encode_utf8(name));
}

/// A percent sign that no two hexadecimal digits follow stays.
pub proof fn law_other_percent_signs_kept(bytes: Seq<u8>)
    requires
        bytes.len() > 0,
        bytes[0] == 37,
        bytes.len() < 3 || hex_value(bytes[1]) is None || hex_value(bytes[2]) is None,
    ensures
        percent_decoded(bytes) == seq![bytes[0]] + percent_decoded(bytes.skip(1)),
{
}

/// The UTF-8 of a text that is not empty is not empty, nor is it once its escapes
/// are replaced.
proof fn lemma_utf8_not_empty(s: Seq<char>)
    requires
        s.len() > 0,
    ensures
        encode_utf8(s).len() > 0,
        percent_decoded(encode_utf8(s)).len() > 0,
{
    assert(encode_utf8(s) == encode_scalar(s[0] as u32) + encode_utf8(s.drop_first()));
}

/// Bytes without a percent sign stay as they are.
proof fn lemma_nothing_escaped(bytes: Seq<u8>)
    requires
        forall|i: int| 0 <= i < bytes.len() ==> #[trigger] bytes[i] != 37,
    ensures
        percent_decoded(bytes) == bytes,
    decreases bytes.len(),
{
    if bytes.len() > 0 {
        assert(bytes[0] != 37);
        assert forall|i: int| 0 <= i < bytes.skip(1).len() implies #[trigger] bytes.skip(1)[i]
            != 37 by {
            assert(bytes[i + 1] != 37);
        }
        lemma_nothing_escaped(bytes.skip(1));
    }
    assert(percent_decoded(bytes) =~= bytes);
}

/// The UTF-8 of a character other than a percent sign holds no byte of one.
proof fn lemma_scalar_bytes(c: char)
    requires
        c != '%',
    ensures
        forall|i: int|
            0 <= i < encode_scalar(c as u32).len() ==> #[trigger] encode_scalar(c as u32)[i] != 37,
{
    char_is_scalar(c);
    let u = c as u32;
    if has_width_1_encoding(u) {
        assert((u & 0x7F) as u8 != 37) by (bit_vector)
            requires
                u <= 0x7F,
                u != 37,
        ;
    } else {
        assert(0xC0u8 | ((u >> 6) & 0x1F) as u8 != 37) by (bit_vector);
        assert(0xE0u8 | ((u >> 12) & 0x0F) as u8 != 37) by (bit_vector);
        assert(0xF0u8 | ((u >> 18) & 0x7) as u8 != 37) by (bit_vector);
        assert(0x80u8 | (u & 0x3F) as u8 != 37) by (bit_vector);
        assert(0x80u8 | ((u >> 6) & 0x3F) as u8 != 37) by (bit_vector);
        assert(0x80u8 | ((u >> 12) & 0x3F) as u8 != 37) by (bit_vector);
    }
}

proof fn lemma_no_percent_byte(s: Seq<char>)
    requires
        !s.contains('%'),
    ensures
        forall|i: int| 0 <= i < encode_utf8(s).len() ==> #[trigger] encode_utf8(s)[i] != 37,
    decreases s.len(),
{
    if s.len() > 0 {
        let first = encode_scalar(s[0] as u32);
        let rest = s.drop_first();
        assert(s.contains(s[0]));
        assert(!rest.contains('%')) by {
            if rest.contains('%') {
                let i = choose|i: int| 0 <= i < rest.len() && rest[i] == '%';
                assert(s[i + 1] == '%');
            }
        }
        lemma_scalar_bytes(s[0]);
        lemma_no_percent_byte(rest);
        assert forall|i: int| 0 <= i < encode_utf8(s).len() implies #[trigger] encode_utf8(s)[i]
            != 37 by {
            if i < first.len() {
                assert(encode_utf8(s)[i] == first[i]);
            } else {
                assert(encode_utf8(s)[i] == encode_utf8(rest)[i - first.len()]);
            }
        }
    }
}

/// The name in a link is what stands after its last `#`: it is that of the node if it is
/// not empty, with its escapes replaced. A link without one gets a name of the node's
/// number and its server.
pub proof fn law_names_in_links(front: Seq<char>, name: Seq<char>, auto_index: nat)
    requires
        !name.contains('#'),
    ensures
        ({
            let link = front + seq!['#'] + name;
            &&& fragment(link) == name
            &&& url_decoded(name).len() > 0 ==> node_name(link, auto_index) == url_decoded(name)
            &&& url_decoded(name).len() == 0 ==> node_name(link, auto_index) == "节点"@
                + text::decimal(auto_index) + " ("@ + server_hint(link) + ")"@
        }),
        fragment(name).len() == 0,
        node_name(name, auto_index) == "节点"@ + text::decimal(auto_index) + " ("@ + server_hint(name)
            + ")"@,
{
    let link = front + seq!['#'] + name;
    text::law_last_index(link, '#');
    text::law_last_index(name, '#');
    assert(link[front.len() as int] == '#');
    let k = text::last_index(link, '#');
    assert(link.contains('#'));
    if k > front.len() {
        assert(name[k - front.len() - 1] == '#');
        assert(name.contains('#'));
    } else if k < front.len() {
        assert(link.skip(k + 1)[front.len() - k - 1] == '#');
        assert(link.skip(k + 1).contains('#'));
    }
    assert(link.skip(k + 1) =~= name);
}

/// A text begins with no scheme.
pub open spec fn has_no_scheme(s: Seq<char>) -> bool {
    &&& !text::has_prefix(s, "vmess://"@)
    &&& !text::has_prefix(s, "vless://"@)
    &&& !text::has_prefix(s, "trojan://"@)
}

/// A text is one of the three schemes of share links.
pub open spec fn is_scheme(s: Seq<char>) -> bool {
    s == "vmess://"@ || s == "vless://"@ || s == "trojan://"@
}

proof fn lemma_link_body(scheme: Seq<char>, body: Seq<char>)
    requires
        is_scheme(scheme),
        has_no_scheme(body),
    ensures
        link_body(scheme + body) == body,
        link_body(body) == body,
{
    reveal_strlit("vmess://");
    reveal_strlit("vless://");
    reveal_strlit("trojan://");
    let link = scheme + body;
    assert("vmess://"@[1] == 'm' && "vless://"@[1] == 'l' && "trojan://"@[1] == 'r');
    assert(link[1] == scheme[1]);
    text::law_prefixes_taken_off(body, "vmess://"@);
    text::law_prefixes_taken_off(body, "vless://"@);
    text::law_prefixes_taken_off(body, "trojan://"@);
    text::law_prefixes(link, "vmess://"@, body);
    text::law_prefixes(link, "vless://"@, body);
    text::law_prefixes(link, "trojan://"@, body);
    text::law_prefixes_taken_off(link, "vmess://"@);
    text::law_prefixes_taken_off(link, "vless://"@);
    text::law_prefixes_taken_off(link, "trojan://"@);
}

/// The short form of a server is the host of the link, which stands between the first
/// `@` and a port, parameters or a name, whichever comes first.
pub proof fn law_host_is_the_hint(
    scheme: Seq<char>,
    user: Seq<char>,
    host: Seq<char>,
    tail: Seq<char>,
)
    requires
        is_scheme(scheme),
        has_no_scheme(user + seq!['@'] + host + tail),
        !user.contains('@'),
        host.len() > 0,
        !host.contains(':') && !host.contains('?') && !host.contains('#'),
        tail.len() > 0 ==> tail[0] == ':' || tail[0] == '?' || tail[0] == '#',
    ensures
        server_hint(scheme + (user + seq!['@'] + host + tail)) == host,
{
    let body = user + seq!['@'] + host + tail;
    lemma_link_body(scheme, body);
    let none = Seq::<char>::empty();
    assert(body =~= user + seq!['@'] + (host + tail));
    text::lemma_before(user, '@', host + tail);
    let at = text::first_index(body, '@', 0);
    text::lemma_first_index_bounds(body, '@', 0);
    text::lemma_first_index_free(body, '@', 0);
    assert(at == user.len()) by {
        assert(text::before(body, '@') == user);
        assert(body.take(at).len() == at);
    }
    assert(body.skip(at + 1) =~= host + tail);
    let x = text::before(host + tail, ':');
    text::lemma_before_sum(host, tail, ':');
    let tail_x = text::before(tail, ':');
    text::lemma_first_index_bounds(tail, ':', 0);
    text::lemma_before_sum(host, tail_x, '?');
    let tail_y = text::before(tail_x, '?');
    text::lemma_first_index_bounds(tail_x, '?', 0);
    text::lemma_before_sum(host, tail_y, '#');
    let tail_z = text::before(tail_y, '#');
    text::lemma_first_index_bounds(tail_y, '#', 0);
    if tail.len() > 0 {
        if tail[0] == ':' {
            assert(tail_x.len() == 0);
        } else if tail[0] == '?' {
            if tail_x.len() > 0 {
                assert(tail_x[0] == '?');
            }
            assert(tail_y.len() == 0);
        } else if tail_y.len() > 0 {
            assert(tail_y[0] == '#');
        }
    }
    assert(tail_z =~= none);
    assert(host + tail_z =~= host);
}

/// Without a host the short form is the first fifteen characters of what follows the
/// scheme.
pub proof fn law_other_hints(scheme: Seq<char>, body: Seq<char>)
    requires
        is_scheme(scheme),
        has_no_scheme(body),
        !body.contains('@'),
    ensures
        body.len() == 0 ==> server_hint(scheme + body) == "未知"@,
        0 < body.len() <= 15 ==> server_hint(scheme + body) == body,
        body.len() > 15 ==> server_hint(scheme + body) == body.take(15),
{
    lemma_link_body(scheme, body);
    text::lemma_first_index_bounds(body, '@', 0);
    text::lemma_first_index_free(body, '@', 0);
    let at = text::first_index(body, '@', 0);
    if at < body.len() {
        assert(body.contains(body[at]));
    }
}

/// The hexadecimal digits are the ten digits and the first six letters, in either case.
pub proof fn law_hexadecimal(c: char, n: u8)
    requires
        c as u32 <= 127,
    ensures
        n < 16 ==> (hex_value(c as u8) == Some(n) <==> is_hex_char(c, n)),
        hex_value(c as u8) matches Some(v) ==> v < 16,
        n < 10 ==> is_hex_char((48 + n) as char, n),
        10 <= n < 16 ==> is_hex_char((65 + (n - 10)) as char, n) && is_hex_char(
            (97 + (n - 10)) as char,
            n,
        ),
{
}

/// A byte that is no percent sign stays, and an escape is one byte: sixteen times its
/// first digit and its second.
pub proof fn law_one_escape(bytes: Seq<u8>)
    requires
        bytes.len() > 0,
    ensures
        bytes[0] != 37 ==> percent_decoded(bytes) == seq![bytes[0]] + percent_decoded(
            bytes.skip(1),
        ),
        bytes.len() > 2 && bytes[0] == 37 && hex_value(bytes[1]) is Some && hex_value(bytes[2]) is Some
            ==> percent_decoded(bytes) == seq![
            (16 * hex_value(bytes[1])->0 + hex_value(bytes[2])->0) as u8,
        ] + percent_decoded(bytes.skip(3)),
        percent_decoded(Seq::empty()) == Seq::<u8>::empty(),
{
}

/// Selecting a node changes the index alone, and the node at it is the selected one.
pub proof fn law_selecting(s: StoreView, index: int)
    requires
        0 <= index < s.nodes.len(),
    ensures
        s.selecting(index).current == index,
        s.selecting(index).selected() == Some(s.nodes[index]),
        s.selecting(index).nodes == s.nodes,
        s.selecting(index).use_tun == s.use_tun,
        s.selecting(index).route_mode == s.route_mode,
{
}

/// A latency is noted at its node alone, whose name and link stay, and nothing else
/// changes.
pub proof fn law_noting(s: StoreView, index: int, latency: u64, other: int)
    requires
        0 <= index < s.nodes.len(),
        0 <= other < s.nodes.len(),
    ensures
        ({
            let n = s.noting(index, latency);
            &&& n.nodes.len() == s.nodes.len()
            &&& n.nodes[index].latency == latency
            &&& n.nodes[index].name == s.nodes[index].name
            &&& n.nodes[index].link == s.nodes[index].link
            &&& other != index ==> n.nodes[other] == s.nodes[other]
            &&& n.current == s.current
            &&& n.use_tun == s.use_tun
            &&& n.route_mode == s.route_mode
        }),
{
}

} // verus!
