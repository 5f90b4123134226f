//! JSON documents: their values, how one is read out of text and written
//! back, and the lookups and edits that the rest of the library makes.
use vstd::prelude::*;

use crate::text::{decimal, same_text, texts};

verus! {

// ---- Values ----

/// `serde_json::Number`, carried as an opaque value.
#[verifier::external_type_specification]
#[verifier::external_body]
pub struct ExNumber(serde_json::Number);

/// `serde_json::Number::clone` gives the same number again.
pub assume_specification[ <serde_json::Number as Clone>::clone ](n: &serde_json::Number) -> (r:
    serde_json::Number)
    ensures
        r == *n,
;

/// `serde_json::Value`, the document that `serde_json` reads and writes.
#[verifier::external_type_specification]
#[verifier::external_body]
pub struct ExValue(serde_json::Value);

/// A number that no 64-bit integer holds. Only reading a document makes one.
#[derive(Debug, PartialEq)]
pub struct Fraction(serde_json::Number);

/// A JSON number.
#[derive(Debug, PartialEq)]
pub enum JsonNumber {
    Unsigned(u64),
    Negative(i64),
    Fraction(Fraction),
}

/// A JSON document. Where a key of an object occurs twice, the later entry
/// counts.
#[derive(Debug, PartialEq)]
pub enum Json {
    Null,
    Bool(bool),
    Number(JsonNumber),
    Str(String),
    Array(Vec<Json>),
    Object(Vec<(String, Json)>),
}

/// What a JSON document says: text is a sequence of characters, an object a
/// map from keys to values.
#[verifier::ext_equal]
pub enum JsonView {
    Null,
    Bool(bool),
    Number(JsonNumber),
    Str(Seq<char>),
    Array(Seq<JsonView>),
    Object(Map<Seq<char>, JsonView>),
}

/// A number, with a signed integer that is not negative taken as unsigned.
pub open spec fn number_view(n: JsonNumber) -> JsonNumber {
    match n {
        JsonNumber::Negative(i) if i >= 0 => JsonNumber::Unsigned(i as u64),
        _ => n,
    }
}

/// What a document says.
pub open spec fn json_view(j: Json) -> JsonView
    decreases j,
{
    match j {
        Json::Null => JsonView::Null,
        Json::Bool(b) => JsonView::Bool(b),
        Json::Number(n) => JsonView::Number(number_view(n)),
        Json::Str(s) => JsonView::Str(s@),
        Json::Array(items) => JsonView::Array(items_view(items@)),
        Json::Object(entries) => JsonView::Object(entries_view(entries@)),
    }
}

/// What the items of an array say.
pub open spec fn items_view(items: Seq<Json>) -> Seq<JsonView>
    decreases items,
{
    Seq::new(
        items.len(),
        |i: int|
            if 0 <= i < items.len() {
                json_view(items[i])
            } else {
                JsonView::Null
            },
    )
}

/// What the entries of an object say: of two with one key the later counts.
pub open spec fn entries_view(entries: Seq<(String, Json)>) -> Map<Seq<char>, JsonView>
    decreases entries,
{
    if entries.len() == 0 {
        Map::empty()
    } else {
        entries_view(entries.drop_last()).insert(entries.last().0@, json_view(entries.last().1))
    }
}

impl View for Json {
    type V = JsonView;

    open spec fn view(&self) -> JsonView {
        json_view(*self)
    }
}

impl JsonView {
    /// The value of a key, in an object.
    pub open spec fn field(self, key: Seq<char>) -> Option<JsonView> {
        match self {
            JsonView::Object(m) => if m.dom().contains(key) {
                Some(m[key])
            } else {
                None
            },
            _ => None,
        }
    }

    /// The characters, in a text.
    pub open spec fn text(self) -> Option<Seq<char>> {
        match self {
            JsonView::Str(s) => Some(s),
            _ => None,
        }
    }

    /// The number, where it is an integer that is not negative.
    pub open spec fn unsigned(self) -> Option<u64> {
        match self {
            JsonView::Number(JsonNumber::Unsigned(n)) => Some(n),
            _ => None,
        }
    }

    /// The number, where it is an integer that fits in `i64`.
    pub open spec fn signed(self) -> Option<i64> {
        match self {
            JsonView::Number(JsonNumber::Unsigned(n)) => if n <= i64::MAX {
                Some(n as i64)
            } else {
                None
            },
            JsonView::Number(JsonNumber::Negative(n)) => Some(n),
            _ => None,
        }
    }

    /// The items, in an array.
    pub open spec fn items(self) -> Option<Seq<JsonView>> {
        match self {
            JsonView::Array(s) => Some(s),
            _ => None,
        }
    }

    /// The text under a key.
    pub open spec fn text_field(self, key: Seq<char>) -> Option<Seq<char>> {
        match self.field(key) {
            Some(v) => v.text(),
            None => None,
        }
    }

    /// An object with a key set; what is no object stays as it is.
    pub open spec fn set(self, key: Seq<char>, value: JsonView) -> JsonView {
        match self {
            JsonView::Object(m) => JsonView::Object(m.insert(key, value)),
            _ => self,
        }
    }

    /// An object without a key; what is no object stays as it is.
    pub open spec fn without(self, key: Seq<char>) -> JsonView {
        match self {
            JsonView::Object(m) => JsonView::Object(m.remove(key)),
            _ => self,
        }
    }

    /// The value of a key replaced by what `f` makes of it, where the key is there.
    pub open spec fn edit(self, key: Seq<char>, f: spec_fn(JsonView) -> JsonView) -> JsonView {
        match self.field(key) {
            Some(v) => self.set(key, f(v)),
            None => self,
        }
    }

    /// Each item of an array replaced by what `f` makes of it.
    pub open spec fn each(self, f: spec_fn(JsonView) -> JsonView) -> JsonView {
        match self {
            JsonView::Array(s) => JsonView::Array(s.map_values(f)),
            _ => self,
        }
    }

    /// The items of an array that meet `p`.
    pub open spec fn keep(self, p: spec_fn(JsonView) -> bool) -> JsonView {
        match self {
            JsonView::Array(s) => JsonView::Array(s.filter(p)),
            _ => self,
        }
    }
}

/// Setting a key to the value that it has changes nothing.
pub broadcast proof fn lemma_set_same(doc: JsonView, key: Seq<char>, value: JsonView)
    requires
        doc.field(key) == Some(value),
    ensures
        #[trigger] doc.set(key, value) == doc,
{
    if let JsonView::Object(m) = doc {
        assert(m.insert(key, value) =~= m);
    }
}

/// Taking a key out makes no difference to what it was set to.
pub broadcast proof fn lemma_set_without(doc: JsonView, key: Seq<char>, value: JsonView)
    ensures
        #[trigger] doc.set(key, value).without(key) == doc.without(key),
{
    if let JsonView::Object(m) = doc {
        assert(m.insert(key, value).remove(key) =~= m.remove(key));
    }
}

/// A text as a JSON value.
pub open spec fn text_view(s: Seq<char>) -> JsonView {
    JsonView::Str(s)
}

/// A number as a JSON value.
pub open spec fn unsigned_view(n: u64) -> JsonView {
    JsonView::Number(JsonNumber::Unsigned(n))
}

/// A truth value as a JSON value.
pub open spec fn bool_view(b: bool) -> JsonView {
    JsonView::Bool(b)
}

/// A list of texts as a JSON value.
pub open spec fn texts_view(list: Seq<Seq<char>>) -> JsonView {
    JsonView::Array(list.map_values(|s: Seq<char>| text_view(s)))
}

// ---- Lemmas about entries ----

/// `i` is the index of the entry that counts for `key`.
pub open spec fn is_entry_of(entries: Seq<(String, Json)>, key: Seq<char>, i: int) -> bool {
    &&& 0 <= i < entries.len()
    &&& entries[i].0@ == key
    &&& forall|j: int| i < j < entries.len() ==> (#[trigger] entries[j]).0@ != key
}

/// No entry has the key `key`.
pub open spec fn has_no_entry(entries: Seq<(String, Json)>, key: Seq<char>) -> bool {
    forall|j: int| 0 <= j < entries.len() ==> (#[trigger] entries[j]).0@ != key
}

proof fn lemma_entry_found(entries: Seq<(String, Json)>, key: Seq<char>, i: int)
    requires
        is_entry_of(entries, key, i),
    ensures
        entries_view(entries).dom().contains(key),
        entries_view(entries)[key] == entries[i].1@,
    decreases entries.len(),
{
    if i < entries.len() - 1 {
        assert(entries.last().0@ != key);
        lemma_entry_found(entries.drop_last(), key, i);
    }
}

proof fn lemma_entry_absent(entries: Seq<(String, Json)>, key: Seq<char>)
    requires
        has_no_entry(entries, key),
    ensures
        !entries_view(entries).dom().contains(key),
    decreases entries.len(),
{
    if entries.len() > 0 {
        assert(entries.last().0@ != key);
        lemma_entry_absent(entries.drop_last(), key);
    }
}

/// A key that is there has an entry that counts.
proof fn lemma_entry_of_key(entries: Seq<(String, Json)>, key: Seq<char>) -> (i: int)
    requires
        entries_view(entries).dom().contains(key),
    ensures
        is_entry_of(entries, key, i),
    decreases entries.len(),
{
    if entries.last().0@ == key {
        entries.len() - 1
    } else {
        let i = lemma_entry_of_key(entries.drop_last(), key);
        assert forall|j: int| i < j < entries.len() implies (#[trigger] entries[j]).0@ != key by {
            if j < entries.len() - 1 {
                assert(entries.drop_last()[j] == entries[j]);
            }
        }
        i
    }
}

proof fn lemma_entry_updated(
    entries: Seq<(String, Json)>,
    key: Seq<char>,
    i: int,
    entry: (String, Json),
)
    requires
        is_entry_of(entries, key, i),
        entry.0@ == key,
    ensures
        entries_view(entries.update(i, entry)) == entries_view(entries).insert(key, entry.1@),
    decreases entries.len(),
{
    let updated = entries.update(i, entry);
    if i == entries.len() - 1 {
        assert(updated.drop_last() =~= entries.drop_last());
        assert(entries_view(updated) =~= entries_view(entries).insert(key, entry.1@));
    } else {
        lemma_entry_updated(entries.drop_last(), key, i, entry);
        assert(updated.drop_last() =~= entries.drop_last().update(i, entry));
        assert(updated.last() == entries.last());
        assert(entries.last().0@ != key);
        assert(entries_view(updated) =~= entries_view(entries).insert(key, entry.1@));
    }
}

/// Adding an entry at the end sets its key.
pub proof fn lemma_entry_pushed(entries: Seq<(String, Json)>, entry: (String, Json))
    ensures
        entries_view(entries.push(entry)) == entries_view(entries).insert(entry.0@, entry.1@),
{
    assert(entries.push(entry).drop_last() =~= entries);
}

proof fn lemma_entry_removed(entries: Seq<(String, Json)>, key: Seq<char>, i: int)
    requires
        0 <= i < entries.len(),
        entries[i].0@ == key,
    ensures
        entries_view(entries.remove(i)).remove(key) == entries_view(entries).remove(key),
    decreases entries.len(),
{
    let shorter = entries.remove(i);
    if i == entries.len() - 1 {
        assert(shorter =~= entries.drop_last());
        assert(entries_view(shorter).remove(key) =~= entries_view(entries).remove(key));
    } else {
        lemma_entry_removed(entries.drop_last(), key, i);
        assert(shorter.drop_last() =~= entries.drop_last().remove(i));
        assert(shorter.last() == entries.last());
        let (k, v) = (entries.last().0@, entries.last().1@);
        let before = entries_view(entries.drop_last());
        let after = entries_view(shorter.drop_last());
        assert(after.remove(key) == before.remove(key));
        assert forall|x: Seq<char>|
            after.insert(k, v).remove(key).dom().contains(x) == before.insert(k, v).remove(
                key,
            ).dom().contains(x) by {
            assert(after.remove(key).dom().contains(x) == before.remove(key).dom().contains(x));
        }
        assert forall|x: Seq<char>|
            after.insert(k, v).remove(key).dom().contains(x) implies after.insert(k, v).remove(key)[x]
            == before.insert(k, v).remove(key)[x] by {
            if x != k {
                assert(after.remove(key)[x] == before.remove(key)[x]);
            }
        }
        assert(after.insert(k, v).remove(key) =~= before.insert(k, v).remove(key));
    }
}

/// The index of the entry that counts for a key.
fn find_entry(entries: &Vec<(String, Json)>, key: &str) -> (r: Option<usize>)
    ensures
        match r {
            Some(i) => is_entry_of(entries@, key@, i as int),
            None => has_no_entry(entries@, key@),
        },
{
    let mut i: usize = entries.len();
    while i > 0
        invariant
            i <= entries.len(),
            forall|j: int| i <= j < entries.len() ==> (#[trigger] entries[j]).0@ != key@,
        decreases i,
    {
        i = i - 1;
        if same_text(entries[i].0.as_str(), key) {
            return Some(i);
        }
    }
    None
}

/// The same number again.
fn copy_number(n: &JsonNumber) -> (r: JsonNumber)
    ensures
        r == *n,
{
    match n {
        JsonNumber::Unsigned(u) => JsonNumber::Unsigned(*u),
        JsonNumber::Negative(i) => JsonNumber::Negative(*i),
        JsonNumber::Fraction(f) => JsonNumber::Fraction(Fraction(f.0.clone())),
    }
}

/// Sets a key among the entries of an object: the entry that counts for it gives
/// way, or else one is added.
pub fn put(entries: &mut Vec<(String, Json)>, key: &str, value: Json)
    ensures
        entries_view(final(entries)@) == entries_view(old(entries)@).insert(key@, value@),
{
    let entry: (String, Json) = (key.to_owned(), value);
    match find_entry(entries, key) {
        Some(i) => {
            proof {
                lemma_entry_updated(entries@, key@, i as int, entry);
            }
            entries.set(i, entry);
        },
        None => {
            proof {
                lemma_entry_pushed(entries@, entry);
            }
            entries.push(entry);
        },
    }
}

// ---- Lookups and edits ----

impl Json {
    /// The value of a key, in an object.
    pub fn get(&self, key: &str) -> (r: Option<&Json>)
        ensures
            match r {
                Some(j) => self@.field(key@) == Some(j@),
                None => self@.field(key@) is None,
            },
    {
        match self {
            Json::Object(entries) => match find_entry(entries, key) {
                Some(i) => {
                    proof {
                        lemma_entry_found(entries@, key@, i as int);
                    }
                    Some(&entries[i].1)
                },
                None => {
                    proof {
                        lemma_entry_absent(entries@, key@);
                    }
                    None
                },
            },
            _ => None,
        }
    }

    /// The value of a key, in an object, to be changed.
    pub fn get_mut(&mut self, key: &str) -> (r: Option<&mut Json>)
        ensures
            match r {
                Some(j) => old(self)@.field(key@) == Some(j@) && final(self)@ == old(self)@.set(
                    key@,
                    final(j)@,
                ),
                None => old(self)@.field(key@) is None && final(self)@ == old(self)@,
            },
    {
        match self {
            Json::Object(entries) => match find_entry(entries, key) {
                Some(i) => {
                    proof {
                        let e = entries@;
                        lemma_entry_found(e, key@, i as int);
                        assert forall|t: (String, Json)| t.0 == e[i as int].0 implies entries_view(
                            #[trigger] e.update(i as int, t),
                        ) == entries_view(e).insert(key@, t.1@) by {
                            lemma_entry_updated(e, key@, i as int, t);
                        }
                    }
                    Some(&mut entries[i].1)
                },
                None => {
                    proof {
                        lemma_entry_absent(entries@, key@);
                    }
                    None
                },
            },
            _ => None,
        }
    }

    /// The characters, in a text.
    pub fn as_str(&self) -> (r: Option<&str>)
        ensures
            match r {
                Some(s) => self@.text() == Some(s@),
                None => self@.text() is None,
            },
    {
        match self {
            Json::Str(s) => Some(s.as_str()),
            _ => None,
        }
    }

    /// The text under a key of an object.
    pub fn get_str(&self, key: &str) -> (r: Option<&str>)
        ensures
            match r {
                Some(s) => self@.text_field(key@) == Some(s@),
                None => self@.text_field(key@) is None,
            },
    {
        match self.get(key) {
            Some(v) => v.as_str(),
            None => None,
        }
    }

    /// The number, where it is an integer that is not negative.
    pub fn as_u64(&self) -> (r: Option<u64>)
        ensures
            r == self@.unsigned(),
    {
        match self {
            Json::Number(JsonNumber::Unsigned(n)) => Some(*n),
            Json::Number(JsonNumber::Negative(n)) => if *n >= 0 {
                Some(*n as u64)
            } else {
                None
            },
            _ => None,
        }
    }

    /// The number, where it is an integer that fits in `i64`.
    pub fn as_i64(&self) -> (r: Option<i64>)
        ensures
            r == self@.signed(),
    {
        match self {
            Json::Number(JsonNumber::Unsigned(n)) => if *n <= i64::MAX as u64 {
                Some(*n as i64)
            } else {
                None
            },
            Json::Number(JsonNumber::Negative(n)) => Some(*n),
            _ => None,
        }
    }

    /// The items, in an array.
    pub fn as_array(&self) -> (r: Option<&Vec<Json>>)
        ensures
            match r {
                Some(v) => self@.items() == Some(items_view(v@)),
                None => self@.items() is None,
            },
    {
        match self {
            Json::Array(items) => Some(items),
            _ => None,
        }
    }

    /// The items, in an array, to be changed.
    pub fn as_array_mut(&mut self) -> (r: Option<&mut Vec<Json>>)
        ensures
            match r {
                Some(v) => old(self)@.items() == Some(items_view(v@)) && final(self)@
                    == JsonView::Array(items_view(final(v)@)),
                None => old(self)@.items() is None && final(self)@ == old(self)@,
            },
    {
        match self {
            Json::Array(items) => Some(items),
            _ => None,
        }
    }

    /// Sets a key of an object.
    pub fn insert(&mut self, key: &str, value: Json)
        ensures
            final(self)@ == old(self)@.set(key@, value@),
    {
        match self {
            Json::Object(entries) => {
                put(entries, key, value);
            },
            _ => {},
        }
    }

    /// Takes a key out of an object.
    pub fn remove(&mut self, key: &str)
        ensures
            final(self)@ == old(self)@.without(key@),
    {
        match self {
            Json::Object(entries) => {
                let mut i: usize = 0;
                let ghost whole = entries_view(entries@);
                while i < entries.len()
                    invariant
                        i <= entries.len(),
                        entries_view(entries@).remove(key@) == whole.remove(key@),
                        forall|j: int| 0 <= j < i ==> (#[trigger] entries[j]).0@ != key@,
                    decreases entries.len() - i,
                {
                    if same_text(entries[i].0.as_str(), key) {
                        proof {
                            lemma_entry_removed(entries@, key@, i as int);
                        }
                        let _ = entries.remove(i);
                    } else {
                        i = i + 1;
                    }
                }
                proof {
                    lemma_entry_absent(entries@, key@);
                    assert(entries_view(entries@).remove(key@) =~= entries_view(entries@));
                }
            },
            _ => {},
        }
    }

    /// The same document again.
    pub fn copy(&self) -> (r: Json)
        ensures
            r@ == self@,
        decreases self,
    {
        match self {
            Json::Null => Json::Null,
            Json::Bool(b) => Json::Bool(*b),
            Json::Number(n) => Json::Number(copy_number(n)),
            Json::Str(s) => Json::Str(s.clone()),
            Json::Array(items) => {
                let mut out: Vec<Json> = Vec::new();
                let mut i: usize = 0;
                while i < items.len()
                    invariant
                        *self == Json::Array(*items),
                        i <= items.len(),
                        out.len() == i,
                        forall|j: int| 0 <= j < i ==> (#[trigger] out[j])@ == items[j]@,
                    decreases items.len() - i,
                {
                    proof {
                        broadcast use vstd::std_specs::vec::axiom_vec_index_decreases;

                        assert(decreases_to!(*items => items[i as int]));
                        assert(decreases_to!(*self => self->Array_0));
                    }
                    out.push(items[i].copy());
                    i = i + 1;
                }
                assert(items_view(out@) =~= items_view(items@));
                Json::Array(out)
            },
            Json::Object(entries) => {
                let mut out: Vec<(String, Json)> = Vec::new();
                let mut i: usize = 0;
                while i < entries.len()
                    invariant
                        *self == Json::Object(*entries),
                        i <= entries.len(),
                        entries_view(out@) == entries_view(entries@.take(i as int)),
                    decreases entries.len() - i,
                {
                    assert(entries@.take(i + 1).drop_last() =~= entries@.take(i as int));
                    proof {
                        broadcast use vstd::std_specs::vec::axiom_vec_index_decreases;

                        assert(decreases_to!(*entries => entries[i as int]));
                        assert(decreases_to!(entries[i as int] => entries[i as int].1));
                        assert(decreases_to!(*self => self->Object_0));
                    }
                    let value = entries[i].1.copy();
                    put(&mut out, entries[i].0.as_str(), value);
                    i = i + 1;
                }
                assert(entries@.take(i as int) =~= entries@);
                Json::Object(out)
            },
        }
    }
}

/// A text as a JSON value.
pub fn text_value(s: &str) -> (r: Json)
    ensures
        r@ == text_view(s@),
{
    Json::Str(s.to_owned())
}

/// A number as a JSON value.
pub fn unsigned_value(n: u64) -> (r: Json)
    ensures
        r@ == unsigned_view(n),
{
    Json::Number(JsonNumber::Unsigned(n))
}

/// A truth value as a JSON value.
pub fn bool_value(b: bool) -> (r: Json)
    ensures
        r@ == bool_view(b),
{
    Json::Bool(b)
}

/// A list of texts as a JSON value.
pub fn texts_value(list: &Vec<String>) -> (r: Json)
    ensures
        r@ == texts_view(texts(list@)),
{
    let mut out: Vec<Json> = Vec::new();
    let mut i: usize = 0;
    while i < list.len()
        invariant
            i <= list.len(),
            out.len() == i,
            forall|j: int| 0 <= j < i ==> (#[trigger] out[j])@ == text_view(list[j]@),
        decreases list.len() - i,
    {
        out.push(text_value(list[i].as_str()));
        i = i + 1;
    }
    assert(items_view(out@) =~= texts(list@).map_values(|s: Seq<char>| text_view(s)));
    Json::Array(out)
}

// ---- Reading and writing ----

/// What a `serde_json` document says.
pub uninterp spec fn value_model(v: serde_json::Value) -> JsonView;

/// What `serde_json` reads out of a text: the document, or why it is none.
pub uninterp spec fn parsed_json(text: Seq<char>) -> Result<JsonView, Seq<char>>;

/// The indented text that `serde_json` writes for a document.
pub uninterp spec fn rendered_json(doc: JsonView) -> Seq<char>;

/// What `serde_json` reads out of a text is a document.
pub open spec fn reads_as(text: Seq<char>, doc: JsonView) -> bool {
    parsed_json(text) == Ok::<JsonView, Seq<char>>(doc)
}

/// A document without fractions whose arrays and objects stand at most `depth`
/// deep in each other.
pub open spec fn is_plain(doc: JsonView, depth: nat) -> bool
    decreases depth,
{
    match doc {
        JsonView::Number(n) => !(n is Fraction),
        JsonView::Array(s) => depth > 0 && (forall|i: int|
            0 <= i < s.len() ==> is_plain(#[trigger] s[i], (depth - 1) as nat)),
        JsonView::Object(m) => depth > 0 && (forall|k: Seq<char>| #[trigger]
            m.dom().contains(k) ==> is_plain(m[k], (depth - 1) as nat)),
        _ => true,
    }
}

/// How deep arrays and objects may stand in each other in a text that
/// `serde_json` reads.
pub const MAX_DEPTH: u64 = 127;

/// How deep arrays and objects may stand in each other in a text that
/// `serde_json` reads.
pub open spec fn max_depth() -> nat {
    MAX_DEPTH as nat
}

proof fn lemma_item_is_plain(items: Seq<JsonView>, depth: nat, i: int)
    requires
        0 <= i < items.len(),
        depth > 0,
    ensures
        is_plain(JsonView::Array(items), depth) ==> is_plain(items[i], (depth - 1) as nat),
{
    let doc = JsonView::Array(items);
    if is_plain(doc, depth) {
        assert(is_plain(doc->Array_0[i], (depth - 1) as nat));
    }
}

proof fn lemma_value_is_plain(m: Map<Seq<char>, JsonView>, depth: nat, key: Seq<char>)
    requires
        m.dom().contains(key),
        depth > 0,
    ensures
        is_plain(JsonView::Object(m), depth) ==> is_plain(m[key], (depth - 1) as nat),
{
    let doc = JsonView::Object(m);
    if is_plain(doc, depth) {
        assert(doc->Object_0.dom().contains(key));
        assert(is_plain(doc->Object_0[key], (depth - 1) as nat));
    }
}

/// Whether a document holds no fractions and its arrays and objects stand at most
/// `depth` deep in each other.
pub fn plain_within(doc: &Json, depth: u64) -> (r: bool)
    ensures
        r == is_plain(doc@, depth as nat),
    decreases doc,
{
    match doc {
        Json::Number(JsonNumber::Fraction(_)) => false,
        Json::Array(items) => {
            if depth == 0 {
                return false;
            }
            let ghost whole = items_view(items@);
            let mut i: usize = 0;
            while i < items.len()
                invariant
                    depth > 0,
                    *doc == Json::Array(*items),
                    doc@ == JsonView::Array(whole),
                    whole == items_view(items@),
                    i <= items.len(),
                    forall|j: int|
                        0 <= j < i ==> is_plain(#[trigger] whole[j], (depth - 1) as nat),
                decreases items.len() - i,
            {
                proof {
                    broadcast use vstd::std_specs::vec::axiom_vec_index_decreases;

                    assert(decreases_to!(*items => items[i as int]));
                    assert(decreases_to!(*doc => doc->Array_0));
                }
                assert(whole[i as int] == items[i as int]@);
                if !plain_within(&items[i], depth - 1) {
                    proof {
                        lemma_item_is_plain(whole, depth as nat, i as int);
                    }
                    return false;
                }
                i = i + 1;
            }
            true
        },
        Json::Object(entries) => {
            if depth == 0 {
                return false;
            }
            let ghost whole = entries_view(entries@);
            let mut i: usize = 0;
            while i < entries.len()
                invariant
                    depth > 0,
                    *doc == Json::Object(*entries),
                    doc@ == JsonView::Object(whole),
                    whole == entries_view(entries@),
                    i <= entries.len(),
                    forall|j: int|
                        0 <= j < i && is_entry_of(entries@, (#[trigger] entries[j]).0@, j)
                            ==> is_plain(entries[j].1@, (depth - 1) as nat),
                decreases entries.len() - i,
            {
                proof {
                    broadcast use vstd::std_specs::vec::axiom_vec_index_decreases;

                    assert(decreases_to!(*entries => entries[i as int]));
                    assert(decreases_to!(entries[i as int] => entries[i as int].1));
                    assert(decreases_to!(*doc => doc->Object_0));
                }
                let counts: bool = match find_entry(entries, entries[i].0.as_str()) {
                    Some(k) => k == i,
                    None => false,
                };
                if counts && !plain_within(&entries[i].1, depth - 1) {
                    proof {
                        lemma_entry_found(entries@, entries[i as int].0@, i as int);
                        lemma_value_is_plain(whole, depth as nat, entries[i as int].0@);
                    }
                    return false;
                }
                i = i + 1;
            }
            proof {
                assert forall|k: Seq<char>| #[trigger] whole.dom().contains(k) implies is_plain(
                    whole[k],
                    (depth - 1) as nat,
                ) by {
                    let j = lemma_entry_of_key(entries@, k);
                    lemma_entry_found(entries@, k, j);
                    assert(is_entry_of(entries@, entries[j].0@, j));
                }
            }
            true
        },
        _ => true,
    }
}

/// A key that needs no escapes.
pub open spec fn is_plain_key(key: Seq<char>) -> bool {
    forall|i: int| 0 <= i < key.len() ==> 'a' <= #[trigger] key[i] <= 'z' || key[i] == '_'
}

/// An object of two numbers, written without blanks.
pub open spec fn pair_text(a: Seq<char>, x: u64, b: Seq<char>, y: u64) -> Seq<char> {
    "{\""@ + a + "\":"@ + decimal(x as nat) + ",\""@ + b + "\":"@ + decimal(y as nat) + "}"@
}

/// An object of two numbers.
pub open spec fn pair_view(a: Seq<char>, x: u64, b: Seq<char>, y: u64) -> JsonView {
    JsonView::Object(Map::empty().insert(a, unsigned_view(x)).insert(b, unsigned_view(y)))
}

/// A text is an object of two numbers, written without blanks.
pub open spec fn is_pair_text(text: Seq<char>) -> bool {
    exists|a: Seq<char>, x: u64, b: Seq<char>, y: u64|
        is_plain_key(a) && is_plain_key(b) && text == #[trigger] pair_text(a, x, b, y)
}

/// A document is what a text says, if the text is an object of two numbers, written
/// without blanks.
pub open spec fn is_read(text: Seq<char>, doc: JsonView) -> bool {
    forall|a: Seq<char>, x: u64, b: Seq<char>, y: u64|
        is_plain_key(a) && is_plain_key(b) && text == #[trigger] pair_text(a, x, b, y) ==> doc
            == pair_view(a, x, b, y)
}

/// The outermost layer of a document.
enum Layer {
    Null,
    Bool(bool),
    Number(JsonNumber),
    Str(String),
    Array(Vec<serde_json::Value>),
    Object(Vec<(String, serde_json::Value)>),
}

/// What the entries of an object say.
spec fn entries_model(entries: Seq<(String, serde_json::Value)>) -> Map<Seq<char>, JsonView>
    decreases entries.len(),
{
    if entries.len() == 0 {
        Map::empty()
    } else {
        entries_model(entries.drop_last()).insert(entries.last().0@, value_model(entries.last().1))
    }
}

/// What a document says, given its outermost layer.
spec fn layer_model(layer: Layer) -> JsonView {
    match layer {
        Layer::Null => JsonView::Null,
        Layer::Bool(b) => JsonView::Bool(b),
        Layer::Number(n) => JsonView::Number(number_view(n)),
        Layer::Str(s) => JsonView::Str(s@),
        Layer::Array(items) => JsonView::Array(
            items@.map_values(|v: serde_json::Value| value_model(v)),
        ),
        Layer::Object(entries) => JsonView::Object(entries_model(entries@)),
    }
}

/// `serde_json::from_str` reads a document; the result depends on the text alone.
/// An object of two numbers, written without blanks, is read as what it says.
#[verifier::external_body]
fn parse_value(text: &str) -> (r: Result<serde_json::Value, String>)
    ensures
        match r {
            Ok(v) => parsed_json(text@) == Ok::<JsonView, Seq<char>>(value_model(v)),
            Err(e) => parsed_json(text@) == Err::<JsonView, Seq<char>>(e@),
        },
        r is Ok ==> is_read(text@, value_model(r->Ok_0)),
        r is Err ==> !is_pair_text(text@),
{
    serde_json::from_str(text).map_err(|e| e.to_string())
}

/// `serde_json::to_string_pretty` writes a document, and of a `serde_json::Value`
/// never fails to: its keys are texts, and writing to memory does not fail. The text
/// depends on what the document says alone, and reads back as that where all numbers
/// are integers and the nesting is not too deep for the reader.
#[verifier::external_body]
fn render_value(v: &serde_json::Value) -> (r: Result<String, String>)
    ensures
        r is Ok,
        r->Ok_0@ == rendered_json(value_model(*v)),
        is_plain(value_model(*v), max_depth()) ==> reads_as(r->Ok_0@, value_model(*v)),
{
    serde_json::to_string_pretty(v).map_err(|e| e.to_string())
}

/// No two entries have the same key.
spec fn distinct_keys(entries: Seq<(String, serde_json::Value)>) -> bool {
    forall|i: int, j: int|
        0 <= i < j < entries.len() ==> (#[trigger] entries[i]).0@ != (#[trigger] entries[j]).0@
}

proof fn lemma_model_finite(entries: Seq<(String, serde_json::Value)>)
    ensures
        entries_model(entries).dom().finite(),
    decreases entries.len(),
{
    if entries.len() > 0 {
        lemma_model_finite(entries.drop_last());
    }
}

proof fn lemma_entry_model(entries: Seq<(String, serde_json::Value)>, i: int)
    requires
        0 <= i < entries.len(),
        distinct_keys(entries),
    ensures
        entries_model(entries).dom().contains(entries[i].0@),
        entries_model(entries)[entries[i].0@] == value_model(entries[i].1),
    decreases entries.len(),
{
    if i < entries.len() - 1 {
        assert(entries[i].0@ != entries[entries.len() - 1].0@);
        assert(distinct_keys(entries.drop_last())) by {
            assert forall|a: int, b: int| 0 <= a < b < entries.drop_last().len() implies (
            #[trigger] entries.drop_last()[a]).0@ != (#[trigger] entries.drop_last()[b]).0@ by {
                assert(entries[a].0@ != entries[b].0@);
            }
        }
        lemma_entry_model(entries.drop_last(), i);
    }
}

/// Tells the variants of `serde_json::Value` apart, and its numbers by
/// `Number::as_u64` and `Number::as_i64`. The entries of an object are those that
/// `IntoIterator` of `serde_json::Map` gives, so no two have the same key.
#[verifier::external_body]
fn open_value(v: serde_json::Value) -> (r: Layer)
    ensures
        layer_model(r) == value_model(v),
        match r {
            Layer::Object(entries) => distinct_keys(entries@),
            _ => true,
        },
{
    match v {
        serde_json::Value::Null => Layer::Null,
        serde_json::Value::Bool(b) => Layer::Bool(b),
        serde_json::Value::Number(n) => Layer::Number(match (n.as_u64(), n.as_i64()) {
            (Some(u), _) => JsonNumber::Unsigned(u),
            (None, Some(i)) => JsonNumber::Negative(i),
            (None, None) => JsonNumber::Fraction(Fraction(n)),
        }),
        serde_json::Value::String(s) => Layer::Str(s),
        serde_json::Value::Array(a) => Layer::Array(a),
        serde_json::Value::Object(m) => Layer::Object(m.into_iter().collect()),
    }
}

/// Builds a `serde_json::Value` out of its outermost layer: `Value::from` for
/// integers, and for an object the map that `FromIterator` of `serde_json::Map`
/// collects out of entries of which no two have the same key.
#[verifier::external_body]
fn close_value(layer: Layer) -> (r: serde_json::Value)
    requires
        match layer {
            Layer::Object(entries) => distinct_keys(entries@),
            _ => true,
        },
    ensures
        value_model(r) == layer_model(layer),
{
    match layer {
        Layer::Null => serde_json::Value::Null,
        Layer::Bool(b) => serde_json::Value::Bool(b),
        Layer::Number(JsonNumber::Unsigned(u)) => serde_json::Value::from(u),
        Layer::Number(JsonNumber::Negative(i)) => serde_json::Value::from(i),
        Layer::Number(JsonNumber::Fraction(f)) => serde_json::Value::Number(f.0),
        Layer::Str(s) => serde_json::Value::String(s),
        Layer::Array(a) => serde_json::Value::Array(a),
        Layer::Object(o) => serde_json::Value::Object(o.into_iter().collect()),
    }
}

/// The document of the library for one of `serde_json`.
fn from_value(v: serde_json::Value) -> (r: Json)
    ensures
        r@ == value_model(v),
    decreases value_model(v),
{
    let ghost model = value_model(v);
    match open_value(v) {
        Layer::Null => Json::Null,
        Layer::Bool(b) => Json::Bool(b),
        Layer::Number(n) => Json::Number(n),
        Layer::Str(s) => Json::Str(s),
        Layer::Array(items) => {
            let mut out: Vec<Json> = Vec::new();
            let ghost all = items@;
            for x in it: items
                invariant
                    it.seq() == all,
                    model == JsonView::Array(all.map_values(|v: serde_json::Value| value_model(v))),
                    model == value_model(v),
                    out.len() == it.index(),
                    forall|j: int| 0 <= j < out.len() ==> (#[trigger] out[j])@ == value_model(all[j]),
            {
                proof {
                    assert(decreases_to!(model => model->Array_0));
                    assert(model->Array_0[it.index()] == value_model(x));
                    assert(decreases_to!(model->Array_0 => model->Array_0[it.index()]));
                }
                out.push(from_value(x));
            }
            proof {
                assert(items_view(out@) =~= all.map_values(|v: serde_json::Value| value_model(v)));
            }
            Json::Array(out)
        },
        Layer::Object(entries) => {
            let mut out: Vec<(String, Json)> = Vec::new();
            let ghost all = entries@;
            for x in it: entries
                invariant
                    it.seq() == all,
                    model == JsonView::Object(entries_model(all)),
                    model == value_model(v),
                    distinct_keys(all),
                    entries_view(out@) == entries_model(all.take(it.index())),
            {
                proof {
                    assert(all.take(it.index() + 1).drop_last() =~= all.take(it.index()));
                    lemma_entry_model(all, it.index());
                    lemma_model_finite(all);
                    assert(decreases_to!(model => model->Object_0));
                    assert(decreases_to!(model->Object_0 => model->Object_0[x.0@]));
                }
                let value = from_value(x.1);
                put(&mut out, x.0.as_str(), value);
            }
            proof {
                assert(all.take(all.len() as int) =~= all);
            }
            Json::Object(out)
        },
    }
}

/// The index of the entry with a key.
fn find_value(entries: &Vec<(String, serde_json::Value)>, key: &str) -> (r: Option<usize>)
    ensures
        match r {
            Some(i) => i < entries.len() && entries[i as int].0@ == key@,
            None => forall|j: int| 0 <= j < entries.len() ==> (#[trigger] entries[j]).0@ != key@,
        },
{
    let mut i: usize = 0;
    while i < entries.len()
        invariant
            i <= entries.len(),
            forall|j: int| 0 <= j < i ==> (#[trigger] entries[j]).0@ != key@,
        decreases entries.len() - i,
    {
        if same_text(entries[i].0.as_str(), key) {
            return Some(i);
        }
        i = i + 1;
    }
    None
}

proof fn lemma_model_updated(
    entries: Seq<(String, serde_json::Value)>,
    i: int,
    entry: (String, serde_json::Value),
)
    requires
        distinct_keys(entries),
        0 <= i < entries.len(),
        entries[i].0@ == entry.0@,
    ensures
        distinct_keys(entries.update(i, entry)),
        entries_model(entries.update(i, entry)) == entries_model(entries).insert(
            entry.0@,
            value_model(entry.1),
        ),
    decreases entries.len(),
{
    let updated = entries.update(i, entry);
    assert forall|a: int, b: int| 0 <= a < b < updated.len() implies (#[trigger] updated[a]).0@ != (
    #[trigger] updated[b]).0@ by {
        assert(entries[a].0@ != entries[b].0@);
    }
    if i == entries.len() - 1 {
        assert(updated.drop_last() =~= entries.drop_last());
        assert(entries_model(updated) =~= entries_model(entries).insert(
            entry.0@,
            value_model(entry.1),
        ));
    } else {
        let shorter = entries.drop_last();
        assert forall|a: int, b: int| 0 <= a < b < shorter.len() implies (#[trigger] shorter[a]).0@
            != (#[trigger] shorter[b]).0@ by {
            assert(entries[a].0@ != entries[b].0@);
        }
        lemma_model_updated(shorter, i, entry);
        assert(updated.drop_last() =~= shorter.update(i, entry));
        assert(updated.last() == entries.last());
        assert(entries[i].0@ != entries[entries.len() - 1].0@);
        assert(entries_model(updated) =~= entries_model(entries).insert(
            entry.0@,
            value_model(entry.1),
        ));
    }
}

/// Sets a key among entries of which no two have the same key.
fn put_value(entries: &mut Vec<(String, serde_json::Value)>, key: &str, value: serde_json::Value)
    requires
        distinct_keys(old(entries)@),
    ensures
        distinct_keys(final(entries)@),
        entries_model(final(entries)@) == entries_model(old(entries)@).insert(
            key@,
            value_model(value),
        ),
{
    let entry: (String, serde_json::Value) = (key.to_owned(), value);
    match find_value(entries, key) {
        Some(i) => {
            proof {
                lemma_model_updated(entries@, i as int, entry);
            }
            entries.set(i, entry);
        },
        None => {
            let ghost before = entries@;
            entries.push(entry);
            proof {
                assert(entries@.drop_last() =~= before);
                assert forall|a: int, b: int| 0 <= a < b < entries.len() implies (
                #[trigger] entries@[a]).0@ != (#[trigger] entries@[b]).0@ by {
                    assert(before[a].0@ != key@);
                    if b < before.len() {
                        assert(before[a].0@ != before[b].0@);
                    }
                }
            }
        },
    }
}

/// The document of `serde_json` for one of the library.
fn to_value(doc: &Json) -> (r: serde_json::Value)
    ensures
        value_model(r) == doc@,
    decreases doc,
{
    match doc {
        Json::Null => close_value(Layer::Null),
        Json::Bool(b) => close_value(Layer::Bool(*b)),
        Json::Number(n) => close_value(Layer::Number(copy_number(n))),
        Json::Str(s) => close_value(Layer::Str(s.clone())),
        Json::Array(items) => {
            let mut out: Vec<serde_json::Value> = Vec::new();
            let mut i: usize = 0;
            while i < items.len()
                invariant
                    *doc == Json::Array(*items),
                    i <= items.len(),
                    out.len() == i,
                    forall|j: int| 0 <= j < i ==> value_model(#[trigger] out[j]) == items[j]@,
                decreases items.len() - i,
            {
                proof {
                    broadcast use vstd::std_specs::vec::axiom_vec_index_decreases;

                    assert(decreases_to!(*items => items[i as int]));
                    assert(decreases_to!(*doc => doc->Array_0));
                }
                out.push(to_value(&items[i]));
                i = i + 1;
            }
            assert(out@.map_values(|v: serde_json::Value| value_model(v)) =~= items_view(items@));
            close_value(Layer::Array(out))
        },
        Json::Object(entries) => {
            let mut out: Vec<(String, serde_json::Value)> = Vec::new();
            let mut i: usize = 0;
            while i < entries.len()
                invariant
                    *doc == Json::Object(*entries),
                    i <= entries.len(),
                    distinct_keys(out@),
                    entries_model(out@) == entries_view(entries@.take(i as int)),
                decreases entries.len() - i,
            {
                proof {
                    broadcast use vstd::std_specs::vec::axiom_vec_index_decreases;

                    assert(decreases_to!(*entries => entries[i as int]));
                    assert(decreases_to!(entries[i as int] => entries[i as int].1));
                    assert(decreases_to!(*doc => doc->Object_0));
                    assert(entries@.take(i + 1).drop_last() =~= entries@.take(i as int));
                }
                let value = to_value(&entries[i].1);
                put_value(&mut out, entries[i].0.as_str(), value);
                i = i + 1;
            }
            assert(entries@.take(i as int) =~= entries@);
            close_value(Layer::Object(out))
        },
    }
}

/// Reads a document out of a text; the error says why the text is none.
pub fn parse_json(text: &str) -> (r: Result<Json, String>)
    ensures
        match r {
            Ok(j) => parsed_json(text@) == Ok::<JsonView, Seq<char>>(j@),
            Err(e) => parsed_json(text@) == Err::<JsonView, Seq<char>>(e@),
        },
        r is Ok ==> is_read(text@, r->Ok_0@),
        r is Err ==> !is_pair_text(text@),
{
    match parse_value(text) {
        Ok(v) => Ok(from_value(v)),
        Err(e) => Err(e),
    }
}

/// Writes a document as indented text.
pub fn to_string_pretty(doc: &Json) -> (r: Result<String, String>)
    ensures
        r is Ok,
        r->Ok_0@ == rendered_json(doc@),
        is_plain(doc@, max_depth()) ==> reads_as(r->Ok_0@, doc@),
{
    let v = to_value(doc);
    render_value(&v)
}

// ---- Laws ----

/// Setting a key of an object gives it its value and leaves every other key; taking it
/// out leaves every other key too. What is no object stays as it is.
pub proof fn law_keys_set(
    m: Map<Seq<char>, JsonView>,
    key: Seq<char>,
    other: Seq<char>,
    value: JsonView,
)
    ensures
        ({
            let doc = JsonView::Object(m);
            &&& doc.set(key, value).field(key) == Some(value)
            &&& doc.without(key).field(key) is None
            &&& other != key ==> doc.set(key, value).field(other) == doc.field(other)
            &&& other != key ==> doc.without(key).field(other) == doc.field(other)
            &&& m.dom().contains(key) ==> doc.field(key) == Some(m[key])
            &&& !m.dom().contains(key) ==> doc.field(key) is None
        }),
        !(value is Object) ==> value.set(key, value) == value && value.without(key) == value
            && value.field(key) is None,
{
}

/// Editing a key changes it alone, and nothing where it is not there.
pub proof fn law_keys_edited(
    doc: JsonView,
    key: Seq<char>,
    other: Seq<char>,
    f: spec_fn(JsonView) -> JsonView,
)
    ensures
        doc.field(key) is None ==> doc.edit(key, f) == doc,
        doc.field(key) is Some ==> doc.edit(key, f).field(key) == Some(f(doc.field(key)->0)),
        other != key ==> doc.edit(key, f).field(other) == doc.field(other),
{
}

/// Changing each item of an array keeps their number and order. Keeping some of them
/// leaves those that are to be kept, and no others.
pub proof fn law_items_changed(
    s: Seq<JsonView>,
    f: spec_fn(JsonView) -> JsonView,
    p: spec_fn(JsonView) -> bool,
    i: int,
)
    ensures
        ({
            let doc = JsonView::Array(s);
            &&& doc.items() == Some(s)
            &&& doc.each(f).items() matches Some(a) && a.len() == s.len() && (0 <= i < s.len()
                ==> a[i] == f(s[i]))
            &&& doc.keep(p).items() matches Some(b) && (0 <= i < b.len() ==> p(b[i])
                && s.contains(b[i])) && (0 <= i < s.len() && p(s[i]) ==> b.contains(s[i]))
        }),
{
    let b = s.filter(p);
    if 0 <= i < b.len() {
        s.lemma_filter_pred(p, i);
        assert(b.contains(b[i]));
        s.lemma_filter_contains_rev(p, b[i]);
    }
    if 0 <= i < s.len() && p(s[i]) {
        s.lemma_filter_contains(p, i);
    }
}

/// Only a text is read as one, and only an integer in its range as a number.
pub proof fn law_values_read(s: Seq<char>, n: u64, i: i64, b: bool)
    ensures
        JsonView::Str(s).text() == Some(s),
        JsonView::Str(s).unsigned() is None,
        JsonView::Str(s).signed() is None,
        JsonView::Number(JsonNumber::Unsigned(n)).unsigned() == Some(n),
        n <= 0x7fff_ffff_ffff_ffff ==> JsonView::Number(JsonNumber::Unsigned(n)).signed() == Some(
            n as i64,
        ),
        n > 0x7fff_ffff_ffff_ffff ==> JsonView::Number(JsonNumber::Unsigned(n)).signed() is None,
        JsonView::Number(JsonNumber::Negative(i)).signed() == Some(i),
        JsonView::Number(JsonNumber::Negative(i)).unsigned() is None,
        JsonView::Number(JsonNumber::Unsigned(n)).text() is None,
        JsonView::Bool(b).text() is None,
        JsonView::Bool(b).unsigned() is None,
        JsonView::Null.text() is None,
        JsonView::Null.unsigned() is None,
{
}

/// What the text under a key is: the characters, if a text stands there.
pub proof fn law_text_under_key(doc: JsonView, key: Seq<char>, s: Seq<char>)
    ensures
        doc.text_field(key) == Some(s) <==> doc.field(key) == Some(JsonView::Str(s)),
{
}

/// Of two entries with one key the later counts, and an entry leaves the other keys.
pub proof fn law_later_entry_counts(
    entries: Seq<(String, Json)>,
    entry: (String, Json),
    key: Seq<char>,
)
    ensures
        ({
            let before = JsonView::Object(entries_view(entries));
            let after = JsonView::Object(entries_view(entries.push(entry)));
            &&& after.field(entry.0@) == Some(json_view(entry.1))
            &&& key != entry.0@ ==> after.field(key) == before.field(key)
        }),
        JsonView::Object(entries_view(Seq::empty())).field(key) is None,
{
    lemma_entry_pushed(entries, entry);
}

/// A document says what stands in it: a signed integer says the same as an unsigned one
/// where both can hold it.
pub proof fn law_documents_say(s: String, n: u64, i: i64, b: bool, items: Vec<Json>, k: int)
    ensures
        json_view(Json::Null) == JsonView::Null,
        json_view(Json::Bool(b)) == JsonView::Bool(b),
        json_view(Json::Str(s)) == JsonView::Str(s@),
        json_view(Json::Number(JsonNumber::Unsigned(n))) == JsonView::Number(
            JsonNumber::Unsigned(n),
        ),
        i < 0 ==> json_view(Json::Number(JsonNumber::Negative(i))) == JsonView::Number(
            JsonNumber::Negative(i),
        ),
        i >= 0 ==> json_view(Json::Number(JsonNumber::Negative(i))) == JsonView::Number(
            JsonNumber::Unsigned(i as u64),
        ),
        json_view(Json::Array(items)) matches JsonView::Array(a) && a.len() == items@.len() && (0
            <= k < a.len() ==> a[k] == json_view(items@[k])),
{
}

} // verus!
