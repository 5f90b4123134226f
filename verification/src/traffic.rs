//! The traffic totals, which are kept from run to run.
use vstd::prelude::*;

use crate::json::{is_plain_key, pair_text, parse_json, Json, JsonView};
use crate::ports::document_in;
use crate::singbox::{AppState, AppView};
use crate::text::{decimal, number_text, opt_view, owned_view};

verus! {

/// A number under a key of a document, 0 where there is none.
pub open spec fn number_or_zero(doc: JsonView, key: Seq<char>) -> u64 {
    match doc.field(key) {
        Some(v) => match v.unsigned() {
            Some(n) => n,
            None => 0,
        },
        None => 0,
    }
}

/// The totals that a document holds, sent and received.
pub open spec fn totals_in(doc: Option<JsonView>) -> (u64, u64) {
    match doc {
        Some(d) => (number_or_zero(d, "up_total"@), number_or_zero(d, "down_total"@)),
        None => (0, 0),
    }
}

/// The file that keeps totals.
pub open spec fn traffic_text(up: u64, down: u64) -> Seq<char> {
    pair_text("up_total"@, up, "down_total"@, down)
}

/// The file that is to be written for the next run, if the totals changed.
pub open spec fn to_flush(s: AppView) -> Option<Seq<char>> {
    if s.traffic_dirty {
        Some(traffic_text(s.status.up_total, s.status.down_total))
    } else {
        None
    }
}

/// A number under a key of a document, 0 where there is none.
pub fn get_number(doc: &Json, key: &str) -> (r: u64)
    ensures
        r == number_or_zero(doc@, key@),
{
    match doc.get(key) {
        Some(v) => v.as_u64().unwrap_or(0),
        None => 0,
    }
}

/// The totals that a document holds, sent and received.
pub fn read_totals(doc: &Json) -> (r: (u64, u64))
    ensures
        r == totals_in(Some(doc@)),
{
    (get_number(doc, "up_total"), get_number(doc, "down_total"))
}

/// The totals that the file of the last run holds; none where there is no such
/// file or it cannot be read. What was saved is read back.
pub fn load_traffic_file(file: Option<&str>) -> (r: (u64, u64))
    ensures
        r == totals_in(document_in(opt_view(file))),
        forall|up: u64, down: u64|
            opt_view(file) == Some(#[trigger] traffic_text(up, down)) ==> r == (up, down),
{
    proof {
        reveal_strlit("up_total");
        reveal_strlit("down_total");
        assert("up_total"@.len() == 8 && "down_total"@.len() == 10);
        assert(is_plain_key("up_total"@));
        assert(is_plain_key("down_total"@));
    }
    match file {
        Some(t) => match parse_json(t) {
            Ok(doc) => read_totals(&doc),
            Err(_) => (0, 0),
        },
        None => (0, 0),
    }
}

impl AppState {
    /// Notes that the totals changed.
    pub fn mark_traffic_dirty(&mut self)
        ensures
            final(self)@ == (AppView { traffic_dirty: true, ..old(self)@ }),
    {
        self.traffic_dirty = true;
    }

    /// The file to be written for the next run, if the totals changed since the last
    /// was.
    pub fn flush_traffic_if_dirty(&mut self) -> (r: Option<String>)
        ensures
            final(self)@ == (AppView { traffic_dirty: false, ..old(self)@ }),
            match r {
                Some(t) => old(self)@.traffic_dirty && t@ == traffic_text(
                    old(self)@.status.up_total,
                    old(self)@.status.down_total,
                ),
                None => !old(self)@.traffic_dirty,
            },
            owned_view(r) == to_flush(old(self)@),
    {
        if !self.traffic_dirty {
            return None;
        }
        self.traffic_dirty = false;
        let mut text = "{\"".to_owned();
        text.append("up_total");
        text.append("\":");
        text.append(number_text(self.status.up_total).as_str());
        text.append(",\"");
        text.append("down_total");
        text.append("\":");
        text.append(number_text(self.status.down_total).as_str());
        text.append("}");
        Some(text)
    }
}

// ---- Laws ----

/// The file names what was sent and what was received, each under its own key. It is
/// written if and only if they changed since the last was.
pub proof fn law_totals_saved(s: AppView)
    ensures
        s.traffic_dirty <==> to_flush(s) is Some,
        s.traffic_dirty ==> to_flush(s) == Some(
            "{\""@ + "up_total"@ + "\":"@ + decimal(s.status.up_total as nat) + ",\""@
                + "down_total"@ + "\":"@ + decimal(s.status.down_total as nat) + "}"@,
        ),
{
}

} // verus!
