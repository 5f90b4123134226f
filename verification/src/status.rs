//! Asking sing-box's control interface for traffic and connections. Its replies go
//! on for as long as the connection does, so the first JSON object is taken out of
//! what has arrived so far.
use vstd::prelude::*;

use crate::codec::{from_utf8_lossy, lossy_text};
use crate::json::{parse_json, parsed_json, Json, JsonNumber, JsonView};
use crate::text::{decimal, number_text};
use crate::traffic::{get_number, number_or_zero};

verus! {

/// The size of a reply in bytes above which no object is looked for any more.
pub const MAX_REPLY: usize = 2_000_000;

// ---- Requests ----

/// The request for a path.
pub open spec fn request_view(path: Seq<char>, api_port: u16) -> Seq<char> {
    "GET "@ + path + " HTTP/1.1\r\nHost: 127.0.0.1:"@ + decimal(api_port as nat)
        + "\r\nAccept: */*\r\nConnection: close\r\n\r\n"@
}

/// The request for a path.
pub fn request_text(path: &str, api_port: u16) -> (r: String)
    ensures
        r@ == request_view(path@, api_port),
{
    let mut text = "GET ".to_owned();
    text.append(path);
    text.append(" HTTP/1.1\r\nHost: 127.0.0.1:");
    text.append(number_text(api_port as u64).as_str());
    text.append("\r\nAccept: */*\r\nConnection: close\r\n\r\n");
    text
}

// ---- The first object of a reply ----

/// A blank line ends a header at an index.
pub open spec fn is_header_end(buf: Seq<u8>, i: int) -> bool {
    &&& 0 <= i
    &&& i + 4 <= buf.len()
    &&& buf[i] == 13
    &&& buf[i + 1] == 10
    &&& buf[i + 2] == 13
    &&& buf[i + 3] == 10
}

/// The first index at or after `from` at which a blank line ends a header; -1 if
/// there is none.
pub open spec fn header_end(buf: Seq<u8>, from: int) -> int
    decreases buf.len() - from,
{
    if from < 0 || from >= buf.len() {
        -1
    } else if is_header_end(buf, from) {
        from
    } else {
        header_end(buf, from + 1)
    }
}

/// Where the body of a reply starts: after its header, or at once if no header has
/// ended.
pub open spec fn body_start(buf: Seq<u8>) -> int {
    if header_end(buf, 0) >= 0 {
        header_end(buf, 0) + 4
    } else {
        0
    }
}

/// The first index at or after `from` at which an opening brace stands; -1 if there
/// is none.
pub open spec fn brace_at(buf: Seq<u8>, from: int) -> int
    decreases buf.len() - from,
{
    if from < 0 || from >= buf.len() {
        -1
    } else if buf[from] == 123 {
        from
    } else {
        brace_at(buf, from + 1)
    }
}

/// Where an object ends that is read from index `i` on, `depth` braces deep, within
/// a text or not, after a backslash or not; -1 if it does not end.
pub open spec fn object_end(buf: Seq<u8>, i: int, depth: int, in_text: bool, escaped: bool) -> int
    decreases buf.len() - i,
{
    if i < 0 || i >= buf.len() {
        -1
    } else if in_text {
        if escaped {
            object_end(buf, i + 1, depth, true, false)
        } else if buf[i] == 92 {
            object_end(buf, i + 1, depth, true, true)
        } else {
            object_end(buf, i + 1, depth, buf[i] != 34, false)
        }
    } else if buf[i] == 34 {
        object_end(buf, i + 1, depth, true, false)
    } else if buf[i] == 123 {
        object_end(buf, i + 1, depth + 1, false, false)
    } else if buf[i] == 125 {
        if depth == 1 {
            i + 1
        } else {
            object_end(buf, i + 1, depth - 1, false, false)
        }
    } else {
        object_end(buf, i + 1, depth, false, false)
    }
}

/// The first object of a reply, from an index up to another.
pub open spec fn object_in(buf: Seq<u8>) -> Option<(int, int)> {
    let start = brace_at(buf, body_start(buf));
    if start < 0 || object_end(buf, start, 0, false, false) < 0 {
        None
    } else {
        Some((start, object_end(buf, start, 0, false, false)))
    }
}

/// The document that bytes hold, read as UTF-8.
pub open spec fn document_of(bytes: Seq<u8>) -> Option<JsonView> {
    match parsed_json(lossy_text(bytes)) {
        Ok(doc) => Some(doc),
        Err(_) => None,
    }
}

/// The first document of a reply.
pub open spec fn first_document(buf: Seq<u8>) -> Option<JsonView> {
    match object_in(buf) {
        Some((from, to)) => document_of(buf.subrange(from, to)),
        None => None,
    }
}

/// Where the body of a reply starts.
fn find_body(buf: &Vec<u8>) -> (r: usize)
    ensures
        r == body_start(buf@),
        r <= buf.len(),
{
    let mut i: usize = 0;
    while i < buf.len()
        invariant
            i <= buf.len(),
            header_end(buf@, 0) == header_end(buf@, i as int),
        decreases buf.len() - i,
    {
        if buf.len() - i >= 4 && buf[i] == 13 && buf[i + 1] == 10 && buf[i + 2] == 13 && buf[i + 3]
            == 10 {
            return i + 4;
        }
        i = i + 1;
    }
    0
}

/// The first index at or after `from` at which an opening brace stands.
fn find_brace(buf: &Vec<u8>, from: usize) -> (r: Option<usize>)
    ensures
        match r {
            Some(i) => brace_at(buf@, from as int) == i && i < buf.len() && buf[i as int] == 123,
            None => brace_at(buf@, from as int) == -1,
        },
{
    let mut i: usize = from;
    while i < buf.len()
        invariant
            from <= i,
            brace_at(buf@, from as int) == brace_at(buf@, i as int),
        decreases buf.len() - i,
    {
        if buf[i] == 123 {
            return Some(i);
        }
        i = i + 1;
    }
    None
}

/// Finds the first object of a reply: where it starts and where it ends.
pub fn find_object(buf: &Vec<u8>) -> (r: Option<(usize, usize)>)
    ensures
        match r {
            Some((from, to)) => object_in(buf@) == Some((from as int, to as int)) && from < to
                && to <= buf.len(),
            None => object_in(buf@) is None,
        },
{
    let start: usize = match find_brace(buf, find_body(buf)) {
        Some(i) => i,
        None => {
            return None;
        },
    };
    let mut i: usize = start;
    let mut depth: usize = 0;
    let mut in_text: bool = false;
    let mut escaped: bool = false;
    while i < buf.len()
        invariant
            start <= i <= buf.len(),
            start < buf.len(),
            buf[start as int] == 123,
            start == brace_at(buf@, body_start(buf@)),
            depth <= i - start,
            i == start ==> depth == 0 && !in_text,
            i > start ==> depth > 0,
            !in_text ==> !escaped,
            object_end(buf@, start as int, 0, false, false) == object_end(
                buf@,
                i as int,
                depth as int,
                in_text,
                escaped,
            ),
        decreases buf.len() - i,
    {
        let b: u8 = buf[i];
        if in_text {
            if escaped {
                escaped = false;
            } else if b == 92 {
                escaped = true;
            } else if b == 34 {
                in_text = false;
            }
        } else if b == 34 {
            in_text = true;
        } else if b == 123 {
            depth = depth + 1;
        } else if b == 125 {
            if depth == 1 {
                return Some((start, i + 1));
            }
            depth = depth - 1;
        }
        i = i + 1;
    }
    None
}

/// The bytes from an index up to another.
fn slice_of(buf: &Vec<u8>, from: usize, to: usize) -> (r: Vec<u8>)
    requires
        from <= to <= buf.len(),
    ensures
        r@ == buf@.subrange(from as int, to as int),
{
    let mut out: Vec<u8> = Vec::new();
    let mut i: usize = from;
    while i < to
        invariant
            from <= i <= to <= buf.len(),
            out@ == buf@.subrange(from as int, i as int),
        decreases to - i,
    {
        out.push(buf[i]);
        i = i + 1;
    }
    out
}

/// The document that bytes hold, read as UTF-8.
pub fn read_bytes(bytes: &Vec<u8>) -> (r: Option<Json>)
    ensures
        match r {
            Some(doc) => document_of(bytes@) == Some(doc@),
            None => document_of(bytes@) is None,
        },
{
    let text = from_utf8_lossy(bytes);
    match parse_json(text.as_str()) {
        Ok(doc) => Some(doc),
        Err(_) => None,
    }
}

/// The first document of a reply.
pub fn first_json(buf: &Vec<u8>) -> (r: Option<Json>)
    ensures
        match r {
            Some(doc) => first_document(buf@) == Some(doc@),
            None => first_document(buf@) is None,
        },
{
    match find_object(buf) {
        Some((from, to)) => {
            let bytes = slice_of(buf, from, to);
            read_bytes(&bytes)
        },
        None => None,
    }
}

/// How reading a reply goes on.
#[derive(Debug, PartialEq)]
pub enum Progress {
    /// The first document has arrived.
    Found(Json),
    /// More has to arrive.
    More,
    /// Too much has arrived without one.
    GiveUp,
}

/// The document that reading a reply gives: what arrived so far is `buf`, and each of
/// `reads` is taken in by `absorb` for as long as more has to arrive. There is none if
/// the reads end before.
pub open spec fn reading(buf: Seq<u8>, reads: Seq<Seq<u8>>) -> Option<JsonView>
    decreases reads.len(),
{
    if reads.len() == 0 {
        None
    } else {
        let more = buf + reads[0];
        if first_document(more) is Some {
            first_document(more)
        } else if more.len() > MAX_REPLY {
            None
        } else {
            reading(more, reads.skip(1))
        }
    }
}

/// All that some reads brought.
pub open spec fn all_read(reads: Seq<Seq<u8>>) -> Seq<u8>
    decreases reads.len(),
{
    if reads.len() == 0 {
        Seq::empty()
    } else {
        reads[0] + all_read(reads.skip(1))
    }
}

/// Takes in what arrived of a reply, and tells how to go on.
pub fn absorb(buf: &mut Vec<u8>, chunk: &[u8]) -> (r: Progress)
    requires
        old(buf).len() + chunk@.len() <= usize::MAX,
    ensures
        final(buf)@ == old(buf)@ + chunk@,
        match r {
            Progress::Found(doc) => first_document(final(buf)@) == Some(doc@),
            Progress::More => first_document(final(buf)@) is None && final(buf)@.len() <= MAX_REPLY,
            Progress::GiveUp => first_document(final(buf)@) is None && final(buf)@.len()
                > MAX_REPLY,
        },
{
    let ghost before = buf@;
    let mut i: usize = 0;
    while i < chunk.len()
        invariant
            i <= chunk.len(),
            buf@ == before + chunk@.take(i as int),
        decreases chunk.len() - i,
    {
        buf.push(chunk[i]);
        i = i + 1;
        assert(buf@ =~= before + chunk@.take(i as int));
    }
    assert(chunk@.take(i as int) =~= chunk@);
    match first_json(buf) {
        Some(doc) => Progress::Found(doc),
        None => if buf.len() > MAX_REPLY {
            Progress::GiveUp
        } else {
            Progress::More
        },
    }
}

// ---- What replies say ----

/// The speeds that a reply names, sent and received, in bytes per second.
pub open spec fn speeds_in(reply: JsonView) -> (u64, u64) {
    (number_or_zero(reply, "up"@), number_or_zero(reply, "down"@))
}

/// How many items stand under a key.
pub open spec fn count_in(reply: JsonView, key: Seq<char>) -> nat {
    match reply.field(key) {
        Some(JsonView::Array(items)) => items.len(),
        _ => 0,
    }
}

/// The totals that a reply names, sent and received, in bytes, and how many
/// connections it lists.
pub open spec fn totals_and_count(reply: JsonView) -> (u64, u64, nat) {
    (
        number_or_zero(reply, "uploadTotal"@),
        number_or_zero(reply, "downloadTotal"@),
        count_in(reply, "connections"@),
    )
}

/// `reply` is what `get` gave for a path.
pub open spec fn is_reply<F: FnOnce(&str) -> Option<Json>>(
    get: F,
    path: Seq<char>,
    reply: Option<Json>,
) -> bool {
    exists|p: &str| p@ == path && #[trigger] call_ensures(get, (p,), reply)
}

/// The speeds that a reply names.
pub fn read_speeds(reply: &Json) -> (r: (u64, u64))
    ensures
        r == speeds_in(reply@),
{
    (get_number(reply, "up"), get_number(reply, "down"))
}

/// The totals that a reply names, and how many connections it lists.
pub fn read_connections(reply: &Json) -> (r: (u64, u64, usize))
    ensures
        (r.0, r.1, r.2 as nat) == totals_and_count(reply@),
{
    let count: usize = match reply.get("connections") {
        Some(v) => match v.as_array() {
            Some(items) => items.len(),
            None => 0,
        },
        None => 0,
    };
    (get_number(reply, "uploadTotal"), get_number(reply, "downloadTotal"), count)
}

/// The speeds of the last second, sent and received, if `get` has a reply.
pub fn fetch_traffic<F: FnOnce(&str) -> Option<Json>>(get: F) -> (r: Option<(u64, u64)>)
    requires
        forall|p: &str| p@ == "/traffic"@ ==> #[trigger] call_requires(get, (p,)),
    ensures
        exists|reply: Option<Json>| #[trigger]
            is_reply(get, "/traffic"@, reply) && r == (match reply {
                Some(doc) => Some(speeds_in(doc@)),
                None => None,
            }),
{
    let reply = get("/traffic");
    assert(is_reply(get, "/traffic"@, reply));
    match &reply {
        Some(doc) => Some(read_speeds(doc)),
        None => None,
    }
}

/// The totals, sent and received, and the number of connections, if `get` has a
/// reply.
pub fn fetch_connections<F: FnOnce(&str) -> Option<Json>>(get: F) -> (r: Option<(u64, u64, usize)>)
    requires
        forall|p: &str| p@ == "/connections"@ ==> #[trigger] call_requires(get, (p,)),
    ensures
        exists|reply: Option<Json>| #[trigger]
            is_reply(get, "/connections"@, reply) && match reply {
                Some(doc) => r matches Some((up, down, n)) && (up, down, n as nat)
                    == totals_and_count(doc@),
                None => r is None,
            },
{
    let reply = get("/connections");
    assert(is_reply(get, "/connections"@, reply));
    match &reply {
        Some(doc) => Some(read_connections(doc)),
        None => None,
    }
}

// ---- Laws ----

proof fn lemma_header_end(buf: Seq<u8>, more: Seq<u8>, from: int)
    requires
        0 <= from,
        header_end(buf, from) >= 0,
    ensures
        from <= header_end(buf, from),
        is_header_end(buf, header_end(buf, from)),
        header_end(buf + more, from) == header_end(buf, from),
    decreases buf.len() - from,
{
    if !is_header_end(buf, from) {
        lemma_header_end(buf, more, from + 1);
        let end = header_end(buf, from + 1);
        assert(from + 4 <= buf.len());
        assert((buf + more)[from] == buf[from]);
        assert((buf + more)[from + 1] == buf[from + 1]);
        assert((buf + more)[from + 2] == buf[from + 2]);
        assert((buf + more)[from + 3] == buf[from + 3]);
        assert(!is_header_end(buf + more, from));
    }
}

proof fn lemma_brace_at(buf: Seq<u8>, more: Seq<u8>, from: int)
    requires
        0 <= from,
        brace_at(buf, from) >= 0,
    ensures
        from <= brace_at(buf, from) < buf.len(),
        buf[brace_at(buf, from)] == 123,
        brace_at(buf + more, from) == brace_at(buf, from),
    decreases buf.len() - from,
{
    if buf[from] != 123 {
        lemma_brace_at(buf, more, from + 1);
    }
}

proof fn lemma_object_end(
    buf: Seq<u8>,
    more: Seq<u8>,
    i: int,
    depth: int,
    in_text: bool,
    escaped: bool,
)
    requires
        0 <= i,
        object_end(buf, i, depth, in_text, escaped) >= 0,
    ensures
        i < object_end(buf, i, depth, in_text, escaped) <= buf.len(),
        buf[object_end(buf, i, depth, in_text, escaped) - 1] == 125,
        object_end(buf + more, i, depth, in_text, escaped) == object_end(
            buf,
            i,
            depth,
            in_text,
            escaped,
        ),
    decreases buf.len() - i,
{
    assert((buf + more)[i] == buf[i]);
    if in_text {
        if escaped {
            lemma_object_end(buf, more, i + 1, depth, true, false);
        } else if buf[i] == 92 {
            lemma_object_end(buf, more, i + 1, depth, true, true);
        } else {
            lemma_object_end(buf, more, i + 1, depth, buf[i] != 34, false);
        }
    } else if buf[i] == 34 {
        lemma_object_end(buf, more, i + 1, depth, true, false);
    } else if buf[i] == 123 {
        lemma_object_end(buf, more, i + 1, depth + 1, false, false);
    } else if buf[i] == 125 {
        if depth != 1 {
            lemma_object_end(buf, more, i + 1, depth - 1, false, false);
        }
    } else {
        lemma_object_end(buf, more, i + 1, depth, false, false);
    }
}

/// An object that is found stands between braces.
pub proof fn law_object_in_braces(buf: Seq<u8>)
    ensures
        object_in(buf) matches Some((from, to)) ==> 0 <= from < to <= buf.len() && buf[from] == 123
            && buf[to - 1] == 125,
{
    if object_in(buf) is Some {
        if header_end(buf, 0) >= 0 {
            lemma_header_end(buf, Seq::empty(), 0);
        }
        lemma_brace_at(buf, Seq::empty(), body_start(buf));
        let start = brace_at(buf, body_start(buf));
        lemma_object_end(buf, Seq::empty(), start, 0, false, false);
    }
}

/// Once the header of a reply has arrived and an object with it, what arrives
/// later does not change which object is found.
pub proof fn law_later_bytes_make_no_difference(buf: Seq<u8>, more: Seq<u8>)
    requires
        header_end(buf, 0) >= 0,
        object_in(buf) is Some,
    ensures
        object_in(buf + more) == object_in(buf),
        first_document(buf + more) == first_document(buf),
{
    lemma_header_end(buf, more, 0);
    lemma_brace_at(buf, more, body_start(buf));
    let start = brace_at(buf, body_start(buf));
    lemma_object_end(buf, more, start, 0, false, false);
    let end = object_end(buf, start, 0, false, false);
    assert((buf + more).subrange(start, end) =~= buf.subrange(start, end));
}

/// Where the first object of a reply ends; -1 if there is none.
pub open spec fn first_end(reply: Seq<u8>) -> int {
    match object_in(reply) {
        Some((_, end)) => end,
        None => -1,
    }
}

/// A reply has a header, and no brace stands in it.
pub open spec fn has_plain_header(reply: Seq<u8>) -> bool {
    &&& header_end(reply, 0) >= 0
    &&& forall|i: int| 0 <= i < header_end(reply, 0) ==> #[trigger] reply[i] != 123
}

/// In what precedes the end of a header, none ends.
proof fn lemma_before_header_end(reply: Seq<u8>, n: int, from: int)
    requires
        0 <= from,
        0 <= n <= reply.len(),
        header_end(reply, from) >= 0,
        n < header_end(reply, from) + 4,
    ensures
        header_end(reply.take(n), from) == -1,
    decreases reply.len() - from,
{
    let part = reply.take(n);
    if from < part.len() {
        if is_header_end(reply, from) {
            lemma_short_header(part, from);
        } else {
            if is_header_end(part, from) {
                assert(part[from] == reply[from]);
                assert(part[from + 1] == reply[from + 1]);
                assert(part[from + 2] == reply[from + 2]);
                assert(part[from + 3] == reply[from + 3]);
            }
            lemma_before_header_end(reply, n, from + 1);
        }
    }
}

/// Fewer than four bytes hold no blank line.
proof fn lemma_short_header(part: Seq<u8>, from: int)
    requires
        0 <= from,
        from + 4 > part.len(),
    ensures
        header_end(part, from) == -1,
    decreases part.len() - from,
{
    if from < part.len() {
        lemma_short_header(part, from + 1);
    }
}

proof fn lemma_no_brace(buf: Seq<u8>, from: int)
    requires
        0 <= from,
        forall|i: int| from <= i < buf.len() ==> #[trigger] buf[i] != 123,
    ensures
        brace_at(buf, from) == -1,
    decreases buf.len() - from,
{
    if from < buf.len() {
        assert(buf[from] != 123);
        lemma_no_brace(buf, from + 1);
    }
}

/// Before the header of a reply has arrived, nothing is found.
proof fn lemma_nothing_in_header(reply: Seq<u8>, n: int)
    requires
        has_plain_header(reply),
        0 <= n <= reply.len(),
        n < header_end(reply, 0) + 4,
    ensures
        object_in(reply.take(n)) is None,
{
    let part = reply.take(n);
    lemma_header_end(reply, Seq::empty(), 0);
    lemma_before_header_end(reply, n, 0);
    assert forall|i: int| 0 <= i < part.len() implies #[trigger] part[i] != 123 by {
        assert(part[i] == reply[i]);
    }
    lemma_no_brace(part, 0);
}

/// What is found in a part of a reply is what is found in all of it.
proof fn lemma_part_of_reply(reply: Seq<u8>, n: int)
    requires
        has_plain_header(reply),
        0 <= n <= reply.len(),
        object_in(reply.take(n)) is Some,
    ensures
        object_in(reply) == object_in(reply.take(n)),
        first_document(reply) == first_document(reply.take(n)),
{
    let part = reply.take(n);
    if n < header_end(reply, 0) + 4 {
        lemma_nothing_in_header(reply, n);
    }
    lemma_header_arrived(reply, n, 0);
    assert(part + reply.skip(n) =~= reply);
    law_later_bytes_make_no_difference(part, reply.skip(n));
}

proof fn lemma_header_arrived(reply: Seq<u8>, n: int, from: int)
    requires
        0 <= from,
        header_end(reply, from) >= 0,
        header_end(reply, from) + 4 <= n <= reply.len(),
    ensures
        header_end(reply.take(n), from) == header_end(reply, from),
    decreases reply.len() - from,
{
    let part = reply.take(n);
    lemma_header_end(reply, Seq::empty(), from);
    assert(part[from] == reply[from]);
    assert(part[from + 1] == reply[from + 1]);
    assert(part[from + 2] == reply[from + 2]);
    assert(part[from + 3] == reply[from + 3]);
    if !is_header_end(reply, from) {
        lemma_header_arrived(reply, n, from + 1);
    }
}

/// Once an object has arrived to its end it is found.
proof fn lemma_object_arrived(
    buf: Seq<u8>,
    n: int,
    i: int,
    depth: int,
    in_text: bool,
    escaped: bool,
)
    requires
        0 <= i,
        0 <= object_end(buf, i, depth, in_text, escaped) <= n <= buf.len(),
    ensures
        object_end(buf.take(n), i, depth, in_text, escaped) == object_end(
            buf,
            i,
            depth,
            in_text,
            escaped,
        ),
    decreases buf.len() - i,
{
    lemma_object_end(buf, Seq::empty(), i, depth, in_text, escaped);
    assert(buf.take(n)[i] == buf[i]);
    if in_text {
        if escaped {
            lemma_object_arrived(buf, n, i + 1, depth, true, false);
        } else if buf[i] == 92 {
            lemma_object_arrived(buf, n, i + 1, depth, true, true);
        } else {
            lemma_object_arrived(buf, n, i + 1, depth, buf[i] != 34, false);
        }
    } else if buf[i] == 34 {
        lemma_object_arrived(buf, n, i + 1, depth, true, false);
    } else if buf[i] == 123 {
        lemma_object_arrived(buf, n, i + 1, depth + 1, false, false);
    } else if buf[i] == 125 {
        if depth != 1 {
            lemma_object_arrived(buf, n, i + 1, depth - 1, false, false);
        }
    } else {
        lemma_object_arrived(buf, n, i + 1, depth, false, false);
    }
}

proof fn lemma_brace_arrived(buf: Seq<u8>, n: int, from: int)
    requires
        0 <= from,
        0 <= brace_at(buf, from) < n <= buf.len(),
    ensures
        brace_at(buf.take(n), from) == brace_at(buf, from),
    decreases buf.len() - from,
{
    lemma_brace_at(buf, Seq::empty(), from);
    assert(buf.take(n)[from] == buf[from]);
    if buf[from] != 123 {
        lemma_brace_arrived(buf, n, from + 1);
    }
}

/// Once the first object of a reply has arrived to its end it is found.
proof fn lemma_first_object_arrived(reply: Seq<u8>, n: int)
    requires
        has_plain_header(reply),
        object_in(reply) is Some,
        first_end(reply) <= n <= reply.len(),
    ensures
        object_in(reply.take(n)) == object_in(reply),
{
    lemma_header_end(reply, Seq::empty(), 0);
    let start = brace_at(reply, body_start(reply));
    lemma_brace_at(reply, Seq::empty(), body_start(reply));
    lemma_object_end(reply, Seq::empty(), start, 0, false, false);
    lemma_header_arrived(reply, n, 0);
    lemma_brace_arrived(reply, n, body_start(reply));
    lemma_object_arrived(reply, n, start, 0, false, false);
}

proof fn lemma_reading(reply: Seq<u8>, n: int, reads: Seq<Seq<u8>>)
    requires
        has_plain_header(reply),
        0 <= n <= reply.len(),
        reply.skip(n) == all_read(reads),
        object_in(reply) is Some ==> n < first_end(reply),
    ensures
        object_in(reply) is Some && first_end(reply) <= MAX_REPLY && first_document(reply) is Some
            ==> reading(reply.take(n), reads) == first_document(reply),
        object_in(reply) is None ==> reading(reply.take(n), reads) is None,
    decreases reads.len(),
{
    law_object_in_braces(reply);
    if reads.len() > 0 {
        let m = n + reads[0].len();
        let rest = all_read(reads.skip(1));
        assert(reply.skip(n).len() == reads[0].len() + rest.len());
        assert(reply.take(m) =~= reply.take(n) + reads[0]) by {
            assert forall|i: int| n <= i < m implies reply[i] == reads[0][i - n] by {
                assert(reply.skip(n)[i - n] == (reads[0] + rest)[i - n]);
            }
        }
        assert(reply.skip(m) =~= rest) by {
            assert forall|i: int| 0 <= i < rest.len() implies reply.skip(m)[i] == rest[i] by {
                assert(reply.skip(n)[i + reads[0].len()] == (reads[0] + rest)[i + reads[0].len()]);
            }
        }
        if object_in(reply.take(m)) is Some {
            lemma_part_of_reply(reply, m);
        } else {
            if object_in(reply) is Some && first_end(reply) <= m {
                lemma_first_object_arrived(reply, m);
            }
            lemma_reading(reply, m, reads.skip(1));
        }
    } else {
        assert(reply.skip(n).len() == 0);
    }
}

/// The pieces in which a reply arrives make no difference. However it is split over
/// reads, reading gives the first document of the whole, if that ends within the
/// size that is looked at, and whatever follows it; and if no object is complete
/// when the reads end, reading gives nothing.
pub proof fn law_pieces_make_no_difference(reply: Seq<u8>, reads: Seq<Seq<u8>>)
    requires
        has_plain_header(reply),
        all_read(reads) == reply,
    ensures
        first_document(reply) is Some && first_end(reply) <= MAX_REPLY ==> reading(
            Seq::empty(),
            reads,
        ) == first_document(reply),
        object_in(reply) is None ==> reading(Seq::empty(), reads) is None,
{
    law_object_in_braces(reply);
    assert(reply.skip(0) =~= reply);
    assert(reply.take(0) =~= Seq::empty());
    lemma_reading(reply, 0, reads);
}

/// A request begins with its path and ends with a blank line; between stands the host
/// with the port of the control interface.
pub proof fn law_requests(path: Seq<char>, api_port: u16)
    ensures
        ({
            let r = request_view(path, api_port);
            let n = "GET "@.len() + path.len();
            &&& r.take(n as int) == "GET "@ + path
            &&& r.skip(n as int) == " HTTP/1.1\r\n"@ + "Host: 127.0.0.1:"@ + decimal(
                api_port as nat,
            ) + "\r\n"@ + "Accept: */*\r\n"@ + "Connection: close\r\n"@ + "\r\n"@
        }),
{
    reveal_strlit(" HTTP/1.1\r\nHost: 127.0.0.1:");
    reveal_strlit(" HTTP/1.1\r\n");
    reveal_strlit("Host: 127.0.0.1:");
    reveal_strlit("\r\nAccept: */*\r\nConnection: close\r\n\r\n");
    reveal_strlit("\r\n");
    reveal_strlit("Accept: */*\r\n");
    reveal_strlit("Connection: close\r\n");
    let r = request_view(path, api_port);
    let n = "GET "@.len() + path.len();
    assert(" HTTP/1.1\r\nHost: 127.0.0.1:"@ =~= " HTTP/1.1\r\n"@ + "Host: 127.0.0.1:"@);
    assert("\r\nAccept: */*\r\nConnection: close\r\n\r\n"@ =~= "\r\n"@ + "Accept: */*\r\n"@
        + "Connection: close\r\n"@ + "\r\n"@);
    assert(r.take(n as int) =~= "GET "@ + path);
    assert(r.skip(n as int) =~= " HTTP/1.1\r\n"@ + "Host: 127.0.0.1:"@ + decimal(api_port as nat)
        + "\r\n"@ + "Accept: */*\r\n"@ + "Connection: close\r\n"@ + "\r\n"@);
}

/// A part of an object: a byte that is no brace and no quotation mark, a text in
/// quotation marks, or an object in braces.
pub enum Part {
    Byte(u8),
    Text(Seq<u8>),
    Object(Seq<Part>),
}

/// What may stand within quotation marks: no quotation mark, but after a backslash
/// anything.
pub open spec fn is_text_inside(t: Seq<u8>) -> bool
    decreases t.len(),
{
    if t.len() == 0 {
        true
    } else if t[0] == 92 {
        t.len() > 1 && is_text_inside(t.skip(2))
    } else {
        t[0] != 34 && is_text_inside(t.skip(1))
    }
}

/// A part is what it is said to be.
pub open spec fn is_part(p: Part) -> bool
    decreases p,
{
    match p {
        Part::Byte(b) => b != 34 && b != 123 && b != 125,
        Part::Text(t) => is_text_inside(t),
        Part::Object(parts) => forall|i: int|
            0 <= i < parts.len() ==> is_part(#[trigger] parts[i]),
    }
}

/// One more than the number of parts within a part.
pub open spec fn width(p: Part) -> nat {
    match p {
        Part::Object(parts) => parts.len() + 1,
        _ => 0,
    }
}

/// A part as it is written.
pub open spec fn written(p: Part) -> Seq<u8>
    decreases p, width(p),
{
    match p {
        Part::Byte(b) => seq![b],
        Part::Text(t) => seq![34u8] + t + seq![34u8],
        Part::Object(parts) => seq![123u8] + first_written(p, parts.len()) + seq![125u8],
    }
}

/// The first parts of an object as they are written, one after the other.
pub open spec fn first_written(p: Part, n: nat) -> Seq<u8>
    decreases p, n,
{
    match p {
        Part::Object(parts) => if n == 0 || n > parts.len() {
            Seq::empty()
        } else {
            first_written(p, (n - 1) as nat) + written(parts[n - 1])
        },
        _ => Seq::empty(),
    }
}

/// Some bytes stand in others at an index.
pub open spec fn stands_at(buf: Seq<u8>, i: int, s: Seq<u8>) -> bool {
    0 <= i && i + s.len() <= buf.len() && buf.subrange(i, i + s.len()) == s
}

proof fn lemma_stands(buf: Seq<u8>, i: int, a: Seq<u8>, b: Seq<u8>)
    requires
        stands_at(buf, i, a + b),
    ensures
        stands_at(buf, i, a),
        stands_at(buf, i + a.len(), b),
{
    let all = buf.subrange(i, i + (a + b).len());
    assert forall|k: int| 0 <= k < a.len() implies buf[i + k] == a[k] by {
        assert(all[k] == (a + b)[k]);
    }
    assert forall|k: int| 0 <= k < b.len() implies buf[i + a.len() + k] == b[k] by {
        assert(all[a.len() + k] == (a + b)[a.len() + k]);
    }
    assert(buf.subrange(i, i + a.len()) =~= a);
    assert(buf.subrange(i + a.len(), i + a.len() + b.len()) =~= b);
}

proof fn lemma_text_passed(buf: Seq<u8>, i: int, depth: int, t: Seq<u8>)
    requires
        is_text_inside(t),
        stands_at(buf, i, t + seq![34u8]),
    ensures
        object_end(buf, i, depth, true, false) == object_end(
            buf,
            i + t.len() + 1,
            depth,
            false,
            false,
        ),
    decreases t.len(),
{
    let all = t + seq![34u8];
    let there = buf.subrange(i, i + all.len());
    assert(there[0] == all[0]);
    if t.len() == 0 {
        assert(buf[i] == 34);
    } else if t[0] == 92 {
        assert(there[1] == all[1]);
        assert(all =~= seq![t[0], t[1]] + (t.skip(2) + seq![34u8]));
        lemma_stands(buf, i, seq![t[0], t[1]], t.skip(2) + seq![34u8]);
        lemma_text_passed(buf, i + 2, depth, t.skip(2));
        assert(object_end(buf, i, depth, true, false) == object_end(buf, i + 1, depth, true, true));
        assert(object_end(buf, i + 1, depth, true, true) == object_end(
            buf,
            i + 2,
            depth,
            true,
            false,
        ));
    } else {
        assert(all =~= seq![t[0]] + (t.skip(1) + seq![34u8]));
        lemma_stands(buf, i, seq![t[0]], t.skip(1) + seq![34u8]);
        lemma_text_passed(buf, i + 1, depth, t.skip(1));
    }
}

/// Reading goes on behind a part as it came to it, if it is within an object.
proof fn lemma_part_passed(buf: Seq<u8>, i: int, depth: int, p: Part)
    requires
        is_part(p),
        depth > 0,
        stands_at(buf, i, written(p)),
    ensures
        object_end(buf, i, depth, false, false) == object_end(
            buf,
            i + written(p).len(),
            depth,
            false,
            false,
        ),
    decreases p, width(p),
{
    let w = written(p);
    let there = buf.subrange(i, i + w.len());
    assert(there[0] == w[0]);
    match p {
        Part::Byte(b) => {},
        Part::Text(t) => {
            assert(w =~= seq![34u8] + (t + seq![34u8]));
            lemma_stands(buf, i, seq![34u8], t + seq![34u8]);
            lemma_text_passed(buf, i + 1, depth, t);
        },
        Part::Object(parts) => {
            let inside = first_written(p, parts.len());
            lemma_stands(buf, i, seq![123u8] + inside, seq![125u8]);
            lemma_stands(buf, i, seq![123u8], inside);
            lemma_parts_passed(buf, i + 1, depth + 1, p, parts.len());
            let end = i + 1 + inside.len();
            assert(buf.subrange(end, end + 1)[0] == 125);
            assert(buf[end] == 125);
        },
    }
}

proof fn lemma_parts_passed(buf: Seq<u8>, i: int, depth: int, p: Part, n: nat)
    requires
        p is Object,
        is_part(p),
        depth > 0,
        n <= p->Object_0.len(),
        stands_at(buf, i, first_written(p, n)),
    ensures
        object_end(buf, i, depth, false, false) == object_end(
            buf,
            i + first_written(p, n).len(),
            depth,
            false,
            false,
        ),
    decreases p, n,
{
    if n > 0 {
        let parts = p->Object_0;
        let before = first_written(p, (n - 1) as nat);
        let last = parts[n - 1];
        assert(is_part(p->Object_0[n - 1]));
        lemma_stands(buf, i, before, written(last));
        lemma_parts_passed(buf, i, depth, p, (n - 1) as nat);
        lemma_part_passed(buf, i + before.len(), depth, last);
    }
}

/// The object of a reply is found whole, whatever follows it: it starts with the first
/// brace after the header and ends with the brace that goes with that one. Objects
/// within it do not end it, nor do braces in a text, nor does a quotation mark behind a
/// backslash end a text.
pub proof fn law_object_found(header: Seq<u8>, parts: Seq<Part>, rest: Seq<u8>)
    requires
        header_end(header, 0) >= 0,
        header_end(header, 0) + 4 == header.len(),
        is_part(Part::Object(parts)),
    ensures
        ({
            let object = written(Part::Object(parts));
            let reply = header + object + rest;
            &&& object_in(reply) == Some(
                (header.len() as int, header.len() as int + object.len()),
            )
            &&& first_document(reply) == document_of(object)
        }),
{
    let p = Part::Object(parts);
    let object = written(p);
    let inside = first_written(p, parts.len());
    let reply = header + object + rest;
    let n = header.len() as int;
    lemma_header_end(header, object + rest, 0);
    assert(header + (object + rest) =~= reply);
    assert(body_start(reply) == n);
    assert(reply.subrange(n, n + object.len()) =~= object);
    assert(stands_at(reply, n, object));
    lemma_stands(reply, n, seq![123u8] + inside, seq![125u8]);
    lemma_stands(reply, n, seq![123u8], inside);
    assert(reply[n] == object[0]);
    assert(brace_at(reply, n) == n);
    lemma_parts_passed(reply, n + 1, 1, p, parts.len());
    let end = n + 1 + inside.len();
    assert(reply.subrange(end, end + 1)[0] == 125);
    assert(reply[end] == 125);
    assert(object_end(reply, n, 0, false, false) == object_end(reply, n + 1, 1, false, false));
    assert(object_end(reply, end, 1, false, false) == end + 1);
}

/// Until the object of a reply has arrived to its end, none is found.
pub proof fn law_incomplete_object(reply: Seq<u8>, n: int)
    requires
        has_plain_header(reply),
        object_in(reply) is None || n < first_end(reply),
        0 <= n <= reply.len(),
    ensures
        object_in(reply.take(n)) is None,
        first_document(reply.take(n)) is None,
{
    if object_in(reply.take(n)) is Some {
        lemma_part_of_reply(reply, n);
        law_object_in_braces(reply.take(n));
    }
}

/// A document that ends within the first two million bytes of a reply is found, however
/// the reply is split.
pub proof fn law_long_replies(reply: Seq<u8>, reads: Seq<Seq<u8>>)
    requires
        has_plain_header(reply),
        all_read(reads) == reply,
        first_document(reply) is Some,
        first_end(reply) <= 2_000_000,
    ensures
        reading(Seq::empty(), reads) == first_document(reply),
{
    law_pieces_make_no_difference(reply, reads);
}

/// What a reply says is read by its keys: speeds and totals are the numbers under
/// theirs, or 0 without one, and the connections are counted.
pub proof fn law_replies_by_key(reply: JsonView, n: u64, items: Seq<JsonView>)
    ensures
        reply.field("up"@) == Some(JsonView::Number(JsonNumber::Unsigned(n))) ==> speeds_in(reply).0
            == n,
        reply.field("down"@) == Some(JsonView::Number(JsonNumber::Unsigned(n))) ==> speeds_in(
            reply,
        ).1 == n,
        reply.field("uploadTotal"@) == Some(JsonView::Number(JsonNumber::Unsigned(n)))
            ==> totals_and_count(reply).0 == n,
        reply.field("downloadTotal"@) == Some(JsonView::Number(JsonNumber::Unsigned(n)))
            ==> totals_and_count(reply).1 == n,
        reply.field("connections"@) == Some(JsonView::Array(items)) ==> totals_and_count(reply).2
            == items.len(),
        reply.field("up"@) is None ==> speeds_in(reply).0 == 0,
        reply.field("down"@) is None ==> speeds_in(reply).1 == 0,
        reply.field("uploadTotal"@) is None ==> totals_and_count(reply).0 == 0,
        reply.field("downloadTotal"@) is None ==> totals_and_count(reply).1 == 0,
        !(reply.field("connections"@) matches Some(JsonView::Array(_))) ==> totals_and_count(reply).2
            == 0,
{
}

/// The bytes of two line ends stand at an index, one after the other.
pub open spec fn is_blank_line(buf: Seq<u8>, k: int) -> bool {
    &&& 0 <= k
    &&& k + 4 <= buf.len()
    &&& buf.subrange(k, k + 4) == seq![13u8, 10, 13, 10]
}

proof fn lemma_blank_line(buf: Seq<u8>, k: int)
    ensures
        is_blank_line(buf, k) <==> is_header_end(buf, k),
{
    if 0 <= k && k + 4 <= buf.len() {
        let there = buf.subrange(k, k + 4);
        assert(there[0] == buf[k] && there[1] == buf[k + 1] && there[2] == buf[k + 2] && there[3]
            == buf[k + 3]);
        if is_header_end(buf, k) {
            assert(there =~= seq![13u8, 10, 13, 10]);
        }
        if is_blank_line(buf, k) {
            assert(there[0] == 13 && there[1] == 10 && there[2] == 13 && there[3] == 10);
        }
    }
}

proof fn lemma_header_end_is(buf: Seq<u8>, k: int, from: int)
    requires
        0 <= from <= k <= buf.len(),
        forall|j: int| from <= j < k ==> !(#[trigger] is_blank_line(buf, j)),
        is_blank_line(buf, k) || k == buf.len(),
    ensures
        header_end(buf, from) == (if k < buf.len() {
            k
        } else {
            -1
        }),
    decreases k - from,
{
    lemma_blank_line(buf, from);
    if from < k {
        assert(!is_blank_line(buf, from));
        lemma_header_end_is(buf, k, from + 1);
    }
}

/// The body of a reply starts behind the first blank line, and is the whole where there
/// is none yet.
pub proof fn law_body_after_header(buf: Seq<u8>, k: int)
    requires
        0 <= k <= buf.len(),
        forall|j: int| 0 <= j < k ==> !(#[trigger] is_blank_line(buf, j)),
        is_blank_line(buf, k) || k == buf.len(),
    ensures
        k < buf.len() ==> body_start(buf) == k + 4,
        k == buf.len() ==> body_start(buf) == 0,
{
    lemma_header_end_is(buf, k, 0);
}

/// Reading ends without a document once more than two million bytes have arrived with
/// none, whatever would follow. It goes on before, and then what follows decides.
pub proof fn law_reading_given_up(buf: Seq<u8>, reads: Seq<Seq<u8>>)
    requires
        reads.len() > 0,
        first_document(buf + reads[0]) is None,
    ensures
        buf.len() + reads[0].len() > 2_000_000 ==> reading(buf, reads) is None,
        buf.len() + reads[0].len() <= 2_000_000 ==> reading(buf, reads) == reading(
            buf + reads[0],
            reads.skip(1),
        ),
{
}

/// What is fetched is what the reply for its path says, and there is nothing exactly
/// if there was no reply.
pub proof fn law_fetched<F: FnOnce(&str) -> Option<Json>>(
    get: F,
    traffic: Option<(u64, u64)>,
    conns: Option<(u64, u64, usize)>,
)
    requires
        call_ensures(fetch_traffic::<F>, (get,), traffic),
        call_ensures(fetch_connections::<F>, (get,), conns),
    ensures
        exists|p: &str, reply: Option<Json>|
            p@ == "/traffic"@ && #[trigger] call_ensures(get, (p,), reply) && (traffic is Some
                == reply is Some) && (reply matches Some(doc) ==> traffic == Some(
                speeds_in(doc@),
            )),
        exists|p: &str, reply: Option<Json>|
            p@ == "/connections"@ && #[trigger] call_ensures(get, (p,), reply) && (conns is Some
                == reply is Some) && (reply matches Some(doc) ==> (
            conns matches Some((up, down, n)) && (up, down, n as nat) == totals_and_count(doc@))),
{
    let a = choose|reply: Option<Json>| #[trigger]
        is_reply(get, "/traffic"@, reply) && traffic == (match reply {
            Some(doc) => Some(speeds_in(doc@)),
            None => None,
        });
    assert(is_reply(get, "/traffic"@, a));
    let p = choose|p: &str| p@ == "/traffic"@ && #[trigger] call_ensures(get, (p,), a);
    assert(p@ == "/traffic"@ && call_ensures(get, (p,), a));
    let b = choose|reply: Option<Json>| #[trigger]
        is_reply(get, "/connections"@, reply) && match reply {
            Some(doc) => conns matches Some((up, down, n)) && (up, down, n as nat)
                == totals_and_count(doc@),
            None => conns is None,
        };
    assert(is_reply(get, "/connections"@, b));
    let q = choose|q: &str| q@ == "/connections"@ && #[trigger] call_ensures(get, (q,), b);
    assert(q@ == "/connections"@ && call_ensures(get, (q,), b));
}

} // verus!
