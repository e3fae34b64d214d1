//! The wire unit: a canvas event, one JSON object per newline-separated
//! line. The crate keeps the payload as the raw JSON text of its value and
//! leans on serde_json, behind trusted wrappers, for the conversion between
//! an event and its one-line JSON form.

use vstd::prelude::*;
use vstd::string::*;
use crate::text::no_newline;

verus! {

/// A drawing event in flight: `type`, `canvas_id` and `timestamp` are read
/// by the server; `payload` is carried opaquely as the JSON text of its
/// value, as serde_json prints it.
pub struct CanvasEvent {
    pub event_type: String,
    pub canvas_id: String,
    pub timestamp: u64,
    pub payload: String,
}

/// The mathematical value of a `CanvasEvent`.
pub ghost struct EventView {
    pub event_type: Seq<char>,
    pub canvas_id: Seq<char>,
    pub timestamp: u64,
    pub payload: Seq<char>,
}

impl View for CanvasEvent {
    type V = EventView;

    open spec fn view(&self) -> EventView {
        EventView {
            event_type: self.event_type@,
            canvas_id: self.canvas_id@,
            timestamp: self.timestamp,
            payload: self.payload@,
        }
    }
}

/// The one-line JSON form of an event, as serde_json prints the object
/// `{"type", "canvas_id", "timestamp", "payload"}`.
pub uninterp spec fn json_of_event(v: EventView) -> Seq<char>;

/// The event a JSON text parses to, `None` when the text is not an object
/// with a string `type`, a string `canvas_id`, an unsigned `timestamp` and a
/// `payload`; the payload comes back as serde_json reprints its value.
pub uninterp spec fn event_of_json(s: Seq<char>) -> Option<EventView>;

/// A JSON text as serde_json reprints its value: parsing and printing again
/// is the identity exactly on such texts.
pub uninterp spec fn canon_json(p: Seq<char>) -> Seq<char>;

/// The JSON array of a sequence of strings, as serde_json prints it.
pub uninterp spec fn json_of_strings(v: Seq<Seq<char>>) -> Seq<char>;

/// Relies on serde_json::from_str and serde_json::to_string: parsing is a
/// function of the text alone; a missing or ill-typed field fails the parse;
/// the payload's value is reprinted, so it comes back in canonical form.
#[verifier::external_body]
fn parse_event_raw(s: &str) -> (r: Option<CanvasEvent>)
    ensures
        r is Some <==> event_of_json(s@) is Some,
        r is Some ==> r.unwrap()@ == event_of_json(s@).unwrap(),
        r is Some ==> canon_json(r.unwrap()@.payload) == r.unwrap()@.payload,
{
    let v: serde_json::Value = match serde_json::from_str(s) {
        Ok(v) => v,
        Err(_) => return None,
    };
    Some(CanvasEvent {
        event_type: v.get("type")?.as_str()?.to_string(),
        canvas_id: v.get("canvas_id")?.as_str()?.to_string(),
        timestamp: v.get("timestamp")?.as_u64()?,
        payload: serde_json::to_string(v.get("payload")?).ok()?,
    })
}

/// Relies on serde_json::Value::to_string: printing is a function of the
/// event alone, emits no raw newline, and parsing the result yields the same
/// event back when the payload is in canonical form.
#[verifier::external_body]
fn event_to_json_raw(e: &CanvasEvent) -> (r: String)
    ensures
        r@ == json_of_event(e@),
        no_newline(r@),
        e@.payload == canon_json(e@.payload) ==> event_of_json(r@) == Some(e@),
{
    let mut m = serde_json::Map::new();
    m.insert("type".to_string(), serde_json::Value::String(e.event_type.clone()));
    m.insert("canvas_id".to_string(), serde_json::Value::String(e.canvas_id.clone()));
    m.insert("timestamp".to_string(), serde_json::Value::from(e.timestamp));
    m.insert(
        "payload".to_string(),
        serde_json::from_str(&e.payload).unwrap_or(serde_json::Value::Null),
    );
    serde_json::Value::Object(m).to_string()
}

/// Relies on serde_json::to_string on `Vec<String>`: the JSON array of the
/// strings in order, without raw newlines; serializing strings cannot fail.
#[verifier::external_body]
fn strings_to_json_raw(v: &Vec<String>) -> (r: String)
    ensures
        r@ == json_of_strings(v.deep_view()),
        no_newline(r@),
{
    serde_json::to_string(v).unwrap_or_else(|_| String::new())
}

/// Parse one line of the wire protocol into an event.
pub fn decode_event(s: &str) -> (r: Option<CanvasEvent>)
    ensures
        r is Some <==> event_of_json(s@) is Some,
        r is Some ==> r.unwrap()@ == event_of_json(s@).unwrap(),
        r is Some ==> canon_json(r.unwrap()@.payload) == r.unwrap()@.payload,
{
    parse_event_raw(s)
}

/// Print an event as one line of the wire protocol. Decoding the line gives
/// the event back whenever its payload is in canonical form, which holds of
/// every decoded event: fan-out preserves events in JSON value space.
pub fn encode_event(e: &CanvasEvent) -> (r: String)
    ensures
        r@ == json_of_event(e@),
        no_newline(r@),
        e@.payload == canon_json(e@.payload) ==> event_of_json(r@) == Some(e@),
{
    event_to_json_raw(e)
}

/// The history frame: the JSON array of the stored blobs, in storage order.
pub fn history_frame(blobs: &Vec<String>) -> (r: String)
    ensures
        r@ == json_of_strings(blobs.deep_view()),
        no_newline(r@),
{
    strings_to_json_raw(blobs)
}

/// The error frame sent to a connection with no right on the canvas.
pub open spec fn spec_access_denied_frame() -> Seq<char> {
    "{\"error\": \"You do not have access to this canvas.\"}"@
}

pub fn access_denied_frame() -> (r: String)
    ensures
        r@ == spec_access_denied_frame(),
{
    String::from_str("{\"error\": \"You do not have access to this canvas.\"}")
}

impl CanvasEvent {
    /// The init command that asks for a history replay: a `register` whose
    /// payload is the JSON value `true` (decoded events carry it as the
    /// canonical text `true`).
    pub open spec fn spec_asks_history(self) -> bool {
        self@.event_type == "register"@ && self@.payload == "true"@
    }

    pub fn asks_history(&self) -> (b: bool)
        ensures
            b == self.spec_asks_history(),
    {
        crate::text::str_eq(self.event_type.as_str(), "register") && crate::text::str_eq(
            self.payload.as_str(),
            "true",
        )
    }

    /// The one-shot management init command.
    pub open spec fn spec_is_manage(self) -> bool {
        self@.event_type == "manage"@
    }

    pub fn is_manage(&self) -> (b: bool)
        ensures
            b == self.spec_is_manage(),
    {
        crate::text::str_eq(self.event_type.as_str(), "manage")
    }
}

} // verus!
