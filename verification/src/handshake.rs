//! The messages by which an agent registers with the gateway.
//!
//! Each is a [`CtrlMsg`](crate::proto::CtrlMsg) as a line of JSON.

use vstd::prelude::*;

verus! {

/// What came in place of a control message.
#[derive(Debug)]
pub enum Incoming {
    /// A text message.
    Text(String),
    /// A binary message.
    Binary(Vec<u8>),
    /// Anything else, or nothing, described.
    Other(String),
}

/// JSON that is to be decoded as a control message.
#[derive(Debug)]
pub enum Payload {
    Text(String),
    Binary(Vec<u8>),
}

/// The JSON in what came, if it may hold any.
pub open spec fn payload_of(incoming: Incoming) -> Result<Payload, String> {
    match incoming {
        Incoming::Text(text) => Ok(Payload::Text(text)),
        Incoming::Binary(bytes) => Ok(Payload::Binary(bytes)),
        Incoming::Other(what) => Err(what),
    }
}

/// Takes the JSON out of a message: text and binary messages may both hold it.
pub fn payload(incoming: Incoming) -> (res: Result<Payload, String>)
    ensures
        res == payload_of(incoming),
{
    match incoming {
        Incoming::Text(text) => Ok(Payload::Text(text)),
        Incoming::Binary(bytes) => Ok(Payload::Binary(bytes)),
        Incoming::Other(what) => Err(what),
    }
}

/// JSON as a line.
pub open spec fn line_of(json: Seq<char>) -> Seq<char> {
    json.push('\n')
}

/// A line of JSON is the JSON and a line break.
pub proof fn law_line_is_the_json(json: Seq<char>)
    ensures
        line_of(json).len() == json.len() + 1,
        line_of(json).drop_last() == json,
        line_of(json).last() == '\n',
{
    assert(line_of(json).drop_last() =~= json);
}

/// What may hold JSON is taken as it came, and nothing else is.
pub proof fn law_payload_is_what_came(incoming: Incoming)
    ensures
        forall|text: String|
            incoming == Incoming::Text(text) <==> #[trigger] payload_of(incoming) == Ok::<
                Payload,
                String,
            >(Payload::Text(text)),
        forall|bytes: Vec<u8>|
            incoming == Incoming::Binary(bytes) <==> #[trigger] payload_of(incoming) == Ok::<
                Payload,
                String,
            >(Payload::Binary(bytes)),
        forall|what: String|
            incoming == Incoming::Other(what) <==> #[trigger] payload_of(incoming) == Err::<
                Payload,
                String,
            >(what),
{
}

/// Ends the JSON of a control message with a line break.
pub fn control_line(json: String) -> (res: String)
    ensures
        res@ == json@.push('\n'),
        res@ == line_of(json@),
{
    let mut line = json;
    line.push('\n');
    line
}

} // verus!
