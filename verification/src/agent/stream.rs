//! One proxied connection: the agent reads what is asked for, connects to it,
//! says how that went, and relays.

use crate::addr_display::target_display;
use crate::messages::fault_message;
use crate::proto::{
    read_proxy_request, request_progress, response_bytes, write_proxy_response, Parsed, Progress,
    ProtoError, ProxyAddr, Refusal, Target,
};
use crate::resolve::{route, Resolution, Route};
use vstd::prelude::*;
use vstd::string::StringExecFns;

verus! {

/// Why a stream ends early.
#[derive(Debug)]
pub enum StreamError {
    /// The request is refused.
    Request(ProtoError),
    /// The request did not arrive.
    Read(String),
    /// The target's addresses could not be looked up.
    Unresolved(String),
    /// No address of the target could be connected.
    Unreachable(String),
    /// A connection failed.
    Io(String),
}

/// A [`StreamError`] as a mathematical value.
#[verifier::ext_equal]
pub enum Fault {
    Request(Refusal),
    Read(Seq<char>),
    Unresolved(Seq<char>),
    Unreachable(Seq<char>),
    Io(Seq<char>),
}

impl View for StreamError {
    type V = Fault;

    open spec fn view(&self) -> Fault {
        match *self {
            StreamError::Request(e) => Fault::Request(e@),
            StreamError::Read(e) => Fault::Read(e@),
            StreamError::Unresolved(e) => Fault::Unresolved(e@),
            StreamError::Unreachable(e) => Fault::Unreachable(e@),
            StreamError::Io(e) => Fault::Io(e@),
        }
    }
}

/// Where a stream stands.
#[derive(Debug)]
pub enum StreamStage {
    /// The request is arriving.
    Reading(Vec<u8>),
    /// The target's addresses are being looked up.
    Resolving(ProxyAddr),
    /// Of so many addresses, the one at this index is being connected.
    Dialing { count: usize, index: usize },
    /// The gateway is being told that the target is connected.
    Reporting,
    /// Bytes are relayed both ways.
    Relaying,
    /// The stream has ended.
    Closed,
}

/// A [`StreamStage`] as a mathematical value.
#[verifier::ext_equal]
pub enum StreamAt {
    Reading(Seq<u8>),
    Resolving(Target),
    Dialing { count: nat, index: nat },
    Reporting,
    Relaying,
    Closed,
}

impl View for StreamStage {
    type V = StreamAt;

    open spec fn view(&self) -> StreamAt {
        match *self {
            StreamStage::Reading(buf) => StreamAt::Reading(buf@),
            StreamStage::Resolving(t) => StreamAt::Resolving(t@),
            StreamStage::Dialing { count, index } => StreamAt::Dialing {
                count: count as nat,
                index: index as nat,
            },
            StreamStage::Reporting => StreamAt::Reporting,
            StreamStage::Relaying => StreamAt::Relaying,
            StreamStage::Closed => StreamAt::Closed,
        }
    }
}

/// What came of what the stream asked for.
#[derive(Debug)]
pub enum StreamEvent {
    /// The bytes that were asked for came from the gateway.
    Received(Vec<u8>),
    /// The target has so many addresses.
    Resolved(usize),
    /// The lookup failed.
    Unresolved(String),
    /// The address is connected.
    Connected,
    /// The address could not be connected.
    Refused(String),
    /// The bytes were sent.
    Sent,
    /// The relaying has ended, with an error or without.
    Relayed(Option<String>),
    /// Receiving or sending has failed.
    Broken(String),
}

/// What the stream asks for.
#[derive(Debug)]
pub enum StreamAction {
    /// Receive this many bytes from the gateway.
    Receive(usize),
    /// Find the target's addresses.
    Resolve(Resolution),
    /// Connect the address at this index.
    Dial(usize),
    /// Send bytes to the gateway.
    Send(Vec<u8>),
    /// Relay bytes both ways.
    Relay,
    /// End the stream: try to send the reply, and report the error.
    Close { reply: Option<Vec<u8>>, error: Option<StreamError> },
}

/// A [`StreamAction`] as a mathematical value.
#[verifier::ext_equal]
pub enum StreamAct {
    Receive(nat),
    Resolve(Route),
    Dial(nat),
    Send(Seq<u8>),
    Relay,
    Close { reply: Option<Seq<u8>>, error: Option<Fault> },
}

impl View for StreamAction {
    type V = StreamAct;

    open spec fn view(&self) -> StreamAct {
        match *self {
            StreamAction::Receive(n) => StreamAct::Receive(n as nat),
            StreamAction::Resolve(r) => StreamAct::Resolve(r@),
            StreamAction::Dial(i) => StreamAct::Dial(i as nat),
            StreamAction::Send(bytes) => StreamAct::Send(bytes@),
            StreamAction::Relay => StreamAct::Relay,
            StreamAction::Close { reply, error } => StreamAct::Close {
                reply: match reply {
                    Some(bytes) => Some(bytes@),
                    None => None,
                },
                error: match error {
                    Some(e) => Some(e@),
                    None => None,
                },
            },
        }
    }
}

/// The end of a stream with an error that the gateway is not told.
pub open spec fn abandon(error: Fault) -> (StreamAt, StreamAct) {
    (StreamAt::Closed, StreamAct::Close { reply: None, error: Some(error) })
}

/// The end of a stream with an error that the gateway is told.
pub open spec fn report(error: Fault) -> (StreamAt, StreamAct) {
    (
        StreamAt::Closed,
        StreamAct::Close {
            reply: Some(response_bytes(Err(fault_message(error)))),
            error: Some(error),
        },
    )
}

/// What follows when this much of the request has arrived.
pub open spec fn on_header(buf: Seq<u8>) -> (StreamAt, StreamAct) {
    match request_progress(buf) {
        Parsed::Need(n) => (StreamAt::Reading(buf), StreamAct::Receive(n)),
        Parsed::Done(t, _) => (StreamAt::Resolving(t), StreamAct::Resolve(route(t))),
        Parsed::Fail(e) => report(Fault::Request(e)),
    }
}

/// What the gateway is told of a target that has no address.
pub open spec fn no_addresses(t: Target) -> Seq<char> {
    "no addresses for "@ + target_display(t)
}

/// Where a stream goes from a stage on an event, and what it asks for; `None`
/// where the event is not one that the stream asked for.
pub open spec fn stream_next(at: StreamAt, event: StreamEvent) -> Option<(StreamAt, StreamAct)> {
    match (at, event) {
        (StreamAt::Reading(buf), StreamEvent::Received(data)) => if request_progress(buf)
            == Parsed::<Target, Refusal>::Need(data@.len()) {
            Some(on_header(buf + data@))
        } else {
            None
        },
        (StreamAt::Reading(_), StreamEvent::Broken(e)) => Some(abandon(Fault::Read(e@))),
        (StreamAt::Resolving(t), StreamEvent::Resolved(count)) => if count == 0 {
            Some(report(Fault::Unreachable(no_addresses(t))))
        } else {
            Some((StreamAt::Dialing { count: count as nat, index: 0 }, StreamAct::Dial(0)))
        },
        (StreamAt::Resolving(_), StreamEvent::Unresolved(e)) => Some(
            report(Fault::Unresolved(e@)),
        ),
        (StreamAt::Dialing { .. }, StreamEvent::Connected) => Some(
            (StreamAt::Reporting, StreamAct::Send(response_bytes(Ok(())))),
        ),
        (StreamAt::Dialing { count, index }, StreamEvent::Refused(e)) => if index + 1 < count {
            Some(
                (StreamAt::Dialing { count, index: index + 1 }, StreamAct::Dial(index + 1)),
            )
        } else {
            Some(report(Fault::Unreachable(e@)))
        },
        (StreamAt::Reporting, StreamEvent::Sent) => Some((StreamAt::Relaying, StreamAct::Relay)),
        (StreamAt::Reporting, StreamEvent::Broken(e)) => Some(abandon(Fault::Io(e@))),
        (StreamAt::Relaying, StreamEvent::Relayed(end)) => Some(
            (
                StreamAt::Closed,
                StreamAct::Close {
                    reply: None,
                    error: match end {
                        Some(e) => Some(Fault::Io(e@)),
                        None => None,
                    },
                },
            ),
        ),
        _ => None,
    }
}

/// A proxied connection, as the agent handles it.
#[derive(Debug)]
pub struct StreamHandler {
    stage: StreamStage,
}

fn abandoned(error: StreamError) -> (res: (StreamStage, StreamAction))
    ensures
        (res.0@, res.1@) == abandon(error@),
{
    (StreamStage::Closed, StreamAction::Close { reply: None, error: Some(error) })
}

fn reported(error: StreamError) -> (res: (StreamStage, StreamAction))
    ensures
        (res.0@, res.1@) == report(error@),
{
    let mut reply: Vec<u8> = Vec::new();
    write_proxy_response(&mut reply, Err(error.message()));
    assert(reply@ =~= response_bytes(Err(fault_message(error@))));
    (StreamStage::Closed, StreamAction::Close { reply: Some(reply), error: Some(error) })
}

fn header_step(buf: Vec<u8>) -> (res: (StreamStage, StreamAction))
    ensures
        (res.0@, res.1@) == on_header(buf@),
{
    match read_proxy_request(buf.as_slice()) {
        Progress::Need(n) => (StreamStage::Reading(buf), StreamAction::Receive(n)),
        Progress::Done(t, _) => {
            let way = t.to_socket_addrs();
            (StreamStage::Resolving(t), StreamAction::Resolve(way))
        },
        Progress::Fail(e) => reported(StreamError::Request(e)),
    }
}

impl StreamHandler {
    /// Where the stream stands.
    pub closed spec fn at(&self) -> StreamAt {
        self.stage@
    }

    /// A stream that the gateway has just opened, and what it asks for first.
    pub fn new() -> (res: (Self, StreamAction))
        ensures
            (res.0.at(), res.1@) == on_header(Seq::empty()),
    {
        let none: Vec<u8> = Vec::new();
        assert(none@ =~= Seq::<u8>::empty());
        let (stage, action) = header_step(none);
        (StreamHandler { stage }, action)
    }

    /// Whether an event is one that the stream asked for.
    pub fn accepts(&self, event: &StreamEvent) -> (res: bool)
        ensures
            res == (stream_next(self.at(), *event) is Some),
    {
        match (&self.stage, event) {
            (StreamStage::Reading(buf), StreamEvent::Received(data)) => match read_proxy_request(
                buf.as_slice(),
            ) {
                Progress::Need(n) => n == data.len(),
                _ => false,
            },
            (StreamStage::Reading(_), StreamEvent::Broken(_)) => true,
            (StreamStage::Resolving(_), StreamEvent::Resolved(_)) => true,
            (StreamStage::Resolving(_), StreamEvent::Unresolved(_)) => true,
            (StreamStage::Dialing { .. }, StreamEvent::Connected) => true,
            (StreamStage::Dialing { .. }, StreamEvent::Refused(_)) => true,
            (StreamStage::Reporting, StreamEvent::Sent) => true,
            (StreamStage::Reporting, StreamEvent::Broken(_)) => true,
            (StreamStage::Relaying, StreamEvent::Relayed(_)) => true,
            _ => false,
        }
    }

    /// Takes the stream's next step.
    pub fn step(self, event: StreamEvent) -> (res: (Self, StreamAction))
        requires
            stream_next(self.at(), event) is Some,
        ensures
            Some((res.0.at(), res.1@)) == stream_next(self.at(), event),
    {
        let (stage, action) = match (self.stage, event) {
            (StreamStage::Reading(buf), StreamEvent::Received(data)) => {
                let mut buf = buf;
                let mut data = data;
                buf.append(&mut data);
                header_step(buf)
            },
            (StreamStage::Reading(_), StreamEvent::Broken(e)) => abandoned(StreamError::Read(e)),
            (StreamStage::Resolving(t), StreamEvent::Resolved(count)) => {
                if count == 0 {
                    let mut why = "no addresses for ".to_owned();
                    why.append(t.display().as_str());
                    reported(StreamError::Unreachable(why))
                } else {
                    (StreamStage::Dialing { count, index: 0 }, StreamAction::Dial(0))
                }
            },
            (StreamStage::Resolving(_), StreamEvent::Unresolved(e)) => reported(
                StreamError::Unresolved(e),
            ),
            (StreamStage::Dialing { .. }, StreamEvent::Connected) => {
                let mut response: Vec<u8> = Vec::new();
                write_proxy_response(&mut response, Ok(()));
                assert(response@ =~= response_bytes(Ok(())));
                (StreamStage::Reporting, StreamAction::Send(response))
            },
            (StreamStage::Dialing { count, index }, StreamEvent::Refused(e)) => {
                if index < count && index + 1 < count {
                    let index = index + 1;
                    (StreamStage::Dialing { count, index }, StreamAction::Dial(index))
                } else {
                    reported(StreamError::Unreachable(e))
                }
            },
            (StreamStage::Reporting, StreamEvent::Sent) => {
                (StreamStage::Relaying, StreamAction::Relay)
            },
            (StreamStage::Reporting, StreamEvent::Broken(e)) => abandoned(StreamError::Io(e)),
            (StreamStage::Relaying, StreamEvent::Relayed(end)) => {
                let error = match end {
                    Some(e) => Some(StreamError::Io(e)),
                    None => None,
                };
                (StreamStage::Closed, StreamAction::Close { reply: None, error })
            },
            (_, _) => (StreamStage::Closed, StreamAction::Close { reply: None, error: None }),
        };
        (StreamHandler { stage }, action)
    }
}

} // verus!
