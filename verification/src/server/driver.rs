//! The driver of a provider's multiplexed connection.
//!
//! Requests to open a stream queue up in the order in which they come.  Each
//! round the driver takes in new requests, opens streams for those that wait,
//! and lets the connection process what it has received.

use std::collections::VecDeque;
use vstd::prelude::*;
use vstd::string::StringExecFns;

verus! {

/// What asking for a request to open a stream gave.
pub enum RequestPoll<T> {
    /// A request, by what its answer is sent through.
    Request(T),
    /// No request can come any more.
    Closed,
    /// No request for now.
    Pending,
}

/// What opening a stream gave.
#[derive(Debug)]
pub enum OutboundPoll {
    /// A stream is open.
    Opened,
    /// The connection has failed.
    Failed(String),
    /// No stream can be opened for now.
    Pending,
}

/// What letting the connection process its input gave.
#[derive(Debug)]
pub enum InboundPoll {
    /// A stream that the provider opened.
    Stream,
    /// The connection has failed.
    Failed(String),
    /// The connection is closed.
    Closed,
    /// Nothing for now.
    Pending,
}

/// What the driver does next.
#[derive(Debug, Clone, Copy, PartialEq, Eq, Structural)]
pub enum Next {
    /// Ask for a request.
    Requests,
    /// Open a stream.
    Outbound,
    /// Let the connection process its input.
    Inbound,
    /// Wait until there is something to do, then ask for a request.
    Wait,
    /// Stop, and answer the requests that wait with an error.
    Stop,
}

/// The answer to a request.
pub enum Answer<T> {
    /// The stream that has just been opened.
    Stream(T),
    /// An error.
    Error(T, String),
}

/// An [`Answer`] as a mathematical value.
#[verifier::ext_equal]
pub enum Reply<T> {
    Stream(T),
    Error(T, Seq<char>),
}

impl<T> View for Answer<T> {
    type V = Reply<T>;

    open spec fn view(&self) -> Reply<T> {
        match *self {
            Answer::Stream(t) => Reply::Stream(t),
            Answer::Error(t, msg) => Reply::Error(t, msg@),
        }
    }
}

impl<T> Reply<T> {
    /// The request that is answered.
    pub open spec fn request(self) -> T {
        match self {
            Reply::Stream(t) => t,
            Reply::Error(t, _) => t,
        }
    }
}

/// What happens to a driver.
pub enum DriveEvent<T> {
    Request(RequestPoll<T>),
    Outbound(OutboundPoll),
    Inbound(InboundPoll),
}

/// What a driver does about an event.
#[verifier::ext_equal]
pub struct Drive<T> {
    /// The answer to a request, if one is answered.
    pub reply: Option<Reply<T>>,
    /// The requests that wait, the oldest first.
    pub pending: Seq<T>,
    pub next: Next,
}

/// Streams are opened while requests wait; then comes the input.
pub open spec fn streams_or_input<T>(pending: Seq<T>) -> Next {
    if pending.len() > 0 {
        Next::Outbound
    } else {
        Next::Inbound
    }
}

/// What a driver with these requests does about an event.
pub open spec fn drive<T>(pending: Seq<T>, event: DriveEvent<T>) -> Drive<T> {
    match event {
        DriveEvent::Request(RequestPoll::Request(t)) => Drive {
            reply: None,
            pending: pending.push(t),
            next: Next::Requests,
        },
        DriveEvent::Request(RequestPoll::Closed) => Drive {
            reply: None,
            pending,
            next: Next::Stop,
        },
        DriveEvent::Request(RequestPoll::Pending) => Drive {
            reply: None,
            pending,
            next: streams_or_input(pending),
        },
        DriveEvent::Outbound(OutboundPoll::Opened) => Drive {
            reply: Some(Reply::Stream(pending[0])),
            pending: pending.drop_first(),
            next: streams_or_input(pending.drop_first()),
        },
        DriveEvent::Outbound(OutboundPoll::Failed(e)) => Drive {
            reply: Some(Reply::Error(pending[0], "yamux outbound: "@ + e@)),
            pending: pending.drop_first(),
            next: Next::Stop,
        },
        DriveEvent::Outbound(OutboundPoll::Pending) => Drive {
            reply: None,
            pending,
            next: Next::Inbound,
        },
        // A stream that the provider opened is ignored.
        DriveEvent::Inbound(InboundPoll::Stream) => Drive {
            reply: None,
            pending,
            next: Next::Inbound,
        },
        DriveEvent::Inbound(InboundPoll::Failed(_)) => Drive {
            reply: None,
            pending,
            next: Next::Stop,
        },
        DriveEvent::Inbound(InboundPoll::Closed) => Drive {
            reply: None,
            pending,
            next: Next::Stop,
        },
        DriveEvent::Inbound(InboundPoll::Pending) => Drive {
            reply: None,
            pending,
            next: Next::Wait,
        },
    }
}

/// The answers to the requests that wait when the driver stops.
pub open spec fn closing_replies<T>(pending: Seq<T>) -> Seq<Reply<T>> {
    Seq::new(pending.len(), |i: int| Reply::Error(pending[i], "provider connection closed"@))
}

/// The answers as mathematical values.
pub open spec fn replies<T>(answers: Seq<Answer<T>>) -> Seq<Reply<T>> {
    Seq::new(answers.len(), |i: int| answers[i]@)
}

/// The requests that wait for a stream.
pub struct Driver<T> {
    pending: VecDeque<T>,
}

impl<T> View for Driver<T> {
    type V = Seq<T>;

    /// The requests that wait, the oldest first.
    closed spec fn view(&self) -> Seq<T> {
        self.pending@
    }
}

impl<T> Driver<T> {
    /// A driver with no requests.
    pub fn new() -> (res: Self)
        ensures
            res@ == Seq::<T>::empty(),
    {
        Driver { pending: VecDeque::new() }
    }

    fn streams_or_input(&self) -> (res: Next)
        ensures
            res == streams_or_input(self@),
    {
        if self.pending.len() > 0 {
            Next::Outbound
        } else {
            Next::Inbound
        }
    }

    /// Takes in a request.
    fn on_request(&mut self, poll: RequestPoll<T>) -> (res: Next)
        ensures
            (Drive { reply: None, pending: final(self)@, next: res }) == drive(
                old(self)@,
                DriveEvent::Request(poll),
            ),
    {
        match poll {
            RequestPoll::Request(t) => {
                self.pending.push_back(t);
                Next::Requests
            },
            RequestPoll::Closed => Next::Stop,
            RequestPoll::Pending => self.streams_or_input(),
        }
    }

    /// Answers the oldest request that waits.
    fn on_outbound(&mut self, poll: OutboundPoll) -> (res: (Option<Answer<T>>, Next))
        requires
            old(self)@.len() > 0,
        ensures
            (Drive {
                reply: match res.0 {
                    Some(answer) => Some(answer@),
                    None => None,
                },
                pending: final(self)@,
                next: res.1,
            }) == drive(old(self)@, DriveEvent::Outbound(poll)),
    {
        match poll {
            OutboundPoll::Opened => {
                let t = self.pending.pop_front().unwrap();
                assert(self@ =~= old(self)@.drop_first());
                (Some(Answer::Stream(t)), self.streams_or_input())
            },
            OutboundPoll::Failed(e) => {
                let t = self.pending.pop_front().unwrap();
                assert(self@ =~= old(self)@.drop_first());
                let msg = "yamux outbound: ".to_owned().concat(e.as_str());
                (Some(Answer::Error(t, msg)), Next::Stop)
            },
            OutboundPoll::Pending => (None, Next::Inbound),
        }
    }

    /// Takes a step: answers a request, if the event allows it, and says what
    /// to do next.
    pub fn step(&mut self, event: DriveEvent<T>) -> (res: (Option<Answer<T>>, Next))
        requires
            event is Outbound ==> old(self)@.len() > 0,
        ensures
            (Drive {
                reply: match res.0 {
                    Some(answer) => Some(answer@),
                    None => None,
                },
                pending: final(self)@,
                next: res.1,
            }) == drive(old(self)@, event),
    {
        match event {
            DriveEvent::Request(poll) => (None, self.on_request(poll)),
            DriveEvent::Outbound(poll) => self.on_outbound(poll),
            DriveEvent::Inbound(InboundPoll::Stream) => (None, Next::Inbound),
            DriveEvent::Inbound(InboundPoll::Failed(_)) => (None, Next::Stop),
            DriveEvent::Inbound(InboundPoll::Closed) => (None, Next::Stop),
            DriveEvent::Inbound(InboundPoll::Pending) => (None, Next::Wait),
        }
    }

    /// Answers every request that still waits with an error.
    pub fn close(self) -> (res: Vec<Answer<T>>)
        ensures
            replies(res@) == closing_replies(self@),
    {
        let mut pending = self.pending;
        let mut answers: Vec<Answer<T>> = Vec::new();
        let ghost all = pending@;
        assert(replies(answers@) =~= closing_replies(all).take(0));
        while pending.len() > 0
            invariant
                answers@.len() + pending@.len() == all.len(),
                pending@ =~= all.skip(answers@.len() as int),
                replies(answers@) == closing_replies(all).take(answers@.len() as int),
            decreases pending@.len(),
        {
            let ghost before = answers@;
            let t = pending.pop_front().unwrap();
            answers.push(Answer::Error(t, "provider connection closed".to_owned()));
            assert(replies(answers@) =~= replies(before).push(answers@.last()@));
            assert(replies(answers@) =~= closing_replies(all).take(answers@.len() as int));
        }
        assert(closing_replies(all).take(all.len() as int) =~= closing_replies(all));
        answers
    }
}

/// Whether an event is what the driver asked for.
pub open spec fn is_due<T>(next: Next, event: DriveEvent<T>) -> bool {
    match event {
        DriveEvent::Request(_) => next == Next::Requests || next == Next::Wait,
        DriveEvent::Outbound(_) => next == Next::Outbound,
        DriveEvent::Inbound(_) => next == Next::Inbound,
    }
}

/// The answers so far, and where the driver stands, after events that each came
/// when they were due; `None` where one was not due.
pub open spec fn driven<T>(events: Seq<DriveEvent<T>>) -> Option<(Seq<Reply<T>>, Drive<T>)>
    decreases events.len(),
{
    if events.len() == 0 {
        Some((Seq::empty(), Drive { reply: None, pending: Seq::empty(), next: Next::Requests }))
    } else {
        match driven(events.drop_last()) {
            Some((sent, at)) if is_due(at.next, events.last()) => {
                let to = drive(at.pending, events.last());
                match to.reply {
                    Some(reply) => Some((sent.push(reply), to)),
                    None => Some((sent, to)),
                }
            },
            _ => None,
        }
    }
}

/// The requests among the events, in the order in which they came.
pub open spec fn requested<T>(events: Seq<DriveEvent<T>>) -> Seq<T>
    decreases events.len(),
{
    if events.len() == 0 {
        Seq::empty()
    } else {
        let before = requested(events.drop_last());
        match events.last() {
            DriveEvent::Request(RequestPoll::Request(t)) => before.push(t),
            _ => before,
        }
    }
}

/// The requests that are answered.
pub open spec fn answered<T>(sent: Seq<Reply<T>>) -> Seq<T> {
    Seq::new(sent.len(), |i: int| sent[i].request())
}

/// The driver opens a stream only while a request waits for one.
pub proof fn law_streams_are_opened_for_requests<T>(events: Seq<DriveEvent<T>>)
    ensures
        driven(events) matches Some((_, at)) ==> (at.next == Next::Outbound ==> at.pending.len()
            > 0),
    decreases events.len(),
{
    if events.len() > 0 {
        law_streams_are_opened_for_requests(events.drop_last());
    }
}

/// Every request is answered once, and the requests are answered in the order
/// in which they came: the answers so far, and those with which the driver
/// closes, answer exactly the requests.
pub proof fn law_every_request_is_answered_once<T>(events: Seq<DriveEvent<T>>)
    ensures
        driven(events) matches Some((sent, at)) ==> answered(sent + closing_replies(at.pending))
            == requested(events),
    decreases events.len(),
{
    if let Some((sent, at)) = driven(events) {
        if events.len() > 0 {
            law_every_request_is_answered_once(events.drop_last());
            law_streams_are_opened_for_requests(events.drop_last());
            let (before, from) = driven(events.drop_last())->0;
            let earlier = answered(before + closing_replies(from.pending));
            match events.last() {
                DriveEvent::Request(RequestPoll::Request(t)) => {
                    assert(answered(sent + closing_replies(at.pending)) =~= earlier.push(t));
                },
                _ => {
                    assert(answered(sent + closing_replies(at.pending)) =~= earlier);
                },
            }
        } else {
            assert(answered(sent + closing_replies(at.pending)) =~= Seq::<T>::empty());
        }
    }
}

/// How many streams were opened.
pub open spec fn streams<T>(events: Seq<DriveEvent<T>>) -> nat
    decreases events.len(),
{
    if events.len() == 0 {
        0
    } else {
        streams(events.drop_last()) + (match events.last() {
            DriveEvent::Outbound(OutboundPoll::Opened) => 1nat,
            _ => 0nat,
        })
    }
}

/// The answers before the driver closes: each stream that was opened goes to the
/// request whose turn it is, and where the last event is a failure to open one,
/// the next request is told of it.
pub open spec fn due_replies<T>(events: Seq<DriveEvent<T>>) -> Seq<Reply<T>> {
    let n = streams(events);
    let opened = Seq::new(n, |i: int| Reply::Stream(requested(events)[i]));
    if events.len() > 0 {
        match events.last() {
            DriveEvent::Outbound(OutboundPoll::Failed(e)) => opened.push(
                Reply::Error(requested(events)[n as int], "yamux outbound: "@ + e@),
            ),
            _ => opened,
        }
    } else {
        opened
    }
}

/// The requests that are answered, and those that wait, are the requests in the
/// order in which they came.
proof fn lemma_answered_then_pending<T>(events: Seq<DriveEvent<T>>)
    requires
        driven(events) is Some,
    ensures
        requested(events) == answered((driven(events)->0).0) + (driven(events)->0).1.pending,
{
    let (sent, at) = driven(events)->0;
    law_every_request_is_answered_once(events);
    assert(answered(sent + closing_replies(at.pending)) =~= answered(sent) + at.pending);
}

/// The streams are handed out in the order of the requests: the first stream
/// that is opened answers the first request, the second the second, and so on.
/// No request is answered with an error before the driver closes, but for the
/// one whose stream could not be opened; that answer is the last, and the driver
/// stops.
pub proof fn law_streams_answer_the_requests_in_order<T>(events: Seq<DriveEvent<T>>)
    requires
        driven(events) is Some,
    ensures
        (driven(events)->0).0 == due_replies(events),
        streams(events) <= requested(events).len(),
        events.len() > 0 && (events.last() matches DriveEvent::Outbound(OutboundPoll::Failed(_)))
            ==> (driven(events)->0).1.next == Next::Stop && streams(events) < requested(
            events,
        ).len(),
        events.len() > 0 && (events.last() matches DriveEvent::Outbound(OutboundPoll::Opened)) ==> (
        driven(events)->0).1.reply == Some(
            Reply::Stream(requested(events)[streams(events) - 1]),
        ),
    decreases events.len(),
{
    let (sent, at) = driven(events)->0;
    if events.len() == 0 {
        assert(sent =~= due_replies(events));
    } else {
        let before = events.drop_last();
        let (sent_before, from) = driven(before)->0;
        law_streams_answer_the_requests_in_order(before);
        law_streams_are_opened_for_requests(before);
        lemma_answered_then_pending(before);
        lemma_answered_then_pending(events);
        // A driver that has stopped is told of no event.
        assert(before.len() > 0 ==> !(before.last() matches DriveEvent::Outbound(
            OutboundPoll::Failed(_),
        )));
        assert(sent_before.len() == streams(before));
        assert(answered(sent_before).len() == streams(before));
        match events.last() {
            DriveEvent::Outbound(OutboundPoll::Opened) => {
                assert(requested(events)[streams(before) as int] == from.pending[0]);
            },
            DriveEvent::Outbound(OutboundPoll::Failed(_)) => {
                assert(requested(events)[streams(before) as int] == from.pending[0]);
            },
            _ => {},
        }
        assert(sent =~= due_replies(events));
    }
}

/// The last event that is not the connection's own input.
pub open spec fn last_poll<T>(events: Seq<DriveEvent<T>>) -> Option<DriveEvent<T>>
    decreases events.len(),
{
    if events.len() == 0 {
        None
    } else if events.last() is Inbound {
        last_poll(events.drop_last())
    } else {
        Some(events.last())
    }
}

/// The last event that is about requests.
pub open spec fn last_request<T>(events: Seq<DriveEvent<T>>) -> Option<DriveEvent<T>>
    decreases events.len(),
{
    if events.len() == 0 {
        None
    } else if events.last() is Request {
        Some(events.last())
    } else {
        last_request(events.drop_last())
    }
}

/// A driver turns to the connection's input, and waits, only when no request is
/// left to take in and none that waits could be given a stream; and it waits only
/// when there is no input either.
pub proof fn law_driver_waits_only_when_nothing_can_be_done<T>(events: Seq<DriveEvent<T>>)
    ensures
        driven(events) matches Some((_, at)) ==> {
            &&& at.next == Next::Outbound || at.next == Next::Inbound || at.next == Next::Wait
                ==> last_request(events) == Some(DriveEvent::<T>::Request(RequestPoll::Pending))
            &&& (at.next == Next::Inbound || at.next == Next::Wait) && at.pending.len() > 0
                ==> last_poll(events) == Some(DriveEvent::<T>::Outbound(OutboundPoll::Pending))
            &&& at.next == Next::Wait ==> events.len() > 0 && events.last() == DriveEvent::<
                T,
            >::Inbound(InboundPoll::Pending)
        },
    decreases events.len(),
{
    if events.len() > 0 {
        law_driver_waits_only_when_nothing_can_be_done(events.drop_last());
    }
}

/// A driver stops when no request can come any more, or the connection has failed
/// or is closed, and for no other reason; a request that comes is taken in, and
/// the next is asked for.
pub proof fn law_driver_stops_only_at_the_end<T>(pending: Seq<T>, event: DriveEvent<T>, t: T)
    ensures
        drive(pending, event).next == Next::Stop <==> (event matches DriveEvent::Request(
            RequestPoll::Closed,
        )) || (event matches DriveEvent::Outbound(OutboundPoll::Failed(_))) || (event matches
            DriveEvent::Inbound(InboundPoll::Failed(_))) || (event matches DriveEvent::Inbound(
            InboundPoll::Closed,
        )),
        drive(pending, DriveEvent::Request(RequestPoll::Request(t))) == (Drive::<T> {
            reply: None,
            pending: pending.push(t),
            next: Next::Requests,
        }),
{
}

/// When a driver closes, every request that waits is told so, in order.
pub proof fn law_waiting_requests_are_told<T>(pending: Seq<T>, i: int)
    requires
        0 <= i < pending.len(),
    ensures
        closing_replies(pending).len() == pending.len(),
        closing_replies(pending)[i] == Reply::Error(pending[i], "provider connection closed"@),
{
}

} // verus!
