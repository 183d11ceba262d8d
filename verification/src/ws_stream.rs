//! WebSocket messages as a byte stream.
//!
//! [`WsBinary`] turns the binary messages of a WebSocket into a plain stream of
//! bytes, and the bytes that are written into binary messages.

use crate::buffers::{bytes_advance, bytes_as_slice, bytes_from, bytes_new, unread};
use bytes::Bytes;
use vstd::prelude::*;
use vstd::slice::{slice_subrange, slice_to_vec};

verus! {

/// What asking a WebSocket for its next message gave.
#[derive(Debug)]
pub enum Polled {
    /// Nothing yet.
    Pending,
    /// The WebSocket has ended.
    Ended,
    /// The WebSocket has failed.
    Failed(String),
    /// A binary message.
    Binary(Vec<u8>),
    /// A close message.
    Close,
    /// A message of another kind, which carries no bytes of the stream.
    Other,
}

/// What a reader of the stream is told.
#[derive(Debug)]
pub enum ReadStep {
    /// These are the next bytes.
    Data(Vec<u8>),
    /// The WebSocket is to be asked for its next message.
    Poll,
    /// Nothing yet.
    Pending,
    /// The stream has ended.
    Eof,
    /// The stream has failed.
    Failed(String),
}

/// A [`ReadStep`] as a mathematical value.
#[verifier::ext_equal]
pub enum Reading {
    Data(Seq<u8>),
    Poll,
    Pending,
    Eof,
    Failed(Seq<char>),
}

impl View for ReadStep {
    type V = Reading;

    open spec fn view(&self) -> Reading {
        match *self {
            ReadStep::Data(data) => Reading::Data(data@),
            ReadStep::Poll => Reading::Poll,
            ReadStep::Pending => Reading::Pending,
            ReadStep::Eof => Reading::Eof,
            ReadStep::Failed(e) => Reading::Failed(e@),
        }
    }
}

/// Hands out as many of the buffered bytes as there is room for, or asks for
/// the next message where none are buffered.
pub open spec fn drain(buffered: Seq<u8>, room: nat) -> (Reading, Seq<u8>) {
    if buffered.len() > 0 {
        let n = if room < buffered.len() {
            room as int
        } else {
            buffered.len() as int
        };
        (Reading::Data(buffered.take(n)), buffered.skip(n))
    } else {
        (Reading::Poll, buffered)
    }
}

/// What a reader with room for `room` bytes is told, and what stays buffered.
pub open spec fn read_step(buffered: Seq<u8>, room: nat, polled: Option<Polled>) -> (
    Reading,
    Seq<u8>,
) {
    match polled {
        None => drain(buffered, room),
        Some(Polled::Pending) => (Reading::Pending, buffered),
        Some(Polled::Ended) => (Reading::Eof, buffered),
        Some(Polled::Failed(e)) => (Reading::Failed(e@), buffered),
        Some(Polled::Binary(data)) => drain(data@, room),
        Some(Polled::Close) => (Reading::Eof, buffered),
        Some(Polled::Other) => drain(buffered, room),
    }
}

/// Whether a WebSocket can take a message.
#[derive(Debug)]
pub enum Readiness {
    Pending,
    Failed(String),
    Ready,
}

/// What is to be done with bytes that are written.
#[derive(Debug)]
pub enum WriteStep {
    /// Nothing yet.
    Pending,
    /// The write has failed.
    Failed(String),
    /// This binary message is to be sent.
    Send(Vec<u8>),
}

/// A [`WriteStep`] as a mathematical value.
#[verifier::ext_equal]
pub enum Writing {
    Pending,
    Failed(Seq<char>),
    Send(Seq<u8>),
}

impl View for WriteStep {
    type V = Writing;

    open spec fn view(&self) -> Writing {
        match *self {
            WriteStep::Pending => Writing::Pending,
            WriteStep::Failed(e) => Writing::Failed(e@),
            WriteStep::Send(msg) => Writing::Send(msg@),
        }
    }
}

/// What is to be done with bytes that are written.
pub open spec fn write_step(bytes: Seq<u8>, ready: Readiness) -> Writing {
    match ready {
        Readiness::Pending => Writing::Pending,
        Readiness::Failed(e) => Writing::Failed(e@),
        Readiness::Ready => Writing::Send(bytes),
    }
}

/// The stream's side of a WebSocket: the bytes of the current message that have
/// not been read yet.
pub struct WsBinary {
    read_buf: Bytes,
}

impl View for WsBinary {
    type V = Seq<u8>;

    /// The buffered bytes.
    closed spec fn view(&self) -> Seq<u8> {
        unread(self.read_buf)
    }
}

impl WsBinary {
    /// A stream of which nothing is buffered.
    pub fn new() -> (res: Self)
        ensures
            res@ == Seq::<u8>::empty(),
    {
        WsBinary { read_buf: bytes_new() }
    }

    /// Takes the next step of reading: `polled` is what the WebSocket gave
    /// after the last step asked to poll it.
    pub fn poll_read(&mut self, room: usize, polled: Option<Polled>) -> (res: ReadStep)
        requires
            polled is Some ==> old(self)@.len() == 0,
        ensures
            (res@, final(self)@) == read_step(old(self)@, room as nat, polled),
    {
        match polled {
            Some(Polled::Pending) => return ReadStep::Pending,
            Some(Polled::Ended) => return ReadStep::Eof,
            Some(Polled::Failed(e)) => return ReadStep::Failed(e),
            Some(Polled::Close) => return ReadStep::Eof,
            Some(Polled::Binary(data)) => {
                self.read_buf = bytes_from(data);
            },
            Some(Polled::Other) => {},
            None => {},
        }
        let buffered = bytes_as_slice(&self.read_buf);
        if buffered.is_empty() {
            return ReadStep::Poll;
        }
        let n: usize = if room < buffered.len() {
            room
        } else {
            buffered.len()
        };
        let data = slice_to_vec(slice_subrange(buffered, 0, n));
        assert(data@ =~= self@.take(n as int));
        bytes_advance(&mut self.read_buf, n);
        ReadStep::Data(data)
    }

    /// Takes the bytes that are written as one binary message, once the
    /// WebSocket can take a message.
    pub fn poll_write(&self, buf: &[u8], ready: Readiness) -> (res: WriteStep)
        ensures
            res@ == write_step(buf@, ready),
            match ready {
                Readiness::Pending => res is Pending,
                Readiness::Failed(e) => res == WriteStep::Failed(e),
                Readiness::Ready => res matches WriteStep::Send(msg) && msg@ == buf@,
            },
    {
        match ready {
            Readiness::Pending => WriteStep::Pending,
            Readiness::Failed(e) => WriteStep::Failed(e),
            Readiness::Ready => WriteStep::Send(slice_to_vec(buf)),
        }
    }

    /// What the writer is told after the message has been handed over: all
    /// bytes were written, or the error.
    pub fn written(&self, buf: &[u8], sent: Result<(), String>) -> (res: Result<usize, String>)
        ensures
            match sent {
                Ok(()) => res == Ok::<usize, String>(buf@.len() as usize),
                Err(e) => res == Err::<usize, String>(e),
            },
    {
        match sent {
            Ok(()) => Ok(buf.len()),
            Err(e) => Err(e),
        }
    }
}

/// One step of reading: the room there is, and what the WebSocket gave.
pub struct ReadInput {
    pub room: nat,
    pub polled: Option<Polled>,
}

/// The bytes that a binary message brings.
pub open spec fn arrived(polled: Option<Polled>) -> Seq<u8> {
    match polled {
        Some(Polled::Binary(data)) => data@,
        _ => Seq::empty(),
    }
}

/// The bytes of all the binary messages that came.
pub open spec fn all_arrived(inputs: Seq<ReadInput>) -> Seq<u8>
    decreases inputs.len(),
{
    if inputs.len() == 0 {
        Seq::empty()
    } else {
        all_arrived(inputs.drop_last()) + arrived(inputs.last().polled)
    }
}

/// The bytes handed out, and those still buffered, after the steps; `None`
/// where a message was asked for while bytes were buffered.
pub open spec fn read_all(inputs: Seq<ReadInput>) -> Option<(Seq<u8>, Seq<u8>)>
    decreases inputs.len(),
{
    if inputs.len() == 0 {
        Some((Seq::empty(), Seq::empty()))
    } else {
        match read_all(inputs.drop_last()) {
            None => None,
            Some((out, buffered)) => {
                let input = inputs.last();
                if input.polled is Some && buffered.len() > 0 {
                    None
                } else {
                    let (reading, rest) = read_step(buffered, input.room, input.polled);
                    match reading {
                        Reading::Data(data) => Some((out + data, rest)),
                        _ => Some((out, rest)),
                    }
                }
            },
        }
    }
}

/// The stream is the payloads of the binary messages, one after the other:
/// what has been handed out and what is buffered make up all that arrived, with
/// nothing lost, repeated or out of order.
pub proof fn law_stream_is_the_payloads(inputs: Seq<ReadInput>)
    ensures
        read_all(inputs) matches Some((out, buffered)) ==> out + buffered == all_arrived(inputs),
    decreases inputs.len(),
{
    if inputs.len() > 0 {
        law_stream_is_the_payloads(inputs.drop_last());
        if let Some((out, buffered)) = read_all(inputs.drop_last()) {
            let input = inputs.last();
            if !(input.polled is Some && buffered.len() > 0) {
                let (reading, rest) = read_step(buffered, input.room, input.polled);
                let here = buffered + arrived(input.polled);
                match reading {
                    Reading::Data(data) => {
                        assert(data + rest =~= here);
                        assert((out + data) + rest =~= out + here);
                    },
                    _ => {
                        assert(rest =~= here);
                        assert(out + rest =~= out + here);
                    },
                }
                assert(out + here =~= (out + buffered) + arrived(input.polled));
            }
        }
    }
}

/// The payloads of the binary messages that came, in order.
pub open spec fn messages(inputs: Seq<ReadInput>) -> Seq<Seq<u8>>
    decreases inputs.len(),
{
    if inputs.len() == 0 {
        Seq::empty()
    } else {
        let before = messages(inputs.drop_last());
        match inputs.last().polled {
            Some(Polled::Binary(data)) => before.push(data@),
            _ => before,
        }
    }
}

/// Pieces one after the other.
pub open spec fn joined(pieces: Seq<Seq<u8>>) -> Seq<u8>
    decreases pieces.len(),
{
    if pieces.len() == 0 {
        Seq::empty()
    } else {
        joined(pieces.drop_last()) + pieces.last()
    }
}

proof fn lemma_arrived_is_joined(inputs: Seq<ReadInput>)
    ensures
        all_arrived(inputs) == joined(messages(inputs)),
    decreases inputs.len(),
{
    if inputs.len() > 0 {
        lemma_arrived_is_joined(inputs.drop_last());
        let before = messages(inputs.drop_last());
        match inputs.last().polled {
            Some(Polled::Binary(data)) => {
                assert(before.push(data@).drop_last() =~= before);
            },
            _ => {
                assert(all_arrived(inputs) =~= all_arrived(inputs.drop_last()));
            },
        }
    }
}

/// What one side writes, the other reads: where the binary messages that come
/// are the pieces that were written, the bytes read and those buffered are the
/// bytes written, whatever their sizes.
pub proof fn law_written_bytes_are_read(writes: Seq<Seq<u8>>, inputs: Seq<ReadInput>)
    requires
        messages(inputs) == writes,
    ensures
        read_all(inputs) matches Some((out, buffered)) ==> out + buffered == joined(writes),
{
    law_stream_is_the_payloads(inputs);
    lemma_arrived_is_joined(inputs);
}

/// A reader is told the end of the stream only when the WebSocket has ended or
/// sent a close message, a failure only when it has failed, and to wait only
/// when it gave nothing; and then it is told.
pub proof fn law_end_is_told_at_the_end(buffered: Seq<u8>, room: nat, polled: Option<Polled>)
    ensures
        read_step(buffered, room, polled).0 == Reading::Eof <==> polled == Some(Polled::Ended)
            || polled == Some(Polled::Close),
        read_step(buffered, room, polled).0 == Reading::Pending <==> polled == Some(
            Polled::Pending,
        ),
        forall|e: String|
            polled == Some(Polled::Failed(e)) ==> #[trigger] read_step(buffered, room, polled).0
                == Reading::Failed(e@),
        read_step(buffered, room, polled).0 is Failed ==> (polled matches Some(Polled::Failed(_))),
{
}

/// The bytes that can be handed out: those that are buffered and those that have
/// just arrived.
pub open spec fn available(buffered: Seq<u8>, polled: Option<Polled>) -> Seq<u8> {
    buffered + arrived(polled)
}

/// While bytes are buffered or have just arrived, a step hands out the first of
/// them, as many as there is room for, and keeps the others; the next message is
/// asked for only when there are none.
pub proof fn law_available_bytes_are_handed_out(
    buffered: Seq<u8>,
    room: nat,
    polled: Option<Polled>,
)
    requires
        polled is Some ==> buffered.len() == 0,
        polled is None || polled == Some(Polled::Other) || (polled matches Some(Polled::Binary(_))),
    ensures
        ({
            let bytes = available(buffered, polled);
            let (reading, rest) = read_step(buffered, room, polled);
            &&& bytes.len() == 0 ==> reading == Reading::Poll && rest.len() == 0
            &&& bytes.len() > 0 ==> (reading matches Reading::Data(data) && (data.len() == room
                || data.len() == bytes.len()) && data.len() <= room && data.len() <= bytes.len()
                && data + rest == bytes)
        }),
{
    let bytes = available(buffered, polled);
    let (reading, rest) = read_step(buffered, room, polled);
    if polled is Some {
        assert(bytes =~= arrived(polled));
    } else {
        assert(bytes =~= buffered);
    }
    if let Reading::Data(data) = reading {
        assert(data + rest =~= bytes);
    }
}

/// Whether a reader reads on, with room each time, without asking for a message.
pub open spec fn reads_on(inputs: Seq<ReadInput>) -> bool {
    forall|i: int|
        0 <= i < inputs.len() ==> (#[trigger] inputs[i]).polled is None && inputs[i].room > 0
}

/// A reader that reads on, with room each time, gets all that has arrived: each
/// step takes it further, until nothing is buffered.
pub proof fn law_reading_on_hands_out_everything(inputs: Seq<ReadInput>, more: Seq<ReadInput>)
    requires
        read_all(inputs) is Some,
        reads_on(more),
    ensures
        ({
            let (_, buffered) = read_all(inputs)->0;
            &&& read_all(inputs + more) matches Some((out, left))
            &&& out + left == all_arrived(inputs)
            &&& more.len() >= buffered.len() ==> out == all_arrived(inputs) && left.len() == 0
            &&& more.len() < buffered.len() ==> left.len() <= buffered.len() - more.len()
        }),
    decreases more.len(),
{
    law_stream_is_the_payloads(inputs);
    if more.len() == 0 {
        assert(inputs + more =~= inputs);
        let (out, left) = read_all(inputs)->0;
        if left.len() == 0 {
            assert(out =~= out + left);
        }
    } else {
        let fewer = more.drop_last();
        assert(reads_on(fewer)) by {
            assert forall|i: int| 0 <= i < fewer.len() implies (#[trigger] fewer[i]).polled is None
                && fewer[i].room > 0 by {
                assert(fewer[i] == more[i]);
            }
        }
        law_reading_on_hands_out_everything(inputs, fewer);
        assert((inputs + more).drop_last() =~= inputs + fewer);
        let input = more[more.len() - 1];
        assert((inputs + more).last() == input);
        let (out, left) = read_all(inputs + fewer)->0;
        law_available_bytes_are_handed_out(left, input.room, None);
        assert(available(left, None) =~= left);
        let (reading, rest) = read_step(left, input.room, None);
        if let Reading::Data(data) = reading {
            assert((out + data) + rest =~= out + left);
            if rest.len() == 0 {
                assert((out + data) + rest =~= out + data);
            }
        } else {
            assert(out + rest =~= out);
        }
    }
}

/// What is written goes out whole, as one message, as soon as the WebSocket can
/// take one; and a reader at the other end gets the same bytes.
pub proof fn law_write_is_one_message(bytes: Seq<u8>, ready: Readiness, msg: Vec<u8>, room: nat)
    ensures
        ready is Ready <==> write_step(bytes, ready) is Send,
        ready is Pending <==> write_step(bytes, ready) is Pending,
        write_step(bytes, ready) == Writing::Send(msg@) ==> arrived(Some(Polled::Binary(msg)))
            == bytes,
        write_step(bytes, ready) == Writing::Send(msg@) && bytes.len() > 0 && room >= bytes.len()
            ==> read_step(Seq::empty(), room, Some(Polled::Binary(msg))).0 == Reading::Data(bytes),
{
    if room >= msg@.len() && msg@.len() > 0 {
        law_available_bytes_are_handed_out(Seq::empty(), room, Some(Polled::Binary(msg)));
        assert(available(Seq::empty(), Some(Polled::Binary(msg))) =~= msg@);
        let (reading, rest) = read_step(Seq::empty(), room, Some(Polled::Binary(msg)));
        assert(reading->Data_0 + rest =~= reading->Data_0);
    }
}

} // verus!
