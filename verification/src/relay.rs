//! The two directions of a relayed stream: what is done with the bytes read
//! from a TCP stream, and with the messages received over a WebSocket.
use crate::chunking::{
    count_off, is_piece_step, least, payload, plan, plannable, remaining_after, remaining_when,
    segmented_steps, send_binary_with_chunking, sent_bytes, step_views, write_with_chunking,
    ChunkingConfig, RelayStep, Step,
};
use crate::chunking::{
    law_pieces_are_bounded, law_pieces_count_once_sent, law_plan_sends_payload,
    lemma_sent_bytes_add,
};
use vstd::prelude::*;

verus! {

/// The most bytes that one read takes from a TCP stream.
pub const READ_BUFFER_LEN: usize = 16384;

/// The bytes that a finished stream carried in each direction.
#[derive(Clone, Copy, Debug, Default, PartialEq, Eq, Structural)]
pub struct RelayStats {
    pub up_bytes: u64,
    pub down_bytes: u64,
}

/// One direction of a stream.
#[derive(Clone, Copy, Debug)]
pub struct RelayFlow {
    chunking: ChunkingConfig,
    initial_remaining: usize,
    transferred: u64,
}

/// The mathematical value of a [`RelayFlow`].
pub struct Flow {
    /// The pieces in which the start of the stream is sent.
    pub chunking: ChunkingConfig,
    /// How many bytes are still to be sent in pieces.
    pub remaining: nat,
    /// How many bytes were carried, up to the largest `u64`.
    pub transferred: nat,
}

/// What is done with the bytes that were read from the TCP stream.
#[derive(Debug)]
pub enum UpAction<'a> {
    /// The stream has ended: close the WebSocket and stop.
    Close,
    /// Put `credit` bytes on the account of the generation, then take the steps.
    Forward { credit: u64, steps: Vec<RelayStep<'a>> },
}

/// A message that the WebSocket has received.
#[derive(Clone, Copy, Debug)]
pub enum Incoming<'a> {
    Binary(&'a [u8]),
    Text,
    Ping,
    Pong,
    Close,
    /// A frame that is no message of its own.
    Frame,
    /// There is no further message.
    End,
}

/// What is done with a message that the WebSocket has received.
#[derive(Debug)]
pub enum DownAction<'a> {
    /// Put `credit` bytes on the account of the generation, then take the steps.
    Write { credit: u64, steps: Vec<RelayStep<'a>> },
    /// The message carries no payload of the stream.
    Ignore,
    /// The stream has ended.
    Stop,
}

impl Flow {
    /// Whether the direction can carry a payload of this length: where pieces
    /// are to be sent, they hold at least one byte.
    pub open spec fn takes(self, len: nat) -> bool {
        self.chunking.chunk_size > 0 || len == 0 || self.remaining == 0
    }

    /// The direction after `data` has come in to be carried: it counts at
    /// once, whether or not it is sent.
    pub open spec fn counted(self, data: Seq<u8>) -> Flow {
        Flow {
            transferred: least(self.transferred as int + data.len(), u64::MAX as int) as nat,
            ..self
        }
    }

    /// The direction after the first `done` steps that carry `data` have been taken.
    pub open spec fn sent(self, data: Seq<u8>, flush: bool, done: nat) -> Flow {
        Flow {
            remaining: remaining_when(data, self.remaining, self.chunking, flush, done),
            ..self
        }
    }

    /// The direction after `data` has come in and has been sent in full.
    pub open spec fn carried(self, data: Seq<u8>) -> Flow {
        Flow { remaining: remaining_after(data, self.remaining), ..self.counted(data) }
    }
}

impl View for RelayFlow {
    type V = Flow;

    closed spec fn view(&self) -> Flow {
        Flow {
            chunking: self.chunking,
            remaining: self.initial_remaining as nat,
            transferred: self.transferred as nat,
        }
    }
}

impl RelayFlow {
    /// Starts a direction that has carried nothing.
    pub fn new(chunking: ChunkingConfig) -> (flow: Self)
        ensures
            flow@ == (Flow {
                chunking,
                remaining: chunking.initial_bytes as nat,
                transferred: 0,
            }),
    {
        Self { chunking, initial_remaining: chunking.initial_bytes, transferred: 0 }
    }

    /// How many bytes were carried.
    pub fn transferred(&self) -> (bytes: u64)
        ensures
            bytes == self@.transferred,
    {
        self.transferred
    }

    /// Whether a payload of `len` bytes can be carried. It cannot if it is to
    /// be cut into pieces of no length.
    pub fn can_take(&self, len: usize) -> (can: bool)
        ensures
            can == self@.takes(len as nat),
    {
        self.chunking.chunk_size > 0 || len == 0 || self.initial_remaining == 0
    }

    /// What is done with what one read took from the TCP stream. A read that
    /// takes nothing ends the stream. What came of the steps is to be reported
    /// with [`RelayFlow::on_sent`].
    pub fn on_read<'a>(&mut self, data: &'a [u8]) -> (action: UpAction<'a>)
        requires
            old(self)@.takes(data@.len()),
        ensures
            data@.len() == 0 ==> action is Close && final(self)@ == old(self)@,
            data@.len() > 0 ==> {
                &&& action matches UpAction::Forward { credit, steps }
                &&& credit == data@.len()
                &&& step_views(steps@) == plan(
                    data@,
                    old(self)@.remaining,
                    old(self)@.chunking,
                    false,
                )
                &&& final(self)@ == old(self)@.counted(data@)
            },
    {
        if data.len() == 0 {
            return UpAction::Close;
        }
        let credit: u64 = data.len() as u64;
        self.transferred = self.transferred.saturating_add(credit);
        let steps = send_binary_with_chunking(data, self.initial_remaining, self.chunking);
        UpAction::Forward { credit, steps }
    }

    /// Takes in that the first `done` of the steps that send `data` over the
    /// WebSocket were taken: all of them, or those before the one that failed.
    pub fn on_sent(&mut self, data: &[u8], done: usize)
        requires
            old(self)@.takes(data@.len()),
        ensures
            final(self)@ == old(self)@.sent(data@, false, done as nat),
    {
        count_off(data, &mut self.initial_remaining, self.chunking, false, done);
    }

    /// What is done with a message that the WebSocket has received: the
    /// payload of a binary one goes to the TCP stream, a close message or none
    /// at all ends the stream, and any other is passed over. What came of the
    /// steps is to be reported with [`RelayFlow::on_written`].
    pub fn on_message<'a>(&mut self, message: Incoming<'a>) -> (action: DownAction<'a>)
        requires
            message matches Incoming::Binary(payload) ==> old(self)@.takes(payload@.len()),
        ensures
            match message {
                Incoming::Binary(payload) => {
                    &&& action matches DownAction::Write { credit, steps }
                    &&& credit == payload@.len()
                    &&& step_views(steps@) == plan(
                        payload@,
                        old(self)@.remaining,
                        old(self)@.chunking,
                        true,
                    )
                    &&& final(self)@ == old(self)@.counted(payload@)
                },
                Incoming::Close | Incoming::End => action is Stop && final(self)@ == old(self)@,
                _ => action is Ignore && final(self)@ == old(self)@,
            },
    {
        match message {
            Incoming::Binary(payload) => {
                let credit: u64 = payload.len() as u64;
                self.transferred = self.transferred.saturating_add(credit);
                let steps = write_with_chunking(payload, self.initial_remaining, self.chunking);
                DownAction::Write { credit, steps }
            },
            Incoming::Close | Incoming::End => DownAction::Stop,
            Incoming::Text | Incoming::Ping | Incoming::Pong | Incoming::Frame => {
                DownAction::Ignore
            },
        }
    }

    /// Takes in that the first `done` of the steps that write `payload` to the
    /// TCP stream were taken: all of them, or those before the one that failed.
    pub fn on_written(&mut self, payload: &[u8], done: usize)
        requires
            old(self)@.takes(payload@.len()),
        ensures
            final(self)@ == old(self)@.sent(payload@, true, done as nat),
    {
        count_off(payload, &mut self.initial_remaining, self.chunking, true, done);
    }
}

/// What a stream comes to when both directions have ended: the bytes that they
/// carried, or the error of the one towards the WebSocket or else of the other.
pub fn relay_stats<E>(up: Result<u64, E>, down: Result<u64, E>) -> (stats: Result<RelayStats, E>)
    ensures
        stats == (match (up, down) {
            (Ok(up_bytes), Ok(down_bytes)) => Ok(RelayStats { up_bytes, down_bytes }),
            (Err(error), _) => Err(error),
            (Ok(_), Err(error)) => Err(error),
        }),
{
    match up {
        Ok(up_bytes) => match down {
            Ok(down_bytes) => Ok(RelayStats { up_bytes, down_bytes }),
            Err(error) => Err(error),
        },
        Err(error) => Err(error),
    }
}

/// The steps that carry the parts of a stream, one after the other, each taken
/// with success.
pub open spec fn carry_all(
    parts: Seq<Seq<u8>>,
    remaining: nat,
    chunking: ChunkingConfig,
    flush: bool,
) -> Seq<Step>
    decreases parts.len(),
{
    if parts.len() == 0 {
        seq![]
    } else {
        plan(parts[0], remaining, chunking, flush) + carry_all(
            parts.drop_first(),
            remaining_after(parts[0], remaining),
            chunking,
            flush,
        )
    }
}

/// A direction after it has carried the parts of a stream in full.
pub open spec fn carried_all(flow: Flow, parts: Seq<Seq<u8>>) -> Flow
    decreases parts.len(),
{
    if parts.len() == 0 {
        flow
    } else {
        carried_all(flow.carried(parts[0]), parts.drop_first())
    }
}

/// The payloads that a list of steps sends, one for each send.
pub open spec fn payloads(steps: Seq<Step>) -> Seq<Seq<u8>>
    decreases steps.len(),
{
    if steps.len() == 0 {
        seq![]
    } else {
        (match payload(steps[0]) {
            Some(bytes) => seq![bytes],
            None => seq![],
        }) + payloads(steps.drop_first())
    }
}

proof fn lemma_flatten_push_front(first: Seq<u8>, rest: Seq<Seq<u8>>)
    ensures
        (seq![first] + rest).flatten() == first + rest.flatten(),
{
    assert((seq![first] + rest).drop_first() =~= rest);
}

proof fn lemma_payloads_flatten(steps: Seq<Step>)
    ensures
        payloads(steps).flatten() == sent_bytes(steps),
    decreases steps.len(),
{
    if steps.len() > 0 {
        let rest = steps.drop_first();
        lemma_payloads_flatten(rest);
        match payload(steps[0]) {
            Some(bytes) => {
                lemma_flatten_push_front(bytes, payloads(rest));
            },
            None => {
                assert(Seq::<Seq<u8>>::empty() + payloads(rest) =~= payloads(rest));
                assert(Seq::<u8>::empty() + sent_bytes(rest) =~= sent_bytes(rest));
            },
        }
    }
}

/// One direction carries a stream unchanged, however its bytes were split
/// when they were read: what is sent, put together, is what was read, put together.
pub proof fn law_direction_carries_stream(
    parts: Seq<Seq<u8>>,
    remaining: nat,
    chunking: ChunkingConfig,
    flush: bool,
)
    requires
        chunking.chunk_size > 0 || remaining == 0 || parts.flatten().len() == 0,
    ensures
        sent_bytes(carry_all(parts, remaining, chunking, flush)) == parts.flatten(),
    decreases parts.len(),
{
    if parts.len() > 0 {
        let next = remaining_after(parts[0], remaining);
        let rest = parts.drop_first();
        assert(parts.flatten().len() == parts[0].len() + rest.flatten().len());
        law_plan_sends_payload(parts[0], remaining, chunking, flush);
        law_direction_carries_stream(rest, next, chunking, flush);
        lemma_sent_bytes_add(
            plan(parts[0], remaining, chunking, flush),
            carry_all(rest, next, chunking, flush),
        );
    }
}

/// The relay is transparent from end to end: the frames that one node makes of
/// a TCP stream, received by the other in that order, are written to its TCP
/// stream as the same bytes, whatever pieces either node cuts them into.
pub proof fn law_relay_is_transparent(
    reads: Seq<Seq<u8>>,
    sender_remaining: nat,
    sender: ChunkingConfig,
    receiver_remaining: nat,
    receiver: ChunkingConfig,
)
    requires
        sender.chunk_size > 0 || sender_remaining == 0 || reads.flatten().len() == 0,
        receiver.chunk_size > 0 || receiver_remaining == 0 || reads.flatten().len() == 0,
    ensures
        sent_bytes(
            carry_all(
                payloads(carry_all(reads, sender_remaining, sender, false)),
                receiver_remaining,
                receiver,
                true,
            ),
        ) == reads.flatten(),
{
    let frames = carry_all(reads, sender_remaining, sender, false);
    law_direction_carries_stream(reads, sender_remaining, sender, false);
    lemma_payloads_flatten(frames);
    law_direction_carries_stream(payloads(frames), receiver_remaining, receiver, true);
}

/// However a stream was split when it was read, exactly its first bytes are
/// sent in pieces, as many as were to be, and the count of what was carried is
/// the length of the stream, up to the largest `u64`.
pub proof fn law_window_and_count_follow_stream(flow: Flow, parts: Seq<Seq<u8>>)
    requires
        flow.transferred <= u64::MAX,
    ensures
        carried_all(flow, parts).chunking == flow.chunking,
        carried_all(flow, parts).remaining == remaining_after(parts.flatten(), flow.remaining),
        carried_all(flow, parts).transferred == least(
            flow.transferred as int + parts.flatten().len(),
            u64::MAX as int,
        ),
    decreases parts.len(),
{
    if parts.len() > 0 {
        law_window_and_count_follow_stream(flow.carried(parts[0]), parts.drop_first());
        assert(parts.flatten().len() == parts[0].len() + parts.drop_first().flatten().len());
    }
}

/// How many bytes are sent before the step at `index`.
pub open spec fn offset(steps: Seq<Step>, index: int) -> nat {
    sent_bytes(steps.take(index)).len()
}

/// Every send that begins within the first `window` bytes stays within them
/// and carries at most `size` bytes.
pub open spec fn pieces_in_window(steps: Seq<Step>, window: nat, size: nat) -> bool {
    forall|i: int|
        0 <= i < steps.len() && #[trigger] offset(steps, i) < window ==> (payload(steps[i]) matches Some(
            bytes,
        ) ==> bytes.len() <= size && offset(steps, i) + bytes.len() <= window)
}

proof fn lemma_offset_add(a: Seq<Step>, b: Seq<Step>, i: int)
    requires
        0 <= i <= a.len() + b.len(),
    ensures
        i <= a.len() ==> offset(a + b, i) == offset(a, i),
        i >= a.len() ==> offset(a + b, i) == sent_bytes(a).len() + offset(b, i - a.len()),
{
    if i <= a.len() {
        assert((a + b).take(i) =~= a.take(i));
    }
    if i >= a.len() {
        assert((a + b).take(i) =~= a + b.take(i - a.len()));
        lemma_sent_bytes_add(a, b.take(i - a.len()));
    }
}

proof fn lemma_offset_within(steps: Seq<Step>, i: int)
    requires
        0 <= i < steps.len(),
    ensures
        offset(steps, i) + (match payload(steps[i]) {
            Some(bytes) => bytes.len(),
            None => 0,
        }) <= sent_bytes(steps).len(),
{
    let head = steps.take(i);
    let tail = steps.skip(i);
    assert(steps =~= head + tail);
    lemma_sent_bytes_add(head, tail);
    assert(tail[0] == steps[i]);
}

proof fn lemma_plan_pieces_in_window(
    data: Seq<u8>,
    remaining: nat,
    chunking: ChunkingConfig,
    flush: bool,
)
    requires
        plannable(data, remaining, chunking),
    ensures
        pieces_in_window(
            plan(data, remaining, chunking, flush),
            remaining,
            chunking.chunk_size as nat,
        ),
{
    let steps = plan(data, remaining, chunking, flush);
    let pieces = segmented_steps(data, remaining, chunking, flush);
    let n = least(data.len() as int, remaining as int);
    law_pieces_are_bounded(data, remaining, chunking, flush);
    assert forall|i: int| 0 <= i < steps.len() && #[trigger] offset(steps, i) < remaining implies (
    payload(steps[i]) matches Some(bytes) ==> bytes.len() <= chunking.chunk_size && offset(steps, i)
        + bytes.len() <= remaining) by {
        assert(sent_bytes(pieces).len() == n);
        if i < pieces.len() {
            assert(pieces[i] == steps[i]);
            assert(is_piece_step(pieces[i], chunking.chunk_size as nat));
            assert(pieces.take(i) =~= steps.take(i));
            lemma_offset_within(pieces, i);
        } else {
            assert(steps.take(i) =~= pieces);
        }
    }
}

/// Exactly the first bytes of a stream go out in pieces, as many as were to
/// be, however the stream was split when it was read: a send that begins among
/// them carries no more than a piece and does not reach past them.
pub proof fn law_start_of_stream_goes_in_pieces(
    parts: Seq<Seq<u8>>,
    remaining: nat,
    chunking: ChunkingConfig,
    flush: bool,
)
    requires
        chunking.chunk_size > 0 || remaining == 0 || parts.flatten().len() == 0,
    ensures
        pieces_in_window(
            carry_all(parts, remaining, chunking, flush),
            remaining,
            chunking.chunk_size as nat,
        ),
    decreases parts.len(),
{
    if parts.len() > 0 && remaining > 0 {
        let next = remaining_after(parts[0], remaining);
        assert(parts.flatten().len() == parts[0].len() + parts.drop_first().flatten().len());
        let head = plan(parts[0], remaining, chunking, flush);
        let tail = carry_all(parts.drop_first(), next, chunking, flush);
        let size = chunking.chunk_size as nat;
        law_start_of_stream_goes_in_pieces(parts.drop_first(), next, chunking, flush);
        lemma_plan_pieces_in_window(parts[0], remaining, chunking, flush);
        law_plan_sends_payload(parts[0], remaining, chunking, flush);
        assert forall|i: int|
            0 <= i < (head + tail).len() && #[trigger] offset(head + tail, i) < remaining implies (
        payload((head + tail)[i]) matches Some(bytes) ==> bytes.len() <= size && offset(
            head + tail,
            i,
        ) + bytes.len() <= remaining) by {
            lemma_offset_add(head, tail, i);
            if i < head.len() {
                assert(offset(head, i) < remaining);
            } else {
                assert(offset(tail, i - head.len()) < next);
            }
        }
    }
}

/// If a stream breaks off, what was sent until then is a beginning of it.
pub proof fn law_broken_stream_sends_beginning(
    parts: Seq<Seq<u8>>,
    remaining: nat,
    chunking: ChunkingConfig,
    flush: bool,
    done: int,
)
    requires
        chunking.chunk_size > 0 || remaining == 0 || parts.flatten().len() == 0,
        0 <= done <= carry_all(parts, remaining, chunking, flush).len(),
    ensures
        sent_bytes(carry_all(parts, remaining, chunking, flush).take(done)).is_prefix_of(
            parts.flatten(),
        ),
{
    let steps = carry_all(parts, remaining, chunking, flush);
    law_direction_carries_stream(parts, remaining, chunking, flush);
    assert(steps.take(done) + steps.skip(done) =~= steps);
    lemma_sent_bytes_add(steps.take(done), steps.skip(done));
}

/// A payload that comes in and whose steps are all taken has been carried. If
/// sending it breaks off at one of its pieces, no less is left to be sent in
/// pieces than before, though the payload has been counted.
pub proof fn law_payload_is_carried_once_sent(flow: Flow, data: Seq<u8>, flush: bool, done: int)
    requires
        flow.takes(data.len()),
        0 <= done <= plan(data, flow.remaining, flow.chunking, flush).len(),
    ensures
        ({
            let steps = plan(data, flow.remaining, flow.chunking, flush);
            let after = flow.counted(data).sent(data, flush, done as nat);
            &&& done == steps.len() ==> after == flow.carried(data)
            &&& done < steps.len() && steps[done] is Send ==> after == flow.carried(data)
            &&& done < steps.len() && steps[done] !is Send ==> after == flow.counted(data)
        }),
{
    law_pieces_count_once_sent(data, flow.remaining, flow.chunking, flush, done);
}

/// A payload counts for its length as it comes in, up to the largest `u64`, and
/// steps taken count for nothing; what is left to be sent in pieces moves with
/// the steps taken alone. A direction takes a payload unless it would have to
/// cut it into pieces of no length.
pub proof fn law_flow_counts_payloads(flow: Flow, data: Seq<u8>, flush: bool, done: nat)
    ensures
        flow.takes(data.len()) <==> !(flow.chunking.chunk_size == 0 && data.len() > 0
            && flow.remaining > 0),
        flow.counted(data).chunking == flow.chunking,
        flow.counted(data).remaining == flow.remaining,
        flow.counted(data).transferred == (if flow.transferred + data.len() <= u64::MAX {
            flow.transferred + data.len()
        } else {
            u64::MAX as nat
        }),
        flow.sent(data, flush, done).chunking == flow.chunking,
        flow.sent(data, flush, done).transferred == flow.transferred,
        flow.sent(data, flush, done).remaining == remaining_when(
            data,
            flow.remaining,
            flow.chunking,
            flush,
            done,
        ),
{
}

/// What [`relay_stats`] returns: both counts, each under its own name, if both
/// directions ended well, and the first error if not.
pub proof fn law_relay_stats<E>(
    up: Result<u64, E>,
    down: Result<u64, E>,
    stats: Result<RelayStats, E>,
)
    requires
        call_ensures(relay_stats::<E>, (up, down), stats),
    ensures
        up is Ok && down is Ok ==> {
            &&& stats is Ok
            &&& stats->Ok_0.up_bytes == up->Ok_0
            &&& stats->Ok_0.down_bytes == down->Ok_0
        },
        up is Err ==> stats is Err && stats->Err_0 == up->Err_0,
        up is Ok && down is Err ==> stats is Err && stats->Err_0 == down->Err_0,
{
}

/// What [`RelayFlow::new`] returns: a direction that has carried nothing, with
/// all of the start of the stream still to be sent in pieces.
pub proof fn law_new_flow(chunking: ChunkingConfig, flow: RelayFlow)
    requires
        call_ensures(RelayFlow::new, (chunking,), flow),
    ensures
        flow@.chunking == chunking,
        flow@.remaining == chunking.initial_bytes,
        flow@.transferred == 0,
{
}

/// What [`RelayFlow::on_read`] returns and does: nothing read closes the stream,
/// and anything else is credited and counted for its length and sent in full, in
/// order, over the WebSocket, without a flush.
pub proof fn law_on_read()
    ensures
        forall|flow: &mut RelayFlow, data: &[u8], action: UpAction<'_>| #[trigger]
            call_ensures(RelayFlow::on_read, (flow, data), action) && flow@.takes(data@.len())
                ==> {
                &&& final(flow)@.chunking == flow@.chunking
                &&& final(flow)@.remaining == flow@.remaining
                &&& data@.len() == 0 ==> action is Close && final(flow)@.transferred
                    == flow@.transferred
                &&& data@.len() > 0 ==> {
                    &&& action is Forward
                    &&& action->credit == data@.len()
                    &&& sent_bytes(step_views(action->steps@)) == data@
                    &&& step_views(action->steps@) == plan(
                        data@,
                        flow@.remaining,
                        flow@.chunking,
                        false,
                    )
                    &&& flow@.transferred + data@.len() <= u64::MAX ==> final(flow)@.transferred
                        == flow@.transferred + data@.len()
                    &&& flow@.transferred + data@.len() > u64::MAX ==> final(flow)@.transferred
                        == u64::MAX
                }
            },
{
    assert forall|flow: &mut RelayFlow, data: &[u8]| flow@.takes(
        data@.len(),
    ) implies #[trigger] sent_bytes(plan(data@, flow@.remaining, flow@.chunking, false))
        == data@ by {
        law_plan_sends_payload(data@, flow@.remaining, flow@.chunking, false);
    }
}

/// What [`RelayFlow::on_message`] returns and does: the payload of a binary
/// message is credited and counted for its length and written in full, in order,
/// with each piece flushed; a close or the end stops; all else changes nothing.
pub proof fn law_on_message()
    ensures
        forall|flow: &mut RelayFlow, message: Incoming<'_>, action: DownAction<'_>| #[trigger]
            call_ensures(RelayFlow::on_message, (flow, message), action) ==> {
                &&& final(flow)@.chunking == flow@.chunking
                &&& final(flow)@.remaining == flow@.remaining
                &&& (action is Stop <==> message is Close || message is End)
                &&& (action is Write <==> message is Binary)
                &&& !(message is Binary) ==> final(flow)@.transferred == flow@.transferred
                &&& message is Binary && flow@.takes(message->Binary_0@.len()) ==> {
                    let payload = message->Binary_0@;
                    &&& action->credit == payload.len()
                    &&& sent_bytes(step_views(action->steps@)) == payload
                    &&& step_views(action->steps@) == plan(
                        payload,
                        flow@.remaining,
                        flow@.chunking,
                        true,
                    )
                    &&& flow@.transferred + payload.len() <= u64::MAX ==> final(flow)@.transferred
                        == flow@.transferred + payload.len()
                    &&& flow@.transferred + payload.len() > u64::MAX ==> final(flow)@.transferred
                        == u64::MAX
                }
            },
{
    assert forall|flow: &mut RelayFlow, data: &[u8]| flow@.takes(
        data@.len(),
    ) implies #[trigger] sent_bytes(plan(data@, flow@.remaining, flow@.chunking, true))
        == data@ by {
        law_plan_sends_payload(data@, flow@.remaining, flow@.chunking, true);
    }
}

/// What [`RelayFlow::on_sent`] and [`RelayFlow::on_written`] do, once all the
/// steps for a payload have been taken: they count its length off what is still
/// to be sent in pieces, or all of that, and leave the count of bytes alone.
pub proof fn law_on_sent_and_written()
    ensures
        forall|flow: &mut RelayFlow, data: &[u8], done: usize| #[trigger]
            call_ensures(RelayFlow::on_sent, (flow, data, done), ()) ==> {
                &&& final(flow)@.chunking == flow@.chunking
                &&& final(flow)@.transferred == flow@.transferred
                &&& flow@.takes(data@.len()) && done >= plan(
                    data@,
                    flow@.remaining,
                    flow@.chunking,
                    false,
                ).len() ==> final(flow)@.remaining == (if data@.len() >= flow@.remaining {
                    0
                } else {
                    flow@.remaining - data@.len()
                })
            },
        forall|flow: &mut RelayFlow, data: &[u8], done: usize| #[trigger]
            call_ensures(RelayFlow::on_written, (flow, data, done), ()) ==> {
                &&& final(flow)@.chunking == flow@.chunking
                &&& final(flow)@.transferred == flow@.transferred
                &&& flow@.takes(data@.len()) && done >= plan(
                    data@,
                    flow@.remaining,
                    flow@.chunking,
                    true,
                ).len() ==> final(flow)@.remaining == (if data@.len() >= flow@.remaining {
                    0
                } else {
                    flow@.remaining - data@.len()
                })
            },
{
}

/// What [`RelayFlow::transferred`] and [`RelayFlow::can_take`] return.
pub proof fn law_transferred_and_can_take()
    ensures
        forall|flow: &RelayFlow, bytes: u64| #[trigger]
            call_ensures(RelayFlow::transferred, (flow,), bytes) ==> bytes == flow@.transferred,
        forall|flow: &RelayFlow, len: usize, can: bool| #[trigger]
            call_ensures(RelayFlow::can_take, (flow, len), can) ==> (can <==> !(
            flow@.chunking.chunk_size == 0 && len > 0 && flow@.remaining > 0)),
        forall|flow: &mut RelayFlow, data: &[u8], done: usize| #[trigger]
            call_ensures(RelayFlow::on_sent, (flow, data, done), ()) ==> final(flow)@ == flow@.sent(
                data@,
                false,
                done as nat,
            ),
        forall|flow: &mut RelayFlow, data: &[u8], done: usize| #[trigger]
            call_ensures(RelayFlow::on_written, (flow, data, done), ()) ==> final(flow)@
                == flow@.sent(data@, true, done as nat),
{
}

} // verus!
