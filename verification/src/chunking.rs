//! How a payload is cut into pieces before it leaves the relay.
//!
//! The first bytes of a stream are sent in small pieces, each followed by a
//! pause; everything after that goes out whole. [`send_binary_with_chunking`]
//! plans the WebSocket side and [`write_with_chunking`] the TCP side; once the
//! steps have been taken, or one has failed, [`count_off`] says how much of the
//! start is still to be sent in pieces. [`InitialSegmenter`] bounds the plain
//! writes on the socket under the TLS session to the edge.
use vstd::prelude::*;
use vstd::slice::slice_subrange;

verus! {

/// The pieces in which the first bytes of a stream are sent.
#[derive(Clone, Copy, Debug, PartialEq, Eq, Structural)]
pub struct ChunkingConfig {
    /// How many bytes at the start of a stream are sent in pieces.
    pub initial_bytes: usize,
    /// The length of a piece.
    pub chunk_size: usize,
    /// The pause after a piece, in milliseconds; 0 for none.
    pub chunk_delay_ms: u64,
}

/// One thing to do with the writing end of a stream.
#[derive(Debug)]
pub enum RelayStep<'a> {
    /// Send this piece of the start of a stream: one binary frame on a
    /// WebSocket, one complete write on a TCP stream.
    Piece(&'a [u8]),
    /// Send these bytes, which need not go in pieces, in the same way.
    Send(&'a [u8]),
    /// Flush what was written.
    Flush,
    /// Wait for this many milliseconds.
    Pause(u64),
}

/// The mathematical value of a [`RelayStep`].
pub enum Step {
    Piece(Seq<u8>),
    Send(Seq<u8>),
    Flush,
    Pause(u64),
}

impl<'a> View for RelayStep<'a> {
    type V = Step;

    open spec fn view(&self) -> Step {
        match self {
            RelayStep::Piece(bytes) => Step::Piece(bytes@),
            RelayStep::Send(bytes) => Step::Send(bytes@),
            RelayStep::Flush => Step::Flush,
            RelayStep::Pause(millis) => Step::Pause(*millis),
        }
    }
}

/// The mathematical value of a list of steps.
pub open spec fn step_views<'a>(steps: Seq<RelayStep<'a>>) -> Seq<Step> {
    steps.map_values(|step: RelayStep<'a>| step@)
}

/// The smaller of two numbers.
pub open spec fn least(a: int, b: int) -> int {
    if a <= b {
        a
    } else {
        b
    }
}

/// What is done for one piece: it is sent, flushed where the stream buffers
/// its writes, and followed by the pause, if there is one.
pub open spec fn piece_steps(piece: Seq<u8>, delay_ms: u64, flush: bool) -> Seq<Step> {
    seq![Step::Piece(piece)] + (if flush {
        seq![Step::Flush]
    } else {
        seq![]
    }) + (if delay_ms != 0 {
        seq![Step::Pause(delay_ms)]
    } else {
        seq![]
    })
}

/// The steps that send `data` in pieces of `size` bytes, the last of which may be shorter.
pub open spec fn segment_steps(data: Seq<u8>, size: nat, delay_ms: u64, flush: bool) -> Seq<Step>
    decreases data.len(),
{
    if data.len() == 0 || size == 0 {
        seq![]
    } else {
        let n = least(size as int, data.len() as int);
        piece_steps(data.take(n), delay_ms, flush) + segment_steps(
            data.skip(n),
            size,
            delay_ms,
            flush,
        )
    }
}

/// The steps that send in pieces what of `data` is to be sent so, when
/// `remaining` bytes of the stream's start still are.
pub open spec fn segmented_steps(
    data: Seq<u8>,
    remaining: nat,
    chunking: ChunkingConfig,
    flush: bool,
) -> Seq<Step> {
    segment_steps(
        data.take(least(data.len() as int, remaining as int)),
        chunking.chunk_size as nat,
        chunking.chunk_delay_ms,
        flush,
    )
}

/// The steps that send `data` when `remaining` bytes of the stream's start are
/// still to be sent in pieces: those bytes in pieces, and the rest whole.
pub open spec fn plan(
    data: Seq<u8>,
    remaining: nat,
    chunking: ChunkingConfig,
    flush: bool,
) -> Seq<Step> {
    if remaining < data.len() {
        segmented_steps(data, remaining, chunking, flush).push(
            Step::Send(data.skip(remaining as int)),
        )
    } else {
        segmented_steps(data, remaining, chunking, flush)
    }
}

/// How many bytes are still to be sent in pieces once `data` has been sent.
pub open spec fn remaining_after(data: Seq<u8>, remaining: nat) -> nat {
    (remaining - least(data.len() as int, remaining as int)) as nat
}

/// How many bytes are still to be sent in pieces once the first `done` steps
/// of the plan for `data` have been taken: the pieces count when the last of
/// them is done with, and not before.
pub open spec fn remaining_when(
    data: Seq<u8>,
    remaining: nat,
    chunking: ChunkingConfig,
    flush: bool,
    done: nat,
) -> nat {
    if done >= segmented_steps(data, remaining, chunking, flush).len() {
        remaining_after(data, remaining)
    } else {
        remaining
    }
}

/// Whether `data` can be planned: where there are pieces to send, they hold at
/// least one byte.
pub open spec fn plannable(data: Seq<u8>, remaining: nat, chunking: ChunkingConfig) -> bool {
    chunking.chunk_size > 0 || data.len() == 0 || remaining == 0
}

/// Whether a step is one for pieces of at most `size` bytes: the piece itself,
/// which is not empty, or what follows it.
pub open spec fn is_piece_step(step: Step, size: nat) -> bool {
    match step {
        Step::Piece(piece) => 1 <= piece.len() <= size,
        Step::Send(_) => false,
        Step::Flush => true,
        Step::Pause(_) => true,
    }
}

/// The bytes that a step sends, if it is one that does.
pub open spec fn payload(step: Step) -> Option<Seq<u8>> {
    match step {
        Step::Piece(bytes) => Some(bytes),
        Step::Send(bytes) => Some(bytes),
        Step::Flush => None,
        Step::Pause(_) => None,
    }
}

/// The bytes that a list of steps sends, in order.
pub open spec fn sent_bytes(steps: Seq<Step>) -> Seq<u8>
    decreases steps.len(),
{
    if steps.len() == 0 {
        seq![]
    } else {
        (match payload(steps[0]) {
            Some(bytes) => bytes,
            None => seq![],
        }) + sent_bytes(steps.drop_first())
    }
}

impl ChunkingConfig {
    /// A payload is sent whole: no byte is sent in pieces.
    pub fn disabled() -> (config: Self)
        ensures
            config.initial_bytes == 0,
            config.chunk_size == 0,
            config.chunk_delay_ms == 0,
    {
        Self { initial_bytes: 0, chunk_size: 0, chunk_delay_ms: 0 }
    }
}

/// How many of `total` bytes are sent in pieces.
fn in_pieces(total: usize, initial_remaining: usize) -> (len: usize)
    ensures
        len == least(total as int, initial_remaining as int),
{
    if total <= initial_remaining {
        total
    } else {
        initial_remaining
    }
}

/// Where the piece that begins at `start` ends.
fn piece_end(start: usize, segmented: usize, chunk_size: usize) -> (end: usize)
    requires
        start < segmented,
    ensures
        end == start + least(chunk_size as int, segmented - start),
{
    if segmented - start <= chunk_size {
        segmented
    } else {
        start + chunk_size
    }
}

/// The steps that send `data`.
fn plan_steps<'a>(
    data: &'a [u8],
    initial_remaining: usize,
    chunking: ChunkingConfig,
    flush: bool,
) -> (steps: Vec<RelayStep<'a>>)
    requires
        plannable(data@, initial_remaining as nat, chunking),
    ensures
        step_views(steps@) == plan(data@, initial_remaining as nat, chunking, flush),
{
    let mut steps: Vec<RelayStep<'a>> = Vec::new();
    let total: usize = data.len();
    let segmented_len: usize = in_pieces(total, initial_remaining);
    let ghost segmented = data@.take(segmented_len as int);
    let ghost size = chunking.chunk_size as nat;
    let ghost delay = chunking.chunk_delay_ms;
    let mut start: usize = 0;
    assert(segmented.skip(0) == segmented);
    assert(step_views(steps@) =~= seq![]);
    while start < segmented_len
        invariant
            start <= segmented_len <= total == data@.len(),
            segmented_len > 0 ==> chunking.chunk_size > 0,
            segmented == data@.take(segmented_len as int),
            size == chunking.chunk_size,
            delay == chunking.chunk_delay_ms,
            step_views(steps@) + segment_steps(segmented.skip(start as int), size, delay, flush)
                == segment_steps(segmented, size, delay, flush),
        decreases segmented_len - start,
    {
        let end: usize = piece_end(start, segmented_len, chunking.chunk_size);
        let ghost before = step_views(steps@);
        let piece = slice_subrange(data, start, end);
        steps.push(RelayStep::Piece(piece));
        if flush {
            steps.push(RelayStep::Flush);
        }
        if chunking.chunk_delay_ms != 0 {
            steps.push(RelayStep::Pause(chunking.chunk_delay_ms));
        }
        proof {
            let rest = segmented.skip(start as int);
            assert(piece@ =~= rest.take(end - start));
            assert(rest.skip(end - start) =~= segmented.skip(end as int));
            assert(step_views(steps@) =~= before + piece_steps(piece@, delay, flush));
            assert(step_views(steps@) + segment_steps(segmented.skip(end as int), size, delay, flush)
                =~= before + segment_steps(rest, size, delay, flush));
        }
        start = end;
    }
    proof {
        assert(segmented.skip(segmented_len as int) =~= seq![]);
        assert(step_views(steps@) =~= segmented_steps(
            data@,
            initial_remaining as nat,
            chunking,
            flush,
        ));
    }
    if segmented_len < total {
        let ghost before = step_views(steps@);
        let rest = slice_subrange(data, segmented_len, total);
        steps.push(RelayStep::Send(rest));
        proof {
            assert(rest@ =~= data@.skip(segmented_len as int));
            assert(step_views(steps@) =~= before.push(Step::Send(rest@)));
        }
    }
    steps
}

/// Plans the binary frames that carry `data` over a WebSocket, when
/// `initial_remaining` bytes of the stream's start are still to be sent in pieces.
pub fn send_binary_with_chunking<'a>(
    data: &'a [u8],
    initial_remaining: usize,
    chunking: ChunkingConfig,
) -> (steps: Vec<RelayStep<'a>>)
    requires
        plannable(data@, initial_remaining as nat, chunking),
    ensures
        step_views(steps@) == plan(data@, initial_remaining as nat, chunking, false),
{
    plan_steps(data, initial_remaining, chunking, false)
}

/// Plans the writes that put `data` on a TCP stream, each piece flushed, when
/// `initial_remaining` bytes of the stream's start are still to be sent in pieces.
pub fn write_with_chunking<'a>(
    data: &'a [u8],
    initial_remaining: usize,
    chunking: ChunkingConfig,
) -> (steps: Vec<RelayStep<'a>>)
    requires
        plannable(data@, initial_remaining as nat, chunking),
    ensures
        step_views(steps@) == plan(data@, initial_remaining as nat, chunking, true),
{
    plan_steps(data, initial_remaining, chunking, true)
}

/// Counts off the bytes of `data` that were to be sent in pieces, if the steps
/// that do so are among the first `done` of its plan, which have been taken. If
/// one of them failed, nothing is counted off.
pub fn count_off(
    data: &[u8],
    initial_remaining: &mut usize,
    chunking: ChunkingConfig,
    flush: bool,
    done: usize,
)
    requires
        plannable(data@, *old(initial_remaining) as nat, chunking),
    ensures
        *final(initial_remaining) == remaining_when(
            data@,
            *old(initial_remaining) as nat,
            chunking,
            flush,
            done as nat,
        ),
{
    let segmented_len: usize = in_pieces(data.len(), *initial_remaining);
    let ghost segmented = data@.take(segmented_len as int);
    let ghost size = chunking.chunk_size as nat;
    let ghost delay = chunking.chunk_delay_ms;
    let per_piece: usize = if flush && chunking.chunk_delay_ms != 0 {
        3
    } else if flush || chunking.chunk_delay_ms != 0 {
        2
    } else {
        1
    };
    let mut start: usize = 0;
    let mut left: usize = done;
    assert(segmented.skip(0) == segmented);
    while start < segmented_len
        invariant
            start <= segmented_len <= data@.len(),
            left <= done,
            segmented_len > 0 ==> chunking.chunk_size > 0,
            segmented == data@.take(segmented_len as int),
            size == chunking.chunk_size,
            delay == chunking.chunk_delay_ms,
            per_piece == piece_steps(seq![], delay, flush).len(),
            segment_steps(segmented, size, delay, flush).len() == done - left + segment_steps(
                segmented.skip(start as int),
                size,
                delay,
                flush,
            ).len(),
            segmented_len == least(data@.len() as int, *initial_remaining as int),
            *initial_remaining == *old(initial_remaining),
        decreases segmented_len - start,
    {
        let end: usize = piece_end(start, segmented_len, chunking.chunk_size);
        proof {
            let rest = segmented.skip(start as int);
            assert(rest.skip(end - start) =~= segmented.skip(end as int));
            assert(piece_steps(rest.take(end - start), delay, flush).len() == per_piece);
        }
        if left < per_piece {
            return;
        }
        left = left - per_piece;
        start = end;
    }
    assert(segmented.skip(segmented_len as int) =~= seq![]);
    *initial_remaining = *initial_remaining - segmented_len;
}

/// The plain writes of a stream whose start is written in small pieces.
///
/// A plain write of a single buffer asks this type first: as long as fewer than
/// `segmented_limit` bytes have been written, it takes no more than
/// `segmented_chunk_size` bytes of the buffer and does not reach past the
/// limit. After that it takes the whole buffer. Vectored writes are not bounded
/// by it, nor counted.
#[derive(Clone, Copy, Debug, PartialEq, Eq, Structural)]
pub struct InitialSegmenter {
    segmented_limit: usize,
    segmented_chunk_size: usize,
    bytes_written: usize,
}

/// The mathematical value of an [`InitialSegmenter`].
pub struct Segments {
    /// How many bytes at the start of the stream are written in pieces.
    pub limit: nat,
    /// The most bytes that one write takes there.
    pub chunk_size: nat,
    /// How many bytes have been written, up to the largest `usize`.
    pub written: nat,
}

/// One write: how many bytes there were to write, and how many of those that
/// the write took were accepted by the stream.
pub struct Write {
    pub available: nat,
    pub accepted: nat,
}

impl Segments {
    /// A piece holds at least one byte, and the counts are machine integers.
    pub open spec fn valid(self) -> bool {
        &&& self.chunk_size >= 1
        &&& self.limit <= usize::MAX
        &&& self.written <= usize::MAX
    }

    /// How many of `available` bytes the next write takes.
    pub open spec fn next_len(self, available: nat) -> nat {
        if self.written < self.limit {
            least(
                available as int,
                least(self.chunk_size as int, self.limit - self.written),
            ) as nat
        } else {
            available
        }
    }

    /// The state after a write of which `accepted` bytes were accepted.
    pub open spec fn recorded(self, accepted: nat) -> Segments {
        Segments {
            written: least(self.written as int + accepted, usize::MAX as int) as nat,
            ..self
        }
    }

    /// The state after some writes, one after the other.
    pub open spec fn after(self, writes: Seq<Write>) -> Segments
        decreases writes.len(),
    {
        if writes.len() == 0 {
            self
        } else {
            self.after(writes.drop_last()).recorded(writes.last().accepted)
        }
    }
}

/// How many bytes were accepted in some writes together.
pub open spec fn accepted_total(writes: Seq<Write>) -> nat
    decreases writes.len(),
{
    if writes.len() == 0 {
        0
    } else {
        accepted_total(writes.drop_last()) + writes.last().accepted
    }
}

impl View for InitialSegmenter {
    type V = Segments;

    closed spec fn view(&self) -> Segments {
        Segments {
            limit: self.segmented_limit as nat,
            chunk_size: self.segmented_chunk_size as nat,
            written: self.bytes_written as nat,
        }
    }
}

impl InitialSegmenter {
    /// Starts a stream. A chunk size of 0 stands for 1.
    pub fn new(segmented_limit: usize, segmented_chunk_size: usize) -> (segmenter: Self)
        ensures
            segmenter@.valid(),
            segmenter@ == (Segments {
                limit: segmented_limit as nat,
                chunk_size: if segmented_chunk_size == 0 {
                    1
                } else {
                    segmented_chunk_size as nat
                },
                written: 0,
            }),
    {
        Self {
            segmented_limit,
            segmented_chunk_size: if segmented_chunk_size == 0 {
                1
            } else {
                segmented_chunk_size
            },
            bytes_written: 0,
        }
    }

    /// How many bytes of a buffer of `available` bytes the next write takes.
    pub fn write_len(&self, available: usize) -> (len: usize)
        ensures
            len == self@.next_len(available as nat),
    {
        let mut len: usize = available;
        if self.bytes_written < self.segmented_limit {
            let remaining: usize = self.segmented_limit - self.bytes_written;
            if self.segmented_chunk_size < len {
                len = self.segmented_chunk_size;
            }
            if remaining < len {
                len = remaining;
            }
        }
        len
    }

    /// Counts the bytes that the stream under this one has accepted.
    pub fn record_written(&mut self, written: usize)
        ensures
            final(self)@ == old(self)@.recorded(written as nat),
    {
        self.bytes_written = self.bytes_written.saturating_add(written);
    }
}

/// A write takes some of the buffer and never more than it holds; while the
/// limit has not been reached it takes no more than a piece and does not reach
/// past the limit, and after that it takes the whole buffer.
pub proof fn law_writes_stay_in_window(state: Segments, available: nat)
    requires
        state.valid(),
    ensures
        state.next_len(available) <= available,
        available > 0 ==> state.next_len(available) > 0,
        state.written < state.limit ==> {
            &&& state.next_len(available) <= state.chunk_size
            &&& state.written + state.next_len(available) <= state.limit
        },
        state.written >= state.limit ==> state.next_len(available) == available,
{
}

/// The limit and the pieces stay what they were, and the count is that of the
/// bytes accepted, up to the largest `usize`.
proof fn lemma_count_of_writes(start: Segments, writes: Seq<Write>)
    requires
        start.valid(),
    ensures
        start.after(writes).valid(),
        start.after(writes).limit == start.limit,
        start.after(writes).chunk_size == start.chunk_size,
        start.after(writes).written == least(
            start.written as int + accepted_total(writes),
            usize::MAX as int,
        ),
    decreases writes.len(),
{
    if writes.len() > 0 {
        lemma_count_of_writes(start, writes.drop_last());
    }
}

/// Exactly the first `limit` bytes of a stream go out in pieces, however long
/// the buffers are and however little of a write is accepted: a write that
/// begins before the limit takes at most a piece, and neither it nor what is
/// accepted of it reaches past the limit; one that begins at the limit or after
/// it takes the whole buffer.
pub proof fn law_first_bytes_are_written_in_pieces(start: Segments, writes: Seq<Write>, i: int)
    requires
        start.valid(),
        start.written == 0,
        0 <= i < writes.len(),
        writes[i].accepted <= start.after(writes.take(i)).next_len(writes[i].available),
    ensures
        ({
            let begin = accepted_total(writes.take(i));
            let taken = start.after(writes.take(i)).next_len(writes[i].available);
            &&& taken <= writes[i].available
            &&& writes[i].available > 0 ==> taken > 0
            &&& begin < start.limit ==> {
                &&& taken <= start.chunk_size
                &&& begin + taken <= start.limit
                &&& accepted_total(writes.take(i + 1)) <= start.limit
            }
            &&& begin >= start.limit ==> taken == writes[i].available
        }),
{
    lemma_count_of_writes(start, writes.take(i));
    law_writes_stay_in_window(start.after(writes.take(i)), writes[i].available);
    assert(writes.take(i + 1).drop_last() =~= writes.take(i));
}

/// Lists of steps send their bytes one after the other.
pub proof fn lemma_sent_bytes_add(a: Seq<Step>, b: Seq<Step>)
    ensures
        sent_bytes(a + b) == sent_bytes(a) + sent_bytes(b),
    decreases a.len(),
{
    if a.len() == 0 {
        assert(a + b =~= b);
        assert(sent_bytes(a) + sent_bytes(b) =~= sent_bytes(b));
    } else {
        lemma_sent_bytes_add(a.drop_first(), b);
        assert((a + b).drop_first() =~= a.drop_first() + b);
        assert(sent_bytes(a + b) =~= sent_bytes(a) + sent_bytes(b));
    }
}

proof fn lemma_sent_bytes_send(bytes: Seq<u8>)
    ensures
        sent_bytes(seq![Step::Send(bytes)]) == bytes,
{
    reveal_with_fuel(sent_bytes, 2);
    assert(sent_bytes(seq![Step::Send(bytes)]) =~= bytes);
}

proof fn lemma_piece_sends(piece: Seq<u8>, delay_ms: u64, flush: bool)
    ensures
        sent_bytes(piece_steps(piece, delay_ms, flush)) == piece,
{
    reveal_with_fuel(sent_bytes, 4);
    let steps = piece_steps(piece, delay_ms, flush);
    assert(steps.drop_first().len() <= 2);
    assert(sent_bytes(steps.drop_first()) =~= seq![]);
    assert(sent_bytes(steps) =~= piece);
}

proof fn lemma_segments(data: Seq<u8>, size: nat, delay_ms: u64, flush: bool)
    requires
        size > 0,
    ensures
        sent_bytes(segment_steps(data, size, delay_ms, flush)) == data,
        forall|i: int|
            0 <= i < segment_steps(data, size, delay_ms, flush).len() ==> is_piece_step(
                #[trigger] segment_steps(data, size, delay_ms, flush)[i],
                size,
            ),
    decreases data.len(),
{
    if data.len() > 0 {
        let n = least(size as int, data.len() as int);
        let head = piece_steps(data.take(n), delay_ms, flush);
        let tail = segment_steps(data.skip(n), size, delay_ms, flush);
        lemma_segments(data.skip(n), size, delay_ms, flush);
        lemma_sent_bytes_add(head, tail);
        lemma_piece_sends(data.take(n), delay_ms, flush);
        assert(data.take(n) + data.skip(n) =~= data);
    } else {
        assert(sent_bytes(segment_steps(data, size, delay_ms, flush)) =~= data);
    }
}

/// What a plan sends is the payload: no byte is lost, added or moved.
pub proof fn law_plan_sends_payload(
    data: Seq<u8>,
    remaining: nat,
    chunking: ChunkingConfig,
    flush: bool,
)
    requires
        plannable(data, remaining, chunking),
    ensures
        sent_bytes(plan(data, remaining, chunking, flush)) == data,
{
    let n = least(data.len() as int, remaining as int);
    let pieces = segmented_steps(data, remaining, chunking, flush);
    law_pieces_are_bounded(data, remaining, chunking, flush);
    if remaining < data.len() {
        let last = seq![Step::Send(data.skip(n))];
        lemma_sent_bytes_add(pieces, last);
        lemma_sent_bytes_send(data.skip(n));
        assert(pieces + last =~= plan(data, remaining, chunking, flush));
        assert(data.take(n) + data.skip(n) =~= data);
    } else {
        assert(data.take(n) =~= data);
    }
}

/// The bytes that are to go out in pieces do: each of their sends carries
/// between one byte and a full piece.
pub proof fn law_pieces_are_bounded(
    data: Seq<u8>,
    remaining: nat,
    chunking: ChunkingConfig,
    flush: bool,
)
    requires
        plannable(data, remaining, chunking),
    ensures
        forall|i: int|
            0 <= i < segmented_steps(data, remaining, chunking, flush).len() ==> is_piece_step(
                #[trigger] segmented_steps(data, remaining, chunking, flush)[i],
                chunking.chunk_size as nat,
            ),
        sent_bytes(segmented_steps(data, remaining, chunking, flush)) == data.take(
            least(data.len() as int, remaining as int),
        ),
{
    let start = data.take(least(data.len() as int, remaining as int));
    if chunking.chunk_size > 0 {
        lemma_segments(start, chunking.chunk_size as nat, chunking.chunk_delay_ms, flush);
    } else {
        assert(sent_bytes(segmented_steps(data, remaining, chunking, flush)) =~= start);
    }
}

/// A payload goes out in one send, with no flush and no pause, once nothing
/// is left to be sent in pieces: so it is at all times where chunking is disabled.
pub proof fn law_unchunked_payload_is_sent_whole(
    data: Seq<u8>,
    chunking: ChunkingConfig,
    flush: bool,
)
    ensures
        plan(data, 0, chunking, flush) == (if data.len() == 0 {
            seq![]
        } else {
            seq![Step::Send(data)]
        }),
        remaining_after(data, 0) == 0,
{
    assert(data.skip(0) =~= data);
    assert(plan(data, 0, chunking, flush) =~= (if data.len() == 0 {
        seq![]
    } else {
        seq![Step::Send(data)]
    }));
}

/// If sending breaks off, what was sent until then is a beginning of the payload.
pub proof fn law_part_of_plan_sends_beginning(
    data: Seq<u8>,
    remaining: nat,
    chunking: ChunkingConfig,
    flush: bool,
    done: int,
)
    requires
        plannable(data, remaining, chunking),
        0 <= done <= plan(data, remaining, chunking, flush).len(),
    ensures
        sent_bytes(plan(data, remaining, chunking, flush).take(done)).is_prefix_of(data),
{
    let steps = plan(data, remaining, chunking, flush);
    law_plan_sends_payload(data, remaining, chunking, flush);
    assert(steps.take(done) + steps.skip(done) =~= steps);
    lemma_sent_bytes_add(steps.take(done), steps.skip(done));
}

/// How much is left to be sent in pieces depends on how far sending came. A
/// step for a piece that fails leaves it as it was. If what follows the pieces
/// fails, or nothing does, the pieces have been counted off.
pub proof fn law_pieces_count_once_sent(
    data: Seq<u8>,
    remaining: nat,
    chunking: ChunkingConfig,
    flush: bool,
    done: int,
)
    requires
        plannable(data, remaining, chunking),
        0 <= done <= plan(data, remaining, chunking, flush).len(),
    ensures
        ({
            let steps = plan(data, remaining, chunking, flush);
            let left = remaining_when(data, remaining, chunking, flush, done as nat);
            &&& done < steps.len() && steps[done] !is Send ==> left == remaining
            &&& done < steps.len() && steps[done] is Send ==> left == remaining - least(
                data.len() as int,
                remaining as int,
            )
            &&& done == steps.len() ==> left == remaining_after(data, remaining)
        }),
{
    let pieces = segmented_steps(data, remaining, chunking, flush);
    law_pieces_are_bounded(data, remaining, chunking, flush);
    if done < pieces.len() {
        assert(is_piece_step(pieces[done], chunking.chunk_size as nat));
    }
}

/// How many steps one piece takes.
pub open spec fn steps_per_piece(delay_ms: u64, flush: bool) -> int {
    if flush && delay_ms != 0 {
        3
    } else if flush || delay_ms != 0 {
        2
    } else {
        1
    }
}

/// The bytes of the piece with the number `i`, when `k` bytes are cut into
/// pieces of `size` bytes.
pub open spec fn cut(data: Seq<u8>, k: int, size: int, i: int) -> Seq<u8> {
    if (i + 1) * size <= k {
        data.subrange(i * size, (i + 1) * size)
    } else {
        data.subrange(i * size, k)
    }
}

proof fn lemma_segments_at(data: Seq<u8>, size: int, delay_ms: u64, flush: bool, i: int)
    requires
        size > 0,
        i >= 0,
        i * size < data.len(),
    ensures
        ({
            let steps = segment_steps(data, size as nat, delay_ms, flush);
            let per = steps_per_piece(delay_ms, flush);
            &&& 0 <= i * per
            &&& i * per + per <= steps.len()
            &&& steps[i * per] == Step::Piece(cut(data, data.len() as int, size, i))
            &&& flush ==> steps[i * per + 1] == Step::Flush
            &&& delay_ms != 0 ==> steps[i * per + per - 1] == Step::Pause(delay_ms)
        }),
    decreases i,
{
    let steps = segment_steps(data, size as nat, delay_ms, flush);
    let per = steps_per_piece(delay_ms, flush);
    let n = least(size, data.len() as int);
    let head = piece_steps(data.take(n), delay_ms, flush);
    let tail = segment_steps(data.skip(n), size as nat, delay_ms, flush);
    assert(head.len() == per);
    if i == 0 {
        assert(0 * per == 0 && 0 * size == 0 && (0 + 1) * size == size);
        assert(data.take(n) =~= cut(data, data.len() as int, size, 0));
    } else {
        assert(i * size == (i - 1) * size + size) by (nonlinear_arith);
        assert(i * per == (i - 1) * per + per) by (nonlinear_arith);
        assert((i + 1) * size == i * size + size) by (nonlinear_arith);
        assert((i - 1) * size >= 0) by (nonlinear_arith)
            requires
                i >= 1,
                size > 0,
        ;
        assert(n == size);
        lemma_segments_at(data.skip(size), size, delay_ms, flush, i - 1);
        assert(cut(data.skip(size), data.len() - size, size, i - 1) =~= cut(
            data,
            data.len() as int,
            size,
            i,
        ));
        assert(steps =~= head + tail);
        assert(steps[i * per] == tail[(i - 1) * per]);
        if flush {
            assert(steps[i * per + 1] == tail[(i - 1) * per + 1]);
        }
        if delay_ms != 0 {
            assert(steps[i * per + per - 1] == tail[(i - 1) * per + per - 1]);
        }
    }
}

proof fn lemma_segments_count(data: Seq<u8>, size: int, delay_ms: u64, flush: bool, n: int)
    requires
        size > 0,
        n >= 0,
        (n - 1) * size < data.len() <= n * size,
    ensures
        segment_steps(data, size as nat, delay_ms, flush).len() == n * steps_per_piece(
            delay_ms,
            flush,
        ),
    decreases n,
{
    let per = steps_per_piece(delay_ms, flush);
    if n == 0 {
        assert(0 * size == 0 && 0 * per == 0);
    } else {
        assert((n - 1) * size >= 0) by (nonlinear_arith)
            requires
                n >= 1,
                size > 0,
        ;
        assert(n * size == (n - 1) * size + size) by (nonlinear_arith);
        assert(n * per == (n - 1) * per + per) by (nonlinear_arith);
        let m = least(size, data.len() as int);
        assert(piece_steps(data.take(m), delay_ms, flush).len() == per);
        if data.len() <= size {
            assert(n == 1) by (nonlinear_arith)
                requires
                    n >= 1,
                    size > 0,
                    (n - 1) * size < data.len(),
                    data.len() <= size,
            ;
            assert((n - 1) * per == 0) by (nonlinear_arith)
                requires
                    n == 1,
            ;
            assert(segment_steps(data.skip(m), size as nat, delay_ms, flush) =~= seq![]);
        } else {
            assert((n - 1) * size == (n - 2) * size + size) by (nonlinear_arith);
            lemma_segments_count(data.skip(size), size, delay_ms, flush, n - 1);
        }
    }
}

proof fn lemma_rounded_up(k: int, size: int)
    requires
        k >= 0,
        size > 0,
    ensures
        ({
            let n = (k + size - 1) / size;
            n >= 0 && (n - 1) * size < k <= n * size
        }),
{
    let n = (k + size - 1) / size;
    vstd::arithmetic::div_mod::lemma_fundamental_div_mod(k + size - 1, size);
    vstd::arithmetic::div_mod::lemma_div_pos_is_pos(k + size - 1, size);
    assert(size * n == n * size) by (nonlinear_arith);
    assert((n - 1) * size == n * size - size) by (nonlinear_arith);
}

/// What is sent of a payload, step by step. Its first `k` bytes, as many as
/// are still to go in pieces, are cut every `chunk_size` bytes: the number of
/// pieces is `k / chunk_size`, rounded up, the piece with the number `i` holds
/// the bytes from `i * chunk_size` up to the next cut or to `k`, and after each
/// come a flush, where one is due, and the pause, if there is one. All the rest
/// of the payload comes last, at once.
pub proof fn law_payload_is_cut_every_chunk_size(
    data: Seq<u8>,
    remaining: nat,
    chunking: ChunkingConfig,
    flush: bool,
    k: int,
)
    requires
        chunking.chunk_size > 0,
        k <= data.len(),
        k <= remaining,
        k == data.len() || k == remaining,
    ensures
        ({
            let steps = plan(data, remaining, chunking, flush);
            let size = chunking.chunk_size as int;
            let delay = chunking.chunk_delay_ms;
            let per: int = 1 + (if flush {
                1int
            } else {
                0
            }) + (if delay != 0 {
                1int
            } else {
                0
            });
            let pieces = (k + size - 1) / size;
            &&& steps.len() == pieces * per + (if k < data.len() {
                1int
            } else {
                0
            })
            &&& forall|i: int|
                #![trigger cut(data, k, size, i)]
                0 <= i < pieces ==> {
                    &&& steps[i * per] == Step::Piece(cut(data, k, size, i))
                    &&& flush ==> steps[i * per + 1] == Step::Flush
                    &&& delay != 0 ==> steps[i * per + per - 1] == Step::Pause(delay)
                    &&& cut(data, k, size, i).len() == (if (i + 1) * size <= k {
                        size
                    } else {
                        k - i * size
                    })
                    &&& forall|j: int|
                        0 <= j < cut(data, k, size, i).len() ==> #[trigger] cut(
                            data,
                            k,
                            size,
                            i,
                        )[j] == data[i * size + j]
                }
            &&& k < data.len() ==> steps.last() == Step::Send(
                data.subrange(k, data.len() as int),
            )
        }),
{
    let steps = plan(data, remaining, chunking, flush);
    let size = chunking.chunk_size as int;
    let delay = chunking.chunk_delay_ms;
    let per = steps_per_piece(delay, flush);
    let pieces = (k + size - 1) / size;
    let start = data.take(k);
    let segmented = segmented_steps(data, remaining, chunking, flush);
    lemma_rounded_up(k, size);
    lemma_segments_count(start, size, delay, flush, pieces);
    assert(segmented.len() == pieces * per);
    assert forall|i: int| #![trigger cut(data, k, size, i)] 0 <= i < pieces implies {
        &&& steps[i * per] == Step::Piece(cut(data, k, size, i))
        &&& flush ==> steps[i * per + 1] == Step::Flush
        &&& delay != 0 ==> steps[i * per + per - 1] == Step::Pause(delay)
        &&& cut(data, k, size, i).len() == (if (i + 1) * size <= k {
            size
        } else {
            k - i * size
        })
        &&& forall|j: int|
            0 <= j < cut(data, k, size, i).len() ==> #[trigger] cut(data, k, size, i)[j]
                == data[i * size + j]
    } by {
        assert(0 <= i * size <= (pieces - 1) * size) by (nonlinear_arith)
            requires
                0 <= i < pieces,
                size > 0,
        ;
        assert((i + 1) * size == i * size + size) by (nonlinear_arith);
        lemma_segments_at(start, size, delay, flush, i);
        assert(cut(start, k, size, i) =~= cut(data, k, size, i));
        assert(steps[i * per] == segmented[i * per]);
        if flush {
            assert(steps[i * per + 1] == segmented[i * per + 1]);
        }
        if delay != 0 {
            assert(steps[i * per + per - 1] == segmented[i * per + per - 1]);
        }
    }
    if k < data.len() {
        assert(data.skip(k) =~= data.subrange(k, data.len() as int));
    }
}

/// What is left to be sent in pieces, after any number of steps: as much as
/// before until the last of the steps for pieces has been taken, and from then
/// on as much less as the payload was long, but not less than nothing.
pub proof fn law_remaining_after_steps(
    data: Seq<u8>,
    remaining: nat,
    chunking: ChunkingConfig,
    flush: bool,
    done: nat,
)
    requires
        chunking.chunk_size > 0 || data.len() == 0 || remaining == 0,
    ensures
        plannable(data, remaining, chunking),
        remaining_after(data, remaining) == (if data.len() >= remaining {
            0
        } else {
            remaining - data.len()
        }),
        chunking.chunk_size > 0 ==> {
            let size = chunking.chunk_size as int;
            let k: int = if data.len() <= remaining {
                data.len() as int
            } else {
                remaining as int
            };
            let per: int = 1 + (if flush {
                1int
            } else {
                0
            }) + (if chunking.chunk_delay_ms != 0 {
                1int
            } else {
                0
            });
            let left = remaining_when(data, remaining, chunking, flush, done);
            &&& done < (k + size - 1) / size * per ==> left == remaining
            &&& done >= (k + size - 1) / size * per ==> left == remaining - k
        },
        data.len() == 0 || remaining == 0 ==> remaining_when(
            data,
            remaining,
            chunking,
            flush,
            done,
        ) == remaining,
        data.len() == 0 ==> plan(data, remaining, chunking, flush).len() == 0,
{
    let k = least(data.len() as int, remaining as int);
    if chunking.chunk_size > 0 {
        let size = chunking.chunk_size as int;
        lemma_rounded_up(k, size);
        lemma_segments_count(
            data.take(k),
            size,
            chunking.chunk_delay_ms,
            flush,
            (k + size - 1) / size,
        );
    }
}

/// A step stands for what it says.
pub proof fn law_steps_are_what_they_say<'a>(bytes: &'a [u8], millis: u64)
    ensures
        RelayStep::Piece(bytes)@ == Step::Piece(bytes@),
        RelayStep::Send(bytes)@ == Step::Send(bytes@),
        RelayStep::<'a>::Flush@ == Step::Flush,
        RelayStep::<'a>::Pause(millis)@ == Step::Pause(millis),
{
}

/// A list of steps stands for its steps, in order.
pub proof fn law_list_stands_for_its_steps<'a>(steps: Seq<RelayStep<'a>>)
    ensures
        step_views(steps).len() == steps.len(),
        forall|i: int| 0 <= i < steps.len() ==> #[trigger] step_views(steps)[i] == steps[i]@,
{
}

/// A write takes as much as it may: before the limit it stops at the end of
/// the buffer, at the end of a piece or at the limit, and nowhere else.
pub proof fn law_writes_take_all_they_may(state: Segments, available: nat, accepted: nat)
    requires
        state.valid(),
    ensures
        state.written >= state.limit ==> state.next_len(available) == available,
        state.written < state.limit ==> {
            let len = state.next_len(available);
            &&& len <= available && len <= state.chunk_size && state.written + len <= state.limit
            &&& len == available || len == state.chunk_size || state.written + len == state.limit
        },
        state.recorded(accepted).limit == state.limit,
        state.recorded(accepted).chunk_size == state.chunk_size,
        state.recorded(accepted).written == (if state.written + accepted <= usize::MAX {
            state.written + accepted
        } else {
            usize::MAX as nat
        }),
{
}


/// What [`send_binary_with_chunking`] returns, step by step: see
/// [`law_payload_is_cut_every_chunk_size`].
pub proof fn law_send_binary_with_chunking<'a>(
    data: &'a [u8],
    initial_remaining: usize,
    chunking: ChunkingConfig,
    steps: Vec<RelayStep<'a>>,
    k: int,
    i: int,
)
    requires
        call_ensures(send_binary_with_chunking, (data, initial_remaining, chunking), steps),
        chunking.chunk_size > 0,
        k <= data@.len(),
        k <= initial_remaining,
        k == data@.len() || k == initial_remaining,
    ensures
        ({
            let size = chunking.chunk_size as int;
            let pieces = (k + size - 1) / size;
            let per: int = if chunking.chunk_delay_ms != 0 {
                2
            } else {
                1
            };
            &&& steps@.len() == pieces * per + (if k < data@.len() {
                1int
            } else {
                0
            })
            &&& 0 <= i < pieces ==> {
                &&& steps@[i * per] matches RelayStep::Piece(piece)
                &&& piece@.len() == (if (i + 1) * size <= k {
                    size
                } else {
                    k - i * size
                })
                &&& forall|j: int| 0 <= j < piece@.len() ==> #[trigger] piece@[j] == data@[i * size + j]
            }
            &&& 0 <= i < pieces && chunking.chunk_delay_ms != 0 ==> {
                &&& steps@[i * per + per - 1] matches RelayStep::Pause(millis)
                &&& millis == chunking.chunk_delay_ms
            }
            &&& k < data@.len() ==> {
                &&& steps@.last() matches RelayStep::Send(rest)
                &&& rest@ == data@.subrange(k, data@.len() as int)
            }
        }),
{
    let size = chunking.chunk_size as int;
    let pieces = (k + size - 1) / size;
    let per = steps_per_piece(chunking.chunk_delay_ms, false);
    law_payload_is_cut_every_chunk_size(
        data@,
        initial_remaining as nat,
        chunking,
        false,
        k,
    );
    law_list_stands_for_its_steps(steps@);
    if 0 <= i < pieces {
        let piece = cut(data@, k, size, i);
        assert(0 <= i * per && i * per + per <= pieces * per) by (nonlinear_arith)
            requires
                0 <= i < pieces,
                per > 0,
        ;
        assert(step_views(steps@)[i * per] == steps@[i * per]@);
        assert(step_views(steps@)[i * per + per - 1] == steps@[i * per + per - 1]@);
        assert(step_views(steps@)[i * per + 1] == steps@[i * per + 1]@ || per == 1);
    }
    if k < data@.len() {
        assert(pieces * per >= 0) by (nonlinear_arith)
            requires
                pieces >= 0,
                per > 0,
        ;
        assert(step_views(steps@).last() == steps@.last()@);
    }
}

/// What [`write_with_chunking`] returns, step by step: as
/// [`law_send_binary_with_chunking`] says, with a flush after each piece.
pub proof fn law_write_with_chunking<'a>(
    data: &'a [u8],
    initial_remaining: usize,
    chunking: ChunkingConfig,
    steps: Vec<RelayStep<'a>>,
    k: int,
    i: int,
)
    requires
        call_ensures(write_with_chunking, (data, initial_remaining, chunking), steps),
        chunking.chunk_size > 0,
        k <= data@.len(),
        k <= initial_remaining,
        k == data@.len() || k == initial_remaining,
    ensures
        ({
            let size = chunking.chunk_size as int;
            let pieces = (k + size - 1) / size;
            let per: int = if chunking.chunk_delay_ms != 0 {
                3
            } else {
                2
            };
            &&& steps@.len() == pieces * per + (if k < data@.len() {
                1int
            } else {
                0
            })
            &&& 0 <= i < pieces ==> {
                &&& steps@[i * per] matches RelayStep::Piece(piece)
                &&& piece@.len() == (if (i + 1) * size <= k {
                    size
                } else {
                    k - i * size
                })
                &&& forall|j: int| 0 <= j < piece@.len() ==> #[trigger] piece@[j] == data@[i * size + j]
            }
            &&& 0 <= i < pieces ==> steps@[i * per + 1] is Flush
            &&& 0 <= i < pieces && chunking.chunk_delay_ms != 0 ==> {
                &&& steps@[i * per + per - 1] matches RelayStep::Pause(millis)
                &&& millis == chunking.chunk_delay_ms
            }
            &&& k < data@.len() ==> {
                &&& steps@.last() matches RelayStep::Send(rest)
                &&& rest@ == data@.subrange(k, data@.len() as int)
            }
        }),
{
    let size = chunking.chunk_size as int;
    let pieces = (k + size - 1) / size;
    let per = steps_per_piece(chunking.chunk_delay_ms, true);
    law_payload_is_cut_every_chunk_size(
        data@,
        initial_remaining as nat,
        chunking,
        true,
        k,
    );
    law_list_stands_for_its_steps(steps@);
    if 0 <= i < pieces {
        let piece = cut(data@, k, size, i);
        assert(0 <= i * per && i * per + per <= pieces * per) by (nonlinear_arith)
            requires
                0 <= i < pieces,
                per > 0,
        ;
        assert(step_views(steps@)[i * per] == steps@[i * per]@);
        assert(step_views(steps@)[i * per + per - 1] == steps@[i * per + per - 1]@);
        assert(step_views(steps@)[i * per + 1] == steps@[i * per + 1]@ || per == 1);
    }
    if k < data@.len() {
        assert(pieces * per >= 0) by (nonlinear_arith)
            requires
                pieces >= 0,
                per > 0,
        ;
        assert(step_views(steps@).last() == steps@.last()@);
    }
}

/// What [`ChunkingConfig::disabled`] returns: no byte is sent in pieces, so that
/// a payload of any length goes out whole.
pub proof fn law_disabled(config: ChunkingConfig, data: Seq<u8>, flush: bool)
    requires
        call_ensures(ChunkingConfig::disabled, (), config),
        data.len() > 0,
    ensures
        plan(data, config.initial_bytes as nat, config, flush) == seq![Step::Send(data)],
{
    law_unchunked_payload_is_sent_whole(data, config, flush);
}

/// What [`count_off`] does, with a piece length to cut by: nothing while a step
/// for a piece is still to be taken, and after that it counts off the length of
/// the payload, or all there is.
pub proof fn law_count_off()
    ensures
        forall|
            data: &[u8],
            remaining: &mut usize,
            chunking: ChunkingConfig,
            flush: bool,
            done: usize,
        | #[trigger]
            call_ensures(count_off, (data, remaining, chunking, flush, done), ())
                && chunking.chunk_size > 0 ==> {
                let size = chunking.chunk_size as int;
                let k: int = if data@.len() <= *remaining {
                    data@.len() as int
                } else {
                    *remaining as int
                };
                let per: int = 1 + (if flush {
                    1int
                } else {
                    0
                }) + (if chunking.chunk_delay_ms != 0 {
                    1int
                } else {
                    0
                });
                &&& done < (k + size - 1) / size * per ==> *final(remaining) == *remaining
                &&& done >= (k + size - 1) / size * per ==> *final(remaining) == *remaining - k
            },
{
    assert forall|
        data: &[u8],
        remaining: &mut usize,
        chunking: ChunkingConfig,
        flush: bool,
        done: usize,
    | #[trigger]
        call_ensures(count_off, (data, remaining, chunking, flush, done), ())
            && chunking.chunk_size > 0 implies {
        let size = chunking.chunk_size as int;
        let k: int = if data@.len() <= *remaining {
            data@.len() as int
        } else {
            *remaining as int
        };
        let per: int = 1 + (if flush {
            1int
        } else {
            0
        }) + (if chunking.chunk_delay_ms != 0 {
            1int
        } else {
            0
        });
        &&& done < (k + size - 1) / size * per ==> *final(remaining) == *remaining
        &&& done >= (k + size - 1) / size * per ==> *final(remaining) == *remaining - k
    } by {
        law_remaining_after_steps(data@, *remaining as nat, chunking, flush, done as nat);
    }
}

/// What [`InitialSegmenter::write_len`] and [`InitialSegmenter::record_written`]
/// return and do, over the bytes written so far.
pub proof fn law_segmenter()
    ensures
        forall|segmenter: &InitialSegmenter, available: usize, len: usize| #[trigger]
            call_ensures(InitialSegmenter::write_len, (segmenter, available), len) ==> {
                let room = segmenter@.limit - segmenter@.written;
                &&& room <= 0 ==> len == available
                &&& room > 0 ==> {
                    &&& len <= available && len <= segmenter@.chunk_size && len <= room
                    &&& len == available || len == segmenter@.chunk_size || len == room
                }
            },
        forall|segmenter: &mut InitialSegmenter, written: usize| #[trigger]
            call_ensures(InitialSegmenter::record_written, (segmenter, written), ()) ==> {
                &&& final(segmenter)@.limit == segmenter@.limit
                &&& final(segmenter)@.chunk_size == segmenter@.chunk_size
                &&& segmenter@.written + written <= usize::MAX ==> final(segmenter)@.written
                    == segmenter@.written + written
                &&& segmenter@.written + written > usize::MAX ==> final(segmenter)@.written
                    == usize::MAX
            },
{
}

} // verus!
