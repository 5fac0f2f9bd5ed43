//! What the bridge is told at its start, and what follows from it.
use crate::chunking::{ChunkingConfig, InitialSegmenter, Segments};
use vstd::prelude::*;

verus! {

/// How many bytes to the edge are written in pieces under the TLS session.
pub const EDGE_INITIAL_SEGMENT_BYTES_DEFAULT: usize = 0;

/// The length of such a piece.
pub const EDGE_INITIAL_SEGMENT_CHUNK_DEFAULT: usize = 3;

/// The shortest time window of a generation, in minutes.
pub const CYCLE_MINUTES_MIN: u64 = 10;

/// The longest time window of a generation, in minutes.
pub const CYCLE_MINUTES_MAX: u64 = 15;

/// The time window of a generation, in minutes.
pub const CYCLE_MINUTES_DEFAULT: u64 = 10;

/// The data window of a generation: 100 MiB.
pub const CYCLE_BYTES_DEFAULT: u64 = 104857600;

/// How many bytes at the start of a stream are sent in pieces.
pub const INITIAL_CHUNK_BYTES_DEFAULT: usize = 250;

/// The length of such a piece.
pub const INITIAL_CHUNK_SIZE_DEFAULT: usize = 8;

/// The pause after such a piece, in milliseconds.
pub const INITIAL_CHUNK_DELAY_MS_DEFAULT: u64 = 2;

/// How many connections to the edge are made at a time.
pub const MAX_CONCURRENT_EDGE_CONNECTS_DEFAULT: usize = 24;

/// The label that a bridge gives its sessions.
#[derive(Clone, Copy, Debug, PartialEq, Eq, Structural)]
pub enum TrafficProfile {
    Chrome,
    Firefox,
}

/// What the bridge is told at its start, apart from the addresses it listens
/// on and connects to.
#[derive(Debug)]
pub struct BridgeArgs {
    /// The host that a WebSocket is asked for.
    pub host: String,
    /// The name under which the TLS server at the edge is asked for.
    pub sni: String,
    /// The path that a WebSocket is asked for at.
    pub path: String,
    /// The secret that is shared with the destination.
    pub auth_secret_key: String,
    /// The label of the sessions.
    pub traffic_profile: TrafficProfile,
    /// The time window of a generation, in minutes.
    pub cycle_minutes: u64,
    /// The data window of a generation, in bytes.
    pub cycle_bytes: u64,
    /// How many bytes at the start of a stream are sent in pieces.
    pub initial_chunk_bytes: usize,
    /// The length of such a piece.
    pub initial_chunk_size: usize,
    /// The pause after such a piece, in milliseconds.
    pub initial_chunk_delay_ms: u64,
    /// How many bytes to the edge are written in pieces under the TLS session.
    pub edge_initial_segment_bytes: usize,
    /// The length of such a piece.
    pub edge_initial_segment_chunk: usize,
    /// How many connections to the edge are made at a time.
    pub max_concurrent_edge_connects: usize,
}

/// The label as text.
pub open spec fn profile_label(profile: TrafficProfile) -> Seq<char> {
    match profile {
        TrafficProfile::Chrome => "chrome"@,
        TrafficProfile::Firefox => "firefox"@,
    }
}

/// A time window in minutes, moved into the range in which the bridge operates.
pub open spec fn clamped_minutes(minutes: u64) -> u64 {
    if minutes < CYCLE_MINUTES_MIN {
        CYCLE_MINUTES_MIN
    } else if minutes > CYCLE_MINUTES_MAX {
        CYCLE_MINUTES_MAX
    } else {
        minutes
    }
}

/// A setting for which 0 stands for 1.
pub open spec fn at_least_one(n: usize) -> usize {
    if n == 0 {
        1
    } else {
        n
    }
}

impl TrafficProfile {
    /// The label as text.
    pub fn label(self) -> (label: &'static str)
        ensures
            label@ == profile_label(self),
    {
        match self {
            TrafficProfile::Chrome => "chrome",
            TrafficProfile::Firefox => "firefox",
        }
    }
}

impl BridgeArgs {
    /// The time window of a generation, in minutes: between 10 and 15.
    pub fn cycle_window_minutes(&self) -> (minutes: u64)
        ensures
            minutes == clamped_minutes(self.cycle_minutes),
            CYCLE_MINUTES_MIN <= minutes <= CYCLE_MINUTES_MAX,
    {
        if self.cycle_minutes < CYCLE_MINUTES_MIN {
            CYCLE_MINUTES_MIN
        } else if self.cycle_minutes > CYCLE_MINUTES_MAX {
            CYCLE_MINUTES_MAX
        } else {
            self.cycle_minutes
        }
    }

    /// The time window of a generation, in nanoseconds.
    pub fn cycle_after_nanos(&self) -> (nanos: u128)
        ensures
            nanos == clamped_minutes(self.cycle_minutes) * 60 * 1_000_000_000,
    {
        let minutes: u64 = self.cycle_window_minutes();
        minutes as u128 * 60 * 1_000_000_000
    }

    /// The pieces in which the start of a stream is sent. A piece holds at
    /// least one byte.
    pub fn chunking_config(&self) -> (chunking: ChunkingConfig)
        ensures
            chunking == (ChunkingConfig {
                initial_bytes: self.initial_chunk_bytes,
                chunk_size: at_least_one(self.initial_chunk_size),
                chunk_delay_ms: self.initial_chunk_delay_ms,
            }),
    {
        ChunkingConfig {
            initial_bytes: self.initial_chunk_bytes,
            chunk_size: if self.initial_chunk_size == 0 {
                1
            } else {
                self.initial_chunk_size
            },
            chunk_delay_ms: self.initial_chunk_delay_ms,
        }
    }

    /// The pieces in which the start of a connection to the edge is written, as
    /// far as plain writes go.
    pub fn edge_segmenter(&self) -> (segmenter: InitialSegmenter)
        ensures
            segmenter@.valid(),
            segmenter@ == (Segments {
                limit: self.edge_initial_segment_bytes as nat,
                chunk_size: at_least_one(self.edge_initial_segment_chunk) as nat,
                written: 0,
            }),
    {
        InitialSegmenter::new(self.edge_initial_segment_bytes, self.edge_initial_segment_chunk)
    }

    /// How many connections to the edge are made at a time: at least one.
    pub fn edge_connect_slots(&self) -> (slots: usize)
        ensures
            slots == at_least_one(self.max_concurrent_edge_connects),
    {
        if self.max_concurrent_edge_connects == 0 {
            1
        } else {
            self.max_concurrent_edge_connects
        }
    }
}

/// The addresses at which the edge may be reached: the one that was given.
pub fn resolve_edge_candidates<A>(edge_addr: A) -> (candidates: Vec<A>)
    ensures
        candidates@ == seq![edge_addr],
{
    let mut candidates: Vec<A> = Vec::new();
    candidates.push(edge_addr);
    candidates
}

/// The address that connections to the edge are made to: the first candidate.
pub fn primary_edge<A: Copy>(candidates: &Vec<A>) -> (edge: A)
    requires
        candidates@.len() > 0,
    ensures
        edge == candidates@[0],
{
    candidates[0]
}

/// The time window is the one that was given, if that is from 10 to 15 minutes,
/// and else the nearer of the two.
pub proof fn law_time_window_is_nearest(minutes: u64)
    ensures
        10 <= minutes <= 15 ==> clamped_minutes(minutes) == minutes,
        minutes < 10 ==> clamped_minutes(minutes) == 10,
        minutes > 15 ==> clamped_minutes(minutes) == 15,
{
}

/// A setting is used as it was given, unless it is 0, which stands for 1.
pub proof fn law_settings_are_used_as_given(n: usize)
    ensures
        n >= 1 ==> at_least_one(n) == n,
        at_least_one(0) == 1,
{
}

/// Each label is its own name in lower case.
pub proof fn law_labels_are_names()
    ensures
        profile_label(TrafficProfile::Chrome) == seq!['c', 'h', 'r', 'o', 'm', 'e'],
        profile_label(TrafficProfile::Firefox) == seq!['f', 'i', 'r', 'e', 'f', 'o', 'x'],
{
    reveal_strlit("chrome");
    reveal_strlit("firefox");
    assert("chrome"@ =~= seq!['c', 'h', 'r', 'o', 'm', 'e']);
    assert("firefox"@ =~= seq!['f', 'i', 'r', 'e', 'f', 'o', 'x']);
}

/// What follows from the settings: the time window in nanoseconds, from 10 to 15
/// minutes, and the numbers of connections and of bytes in a piece, at least one
/// of each.
pub proof fn law_settings(
    args: &BridgeArgs,
    minutes: u64,
    nanos: u128,
    chunking: ChunkingConfig,
    segmenter: InitialSegmenter,
    slots: usize,
)
    requires
        call_ensures(BridgeArgs::cycle_window_minutes, (args,), minutes),
        call_ensures(BridgeArgs::cycle_after_nanos, (args,), nanos),
        call_ensures(BridgeArgs::chunking_config, (args,), chunking),
        call_ensures(BridgeArgs::edge_segmenter, (args,), segmenter),
        call_ensures(BridgeArgs::edge_connect_slots, (args,), slots),
    ensures
        10 <= args.cycle_minutes <= 15 ==> minutes == args.cycle_minutes,
        args.cycle_minutes < 10 ==> minutes == 10,
        args.cycle_minutes > 15 ==> minutes == 15,
        nanos == minutes * 60_000_000_000,
        chunking.initial_bytes == args.initial_chunk_bytes,
        args.initial_chunk_size >= 1 ==> chunking.chunk_size == args.initial_chunk_size,
        args.initial_chunk_size == 0 ==> chunking.chunk_size == 1,
        chunking.chunk_delay_ms == args.initial_chunk_delay_ms,
        segmenter@.limit == args.edge_initial_segment_bytes,
        args.edge_initial_segment_chunk >= 1 ==> segmenter@.chunk_size
            == args.edge_initial_segment_chunk,
        args.edge_initial_segment_chunk == 0 ==> segmenter@.chunk_size == 1,
        segmenter@.written == 0,
        args.max_concurrent_edge_connects >= 1 ==> slots == args.max_concurrent_edge_connects,
        args.max_concurrent_edge_connects == 0 ==> slots == 1,
{
    law_time_window_is_nearest(args.cycle_minutes);
}

/// The edge that is connected to is the one that was given.
pub proof fn law_edge_is_the_one_given<A: Copy>(given: A, candidates: Vec<A>, edge: A)
    requires
        call_ensures(resolve_edge_candidates::<A>, (given,), candidates),
        call_ensures(primary_edge::<A>, (&candidates,), edge),
    ensures
        candidates@.len() == 1,
        edge == given,
{
}

/// What [`TrafficProfile::label`] returns.
pub proof fn law_label(profile: TrafficProfile, label: &'static str)
    requires
        call_ensures(TrafficProfile::label, (profile,), label),
    ensures
        profile == TrafficProfile::Chrome ==> label@ == seq!['c', 'h', 'r', 'o', 'm', 'e'],
        profile == TrafficProfile::Firefox ==> label@ == seq!['f', 'i', 'r', 'e', 'f', 'o', 'x'],
{
    law_labels_are_names();
}

} // verus!
