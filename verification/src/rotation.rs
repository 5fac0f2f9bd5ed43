//! Session cycling: which generation a new stream belongs to, and when a
//! generation has served long enough or carried enough to be replaced.
use vstd::multiset::Multiset;
use vstd::prelude::*;

verus! {

/// One generation of sessions.
#[derive(Clone, Copy, Debug, PartialEq, Eq, Structural)]
pub struct GenerationState {
    /// The number that names the generation.
    pub id: u64,
    /// When it began, in nanoseconds on the clock of the process.
    pub started_at: u128,
    /// The bytes that its streams have carried, in both directions.
    pub bytes: u64,
    /// How many streams it serves.
    pub active_streams: u64,
    /// Whether it has been replaced and only serves the streams it has.
    pub draining: bool,
}

/// The right of one stream to the generation it was assigned to. It is handed
/// out by [`RotationManager::acquire`] and given back with
/// [`RotationManager::release`].
#[derive(Debug)]
pub struct GenerationLease {
    slot: usize,
    generation_id: u64,
}

/// What a new stream gets.
#[derive(Debug)]
pub struct AcquireOutcome {
    /// Its lease on the current generation.
    pub lease: GenerationLease,
    /// The generation that was replaced to serve it, if one was.
    pub rotated_from: Option<u64>,
    /// The generation that took its place.
    pub rotated_to: Option<u64>,
}

/// The generations that serve streams, one of which takes new ones.
#[derive(Debug)]
pub struct RotationManager {
    cycle_after: u128,
    cycle_bytes: u64,
    next_generation_id: u64,
    current: usize,
    slots: Vec<Option<GenerationState>>,
}

/// The mathematical value of a [`RotationManager`].
#[verifier::ext_equal]
pub struct Rotation {
    /// The age, in nanoseconds, at which a generation is replaced.
    pub cycle_after: nat,
    /// The bytes carried at which a generation is replaced.
    pub cycle_bytes: nat,
    /// The counter that generations are numbered from.
    pub next_id: u64,
    /// Where the generation that takes new streams stands.
    pub current: nat,
    /// The generations that serve streams, and the current one, by where they stand.
    pub generations: Map<nat, GenerationState>,
}

/// A window for which 0 stands for 1.
pub open spec fn max_one(n: nat) -> nat {
    if n == 0 {
        1
    } else {
        n
    }
}

impl GenerationState {
    /// A generation that begins at `now` and serves no stream yet.
    pub open spec fn fresh(id: u64, now: u128) -> GenerationState {
        GenerationState { id, started_at: now, bytes: 0, active_streams: 0, draining: false }
    }

    /// The generation with one stream more.
    pub open spec fn opened(self) -> GenerationState {
        GenerationState { active_streams: self.active_streams.wrapping_add(1), ..self }
    }

    /// The generation with one stream fewer.
    pub open spec fn closed_one(self) -> GenerationState {
        GenerationState { active_streams: (self.active_streams - 1) as u64, ..self }
    }

    /// The generation once it takes no new stream.
    pub open spec fn retired(self) -> GenerationState {
        GenerationState { draining: true, ..self }
    }

    /// The generation with `count` bytes more on its account, which wraps
    /// round at 2^64.
    pub open spec fn credited(self, count: u64) -> GenerationState {
        GenerationState { bytes: self.bytes.wrapping_add(count), ..self }
    }

    /// A generation that begins at `now` and serves no stream yet.
    pub fn new(id: u64, now: u128) -> (generation: Self)
        ensures
            generation == Self::fresh(id, now),
    {
        Self { id, started_at: now, bytes: 0, active_streams: 0, draining: false }
    }

    /// Puts `count` bytes on the generation's account, which wraps round at 2^64.
    pub fn add_bytes(&mut self, count: u64)
        ensures
            *final(self) == old(self).credited(count),
    {
        self.bytes = self.bytes.wrapping_add(count);
    }
}

impl GenerationLease {
    /// Where the generation stands in [`Rotation::generations`].
    pub closed spec fn slot(self) -> nat {
        self.slot as nat
    }

    /// The number of the generation.
    pub closed spec fn id(self) -> u64 {
        self.generation_id
    }

    /// The number of the generation that the stream was assigned to.
    pub fn generation_id(&self) -> (id: u64)
        ensures
            id == self.id(),
    {
        self.generation_id
    }
}

impl Rotation {
    /// Every state has a generation that takes new streams, and no other does:
    /// the others have been replaced and stay only because they serve streams.
    pub open spec fn valid(self) -> bool {
        &&& self.cycle_bytes >= 1
        &&& self.generations.contains_key(self.current)
        &&& !self.generations[self.current].draining
        &&& forall|slot: nat| #[trigger]
            self.generations.contains_key(slot) && slot != self.current ==> {
                &&& self.generations[slot].draining
                &&& self.generations[slot].active_streams > 0
            }
    }

    /// The generation that takes new streams.
    pub open spec fn current_generation(self) -> GenerationState {
        self.generations[self.current]
    }

    /// Whether a generation has served for the time window or carried the data
    /// window. One that begins after `now` has served for no time.
    pub open spec fn due(self, generation: GenerationState, now: u128) -> bool {
        ||| (if now >= generation.started_at {
            now - generation.started_at
        } else {
            0
        }) >= self.cycle_after
        ||| generation.bytes >= self.cycle_bytes
    }

    /// The number of the next generation.
    pub open spec fn new_id(self) -> u64 {
        if self.next_id < u64::MAX {
            (self.next_id + 1) as u64
        } else {
            u64::MAX
        }
    }

    /// The generations that stay when the current one is replaced: it stays
    /// only if it serves a stream, and takes no new one.
    pub open spec fn kept(self) -> Map<nat, GenerationState> {
        if self.current_generation().active_streams > 0 {
            self.generations.insert(self.current, self.current_generation().retired())
        } else {
            self.generations.remove(self.current)
        }
    }

    /// The state once the current generation has been replaced by one that
    /// begins at `now` and stands at `slot`.
    pub open spec fn rotated(self, now: u128, slot: nat) -> Rotation {
        Rotation {
            next_id: self.next_id.wrapping_add(1),
            current: slot,
            generations: self.kept().insert(slot, GenerationState::fresh(self.new_id(), now)),
            ..self
        }
    }

    /// The state with one stream more on the current generation.
    pub open spec fn joined(self) -> Rotation {
        Rotation {
            generations: self.generations.insert(self.current, self.current_generation().opened()),
            ..self
        }
    }

    /// `post` is the state after a new stream at `now` was given a lease on
    /// the generation at `slot`: the current one, or one that replaces it
    /// because it was due.
    pub open spec fn acquired(self, now: u128, slot: nat, post: Rotation) -> bool {
        if self.due(self.current_generation(), now) {
            &&& !self.kept().contains_key(slot)
            &&& post == self.rotated(now, slot).joined()
        } else {
            &&& slot == self.current
            &&& post == self.joined()
        }
    }

    /// Whether a generation that serves a stream stands at `slot` under that number.
    pub open spec fn holds(self, slot: nat, id: u64) -> bool {
        &&& self.generations.contains_key(slot)
        &&& self.generations[slot].id == id
        &&& self.generations[slot].active_streams > 0
    }

    /// The state once the generation at `slot` has `count` bytes more on its account.
    pub open spec fn credited(self, slot: nat, count: u64) -> Rotation {
        Rotation {
            generations: self.generations.insert(slot, self.generations[slot].credited(count)),
            ..self
        }
    }

    /// Whether the generation at `slot` ends with the stream that leaves it.
    pub open spec fn drains(self, slot: nat) -> bool {
        self.generations[slot].draining && self.generations[slot].active_streams == 1
    }

    /// The state once a stream has left the generation at `slot`. A replaced
    /// generation goes with its last stream.
    pub open spec fn released(self, slot: nat) -> Rotation {
        Rotation {
            generations: if self.drains(slot) {
                self.generations.remove(slot)
            } else {
                self.generations.insert(slot, self.generations[slot].closed_one())
            },
            ..self
        }
    }
}

impl View for RotationManager {
    type V = Rotation;

    closed spec fn view(&self) -> Rotation {
        Rotation {
            cycle_after: self.cycle_after as nat,
            cycle_bytes: self.cycle_bytes as nat,
            next_id: self.next_generation_id,
            current: self.current as nat,
            generations: slot_map(self.slots@),
        }
    }
}

/// The generations that a table holds, by index.
pub open spec fn slot_map(slots: Seq<Option<GenerationState>>) -> Map<nat, GenerationState> {
    Map::new(
        |slot: nat| slot < slots.len() && slots[slot as int] is Some,
        |slot: nat| slots[slot as int]->0,
    )
}

impl RotationManager {
    /// Whether the state is one that the operations below can reach.
    pub open spec fn wf(self) -> bool {
        self@.valid()
    }

    /// Starts with the first generation, numbered 1, at `now`. A data window
    /// of 0 bytes stands for 1.
    pub fn new(cycle_after: u128, cycle_bytes: u64, now: u128) -> (manager: Self)
        ensures
            manager.wf(),
            manager@ == (Rotation {
                cycle_after: cycle_after as nat,
                cycle_bytes: max_one(cycle_bytes as nat),
                next_id: 1,
                current: 0,
                generations: map![0nat => GenerationState::fresh(1, now)],
            }),
    {
        let mut slots: Vec<Option<GenerationState>> = Vec::new();
        slots.push(Some(GenerationState::new(1, now)));
        let manager = Self {
            cycle_after,
            cycle_bytes: if cycle_bytes == 0 {
                1
            } else {
                cycle_bytes
            },
            next_generation_id: 1,
            current: 0,
            slots,
        };
        assert(manager@.generations =~= map![0nat => GenerationState::fresh(1, now)]);
        manager
    }

    /// Whether a generation has served for the time window or carried the data window.
    pub fn should_rotate(&self, generation: &GenerationState, now: u128) -> (due: bool)
        ensures
            due == self@.due(*generation, now),
    {
        now.saturating_sub(generation.started_at) >= self.cycle_after || generation.bytes
            >= self.cycle_bytes
    }

    /// Assigns a new stream to the current generation, after replacing that
    /// generation if it is due.
    pub fn acquire(&mut self, now: u128) -> (outcome: AcquireOutcome)
        requires
            old(self).wf(),
        ensures
            final(self).wf(),
            old(self)@.acquired(now, outcome.lease.slot(), final(self)@),
            outcome.lease.id() == final(self)@.current_generation().id,
            outcome.rotated_to == (if old(self)@.due(old(self)@.current_generation(), now) {
                Some(old(self)@.new_id())
            } else {
                None
            }),
            outcome.rotated_from == (if old(self)@.due(old(self)@.current_generation(), now) {
                Some(old(self)@.current_generation().id)
            } else {
                None
            }),
    {
        let ghost start = self@;
        let mut rotated_from: Option<u64> = None;
        let mut rotated_to: Option<u64> = None;
        let mut active = self.current_state();
        if self.should_rotate(&active, now) {
            let new_id: u64 = self.next_generation_id.saturating_add(1);
            self.next_generation_id = self.next_generation_id.wrapping_add(1);
            rotated_from = Some(active.id);
            rotated_to = Some(new_id);
            let retired: Option<GenerationState> = if active.active_streams > 0 {
                active.draining = true;
                Some(active)
            } else {
                None
            };
            self.slots[self.current] = retired;
            assert(self@.generations =~= start.kept());
            let slot: usize = self.vacant_slot();
            active = GenerationState::new(new_id, now);
            self.slots[slot] = Some(active);
            self.current = slot;
            assert(self@.generations =~= start.rotated(now, slot as nat).generations);
        }
        let ghost middle = self@;
        let slot: usize = self.current;
        active.active_streams = active.active_streams.wrapping_add(1);
        self.slots[slot] = Some(active);
        assert(self@.generations =~= middle.joined().generations);
        AcquireOutcome {
            lease: GenerationLease { slot, generation_id: active.id },
            rotated_from,
            rotated_to,
        }
    }

    /// The generation that takes new streams.
    fn current_state(&self) -> (generation: GenerationState)
        requires
            self.wf(),
        ensures
            generation == self@.current_generation(),
            self.current < self.slots@.len(),
            self.slots@[self.current as int] == Some(generation),
    {
        proof {
            assert(self@.generations.contains_key(self.current as nat));
        }
        self.slots[self.current].unwrap()
    }

    /// A place where no generation stands, made at the end of the table if
    /// every place is taken.
    fn vacant_slot(&mut self) -> (slot: usize)
        ensures
            slot < final(self).slots@.len(),
            final(self).slots@[slot as int] is None,
            final(self)@ == old(self)@,
    {
        let mut slot: usize = 0;
        while slot < self.slots.len()
            invariant
                slot <= self.slots@.len(),
                *self == *old(self),
            decreases self.slots@.len() - slot,
        {
            if self.slots[slot].is_none() {
                return slot;
            }
            slot = slot + 1;
        }
        let ghost start = self@;
        self.slots.push(None);
        assert(self@.generations =~= start.generations);
        slot
    }

    /// Puts `count` bytes on the account of the generation that a stream belongs to.
    pub fn add_bytes(&mut self, lease: &GenerationLease, count: u64)
        requires
            old(self).wf(),
            old(self)@.holds(lease.slot(), lease.id()),
        ensures
            final(self).wf(),
            final(self)@ == old(self)@.credited(lease.slot(), count),
    {
        let ghost start = self@;
        proof {
            assert(self@.generations.contains_key(lease.slot as nat));
        }
        if let Some(mut generation) = self.slots[lease.slot] {
            generation.add_bytes(count);
            self.slots[lease.slot] = Some(generation);
            assert(self@.generations =~= start.credited(lease.slot(), count).generations);
        }
    }

    /// Takes a stream off the generation it belongs to. Returns the number of
    /// the generation if it had been replaced and this was its last stream.
    pub fn release(&mut self, lease: GenerationLease) -> (drained: Option<u64>)
        requires
            old(self).wf(),
            old(self)@.holds(lease.slot(), lease.id()),
        ensures
            final(self).wf(),
            final(self)@ == old(self)@.released(lease.slot()),
            drained == (if old(self)@.drains(lease.slot()) {
                Some(lease.id())
            } else {
                None
            }),
    {
        let ghost start = self@;
        proof {
            assert(self@.generations.contains_key(lease.slot as nat));
        }
        match self.slots[lease.slot] {
            Some(mut generation) => {
                let remaining: u64 = generation.active_streams - 1;
                generation.active_streams = remaining;
                if generation.draining && remaining == 0 {
                    self.slots[lease.slot] = None;
                    assert(self@.generations =~= start.released(lease.slot()).generations);
                    Some(generation.id)
                } else {
                    self.slots[lease.slot] = Some(generation);
                    assert(self@.generations =~= start.released(lease.slot()).generations);
                    None
                }
            },
            None => None,
        }
    }

    /// Whether a lease is on a generation that stands in the table and serves a stream.
    pub fn is_held(&self, lease: &GenerationLease) -> (held: bool)
        ensures
            held == self@.holds(lease.slot(), lease.id()),
    {
        if lease.slot < self.slots.len() {
            match self.slots[lease.slot] {
                Some(generation) => generation.id == lease.generation_id
                    && generation.active_streams > 0,
                None => false,
            }
        } else {
            false
        }
    }
}

impl Rotation {
    /// The streams counted are the leases handed out and not yet given back:
    /// each is on a generation that stands where it says, and a generation
    /// serves as many streams as there are leases on it.
    pub open spec fn accounts_for(self, leases: Multiset<(nat, u64)>) -> bool {
        &&& forall|lease: (nat, u64)| #[trigger]
            leases.count(lease) > 0 ==> {
                &&& self.generations.contains_key(lease.0)
                &&& self.generations[lease.0].id == lease.1
            }
        &&& forall|slot: nat| #[trigger]
            self.generations.contains_key(slot) ==> self.generations[slot].active_streams
                == leases.count((slot, self.generations[slot].id))
    }

    /// Generations are numbered upwards and no number is used twice: the
    /// counter is the number of the current generation, and every other
    /// generation has a smaller one.
    pub open spec fn numbered(self) -> bool {
        &&& self.generations.contains_key(self.current)
        &&& self.generations[self.current].id == self.next_id
        &&& forall|slot: nat| #[trigger]
            self.generations.contains_key(slot) && slot != self.current
                ==> self.generations[slot].id < self.next_id
        &&& forall|a: nat, b: nat| #[trigger]
            self.generations.contains_key(a) && #[trigger] self.generations.contains_key(b) && a
                != b ==> self.generations[a].id != self.generations[b].id
    }
}

/// A manager starts with no stream, and its first generation is numbered 1.
pub proof fn law_start_serves_no_stream(start: Rotation, now: u128)
    requires
        start.valid(),
        start.next_id == 1,
        start.current == 0,
        start.generations == map![0nat => GenerationState::fresh(1, now)],
    ensures
        start.accounts_for(Multiset::empty()),
        start.numbered(),
{
}

/// A new stream gets a lease of its own on the generation that is current
/// afterwards, and every lease that was held before still is, on the same
/// generation: replacing a generation interrupts no stream. A generation can
/// count 2^64 - 1 streams at once; it has to have room for one more.
pub proof fn law_acquire_keeps_leases(
    pre: Rotation,
    post: Rotation,
    now: u128,
    slot: nat,
    leases: Multiset<(nat, u64)>,
)
    requires
        pre.valid(),
        pre.accounts_for(leases),
        pre.due(pre.current_generation(), now) || pre.current_generation().active_streams
            < u64::MAX,
        pre.acquired(now, slot, post),
    ensures
        post.valid(),
        slot == post.current,
        post.accounts_for(leases.insert((slot, post.current_generation().id))),
        post.holds(slot, post.current_generation().id),
        forall|lease: (nat, u64)| #[trigger]
            leases.count(lease) > 0 ==> {
                &&& post.holds(lease.0, lease.1)
                &&& post.generations[lease.0].bytes == pre.generations[lease.0].bytes
                &&& post.generations[lease.0].started_at == pre.generations[lease.0].started_at
            },
{
    let new_lease = (slot, post.current_generation().id);
    let after = leases.insert(new_lease);
    let current = pre.current_generation();
    assert(pre.generations.contains_key(pre.current));
    assert(current.active_streams == leases.count((pre.current, current.id)));
    if pre.due(current, now) {
        assert forall|id: u64| leases.count((slot, id)) == 0 by {
            if leases.count((slot, id)) > 0 {
                assert(pre.generations.contains_key((slot, id).0));
            }
        }
    }
    assert forall|lease: (nat, u64)| #[trigger] leases.count(lease) > 0 implies {
        &&& post.holds(lease.0, lease.1)
        &&& post.generations[lease.0].bytes == pre.generations[lease.0].bytes
        &&& post.generations[lease.0].started_at == pre.generations[lease.0].started_at
    } by {
        assert(pre.generations.contains_key(lease.0));
        assert(lease == (lease.0, pre.generations[lease.0].id));
        if pre.due(current, now) {
            assert(leases.count((slot, lease.1)) == 0);
            assert(lease.0 != slot);
        }
    }
    assert forall|lease: (nat, u64)| #[trigger] after.count(lease) > 0 implies {
        &&& post.generations.contains_key(lease.0)
        &&& post.generations[lease.0].id == lease.1
    } by {
        if lease != new_lease {
            assert(leases.count(lease) > 0);
        }
    }
    assert forall|s: nat| #[trigger]
        post.generations.contains_key(s) implies post.generations[s].active_streams
        == after.count((s, post.generations[s].id)) by {
        if s == slot {
            if pre.due(current, now) {
                assert(leases.count((slot, new_lease.1)) == 0);
            }
        } else {
            assert(pre.generations.contains_key(s));
        }
    }
}

/// A stream that leaves ends its own lease and no other. The generation it
/// leaves goes exactly if it had been replaced and no other stream is on it.
pub proof fn law_release_keeps_other_leases(
    pre: Rotation,
    slot: nat,
    id: u64,
    leases: Multiset<(nat, u64)>,
)
    requires
        pre.valid(),
        pre.accounts_for(leases),
        leases.count((slot, id)) > 0,
    ensures
        pre.holds(slot, id),
        pre.released(slot).valid(),
        pre.released(slot).accounts_for(leases.remove((slot, id))),
        pre.drains(slot) <==> pre.generations[slot].draining && leases.remove((slot, id)).count(
            (slot, id),
        ) == 0,
        pre.drains(slot) <==> !pre.released(slot).generations.contains_key(slot),
{
    let lease = (slot, id);
    let after = leases.remove(lease);
    let post = pre.released(slot);
    assert(pre.generations.contains_key(lease.0));
    assert(pre.generations[slot].active_streams == leases.count(lease));
    assert forall|l: (nat, u64)| #[trigger] after.count(l) > 0 implies {
        &&& post.generations.contains_key(l.0)
        &&& post.generations[l.0].id == l.1
    } by {
        assert(leases.count(l) > 0);
        assert(pre.generations.contains_key(l.0));
        if l.0 == slot {
            assert(l == lease);
        }
    }
    assert forall|s: nat| #[trigger]
        post.generations.contains_key(s) implies post.generations[s].active_streams
        == after.count((s, post.generations[s].id)) by {
        assert(pre.generations.contains_key(s));
    }
}

/// What a stream carries goes on the account of its own generation alone, and
/// changes no lease.
pub proof fn law_credit_keeps_leases(
    pre: Rotation,
    slot: nat,
    id: u64,
    count: u64,
    leases: Multiset<(nat, u64)>,
)
    requires
        pre.valid(),
        pre.accounts_for(leases),
        leases.count((slot, id)) > 0,
    ensures
        pre.holds(slot, id),
        pre.credited(slot, count).valid(),
        pre.credited(slot, count).accounts_for(leases),
        forall|other: nat| #[trigger]
            pre.generations.contains_key(other) && other != slot ==> pre.credited(
                slot,
                count,
            ).generations[other] == pre.generations[other],
{
    let lease = (slot, id);
    let post = pre.credited(slot, count);
    assert(pre.generations.contains_key(lease.0));
    assert forall|l: (nat, u64)| #[trigger] leases.count(l) > 0 implies {
        &&& post.generations.contains_key(l.0)
        &&& post.generations[l.0].id == l.1
    } by {
        assert(pre.generations.contains_key(l.0));
    }
    assert forall|s: nat| #[trigger]
        post.generations.contains_key(s) implies post.generations[s].active_streams
        == leases.count((s, post.generations[s].id)) by {
        assert(pre.generations.contains_key(s));
    }
}

/// A generation that was replaced gets no new stream: whatever generation a
/// new stream is assigned to, the ones that were draining are as they were.
/// One that is due is replaced before it gets another stream.
pub proof fn law_replaced_generations_take_no_stream(
    pre: Rotation,
    post: Rotation,
    now: u128,
    slot: nat,
)
    requires
        pre.valid(),
        pre.acquired(now, slot, post),
    ensures
        forall|s: nat| #[trigger]
            pre.generations.contains_key(s) && pre.generations[s].draining
                ==> post.generations.contains_key(s) && post.generations[s]
                == pre.generations[s],
        pre.due(pre.current_generation(), now) && pre.current_generation().active_streams > 0
            ==> post.generations.contains_key(pre.current) && post.generations[pre.current]
            == pre.current_generation().retired(),
        pre.due(pre.current_generation(), now) ==> post.current_generation()
            == GenerationState::fresh(pre.new_id(), now).opened(),
{
    assert forall|s: nat| #[trigger]
        pre.generations.contains_key(s) && pre.generations[s].draining
        implies post.generations.contains_key(s) && post.generations[s] == pre.generations[s] by {
        assert(s != pre.current);
    }
}

/// Generations are numbered upwards for as long as the counter lasts: a new
/// one has a larger number than every one before it. Nothing but replacing the
/// current generation moves the counter.
pub proof fn law_generation_numbers_increase(
    pre: Rotation,
    post: Rotation,
    now: u128,
    slot: nat,
)
    requires
        pre.valid(),
        pre.numbered(),
        pre.next_id < u64::MAX,
        pre.acquired(now, slot, post),
    ensures
        post.numbered(),
        pre.due(pre.current_generation(), now) ==> {
            &&& post.current_generation().id == pre.current_generation().id + 1
            &&& forall|s: nat| #[trigger]
                pre.generations.contains_key(s) ==> pre.generations[s].id
                    < post.current_generation().id
        },
        !pre.due(pre.current_generation(), now) ==> post.current_generation().id
            == pre.current_generation().id,
{
    assert forall|s: nat| #[trigger]
        post.generations.contains_key(s) && s != post.current
        implies post.generations[s].id < post.next_id by {
        assert(pre.generations.contains_key(s));
    }
    assert forall|a: nat, b: nat| #[trigger]
        post.generations.contains_key(a) && #[trigger] post.generations.contains_key(b) && a != b
        implies post.generations[a].id != post.generations[b].id by {
        if a != post.current {
            assert(pre.generations.contains_key(a));
        }
        if b != post.current {
            assert(pre.generations.contains_key(b));
        }
    }
}

/// Carrying bytes and leaving streams number no generation anew.
pub proof fn law_numbers_stay(pre: Rotation, slot: nat, id: u64, count: u64)
    requires
        pre.valid(),
        pre.numbered(),
        pre.holds(slot, id),
    ensures
        pre.credited(slot, count).numbered(),
        pre.released(slot).numbered(),
{
    let credited = pre.credited(slot, count);
    let released = pre.released(slot);
    assert forall|s: nat| #[trigger]
        credited.generations.contains_key(s) && s != credited.current
        implies credited.generations[s].id < credited.next_id by {
        assert(pre.generations.contains_key(s));
    }
    assert forall|s: nat| #[trigger]
        released.generations.contains_key(s) && s != released.current
        implies released.generations[s].id < released.next_id by {
        assert(pre.generations.contains_key(s));
    }
    assert forall|a: nat, b: nat| #[trigger]
        credited.generations.contains_key(a) && #[trigger] credited.generations.contains_key(b)
            && a != b implies credited.generations[a].id != credited.generations[b].id by {
        assert(pre.generations.contains_key(a) && pre.generations.contains_key(b));
    }
    assert forall|a: nat, b: nat| #[trigger]
        released.generations.contains_key(a) && #[trigger] released.generations.contains_key(b)
            && a != b implies released.generations[a].id != released.generations[b].id by {
        assert(pre.generations.contains_key(a) && pre.generations.contains_key(b));
    }
}

/// A generation is due exactly if at least `cycle_after` nanoseconds have
/// passed since it began, or it has carried at least `cycle_bytes` bytes. On a
/// clock that is behind its beginning no time has passed.
pub proof fn law_due_by_time_or_bytes(state: Rotation, generation: GenerationState, now: u128)
    ensures
        generation.bytes >= state.cycle_bytes ==> state.due(generation, now),
        now >= generation.started_at && now - generation.started_at >= state.cycle_after
            ==> state.due(generation, now),
        state.cycle_after == 0 ==> state.due(generation, now),
        generation.bytes < state.cycle_bytes && state.cycle_after > 0 && now
            < generation.started_at + state.cycle_after ==> !state.due(generation, now),
{
}

/// What a new stream does to the generations. If the current one has served
/// `cycle_after` nanoseconds or carried `cycle_bytes` bytes, a new one takes its
/// place, with the next number, no bytes and this stream, and the old one stays
/// as it is, apart from being marked, exactly if it serves a stream. If not, the
/// current one has one stream more and is otherwise as it was. All others are
/// left alone in either case.
pub proof fn law_new_stream_changes_current_generation(
    pre: Rotation,
    post: Rotation,
    now: u128,
    slot: nat,
)
    requires
        pre.valid(),
        pre.acquired(now, slot, post),
    ensures
        ({
            let old_one = pre.generations[pre.current];
            let replaced = old_one.bytes >= pre.cycle_bytes || now >= old_one.started_at
                + pre.cycle_after || pre.cycle_after == 0;
            let new_one = post.generations[slot];
            &&& post.cycle_after == pre.cycle_after
            &&& post.cycle_bytes == pre.cycle_bytes
            &&& post.current == slot
            &&& post.generations.contains_key(slot)
            &&& !new_one.draining
            &&& replaced ==> {
                &&& new_one.id == (if pre.next_id < 0xffff_ffff_ffff_ffff {
                    pre.next_id + 1
                } else {
                    0xffff_ffff_ffff_ffff
                })
                &&& new_one.started_at == now
                &&& new_one.bytes == 0
                &&& new_one.active_streams == 1
                &&& post.next_id == (if pre.next_id < 0xffff_ffff_ffff_ffff {
                    pre.next_id + 1
                } else {
                    0
                })
                &&& old_one.active_streams > 0 ==> {
                    let kept = post.generations[pre.current];
                    &&& slot != pre.current
                    &&& post.generations.contains_key(pre.current)
                    &&& kept.id == old_one.id
                    &&& kept.started_at == old_one.started_at
                    &&& kept.bytes == old_one.bytes
                    &&& kept.active_streams == old_one.active_streams
                    &&& kept.draining
                }
                &&& old_one.active_streams == 0 && slot != pre.current
                    ==> !post.generations.contains_key(pre.current)
                &&& slot != pre.current ==> !pre.generations.contains_key(slot)
            }
            &&& !replaced ==> {
                &&& slot == pre.current
                &&& post.next_id == pre.next_id
                &&& new_one.id == old_one.id
                &&& new_one.started_at == old_one.started_at
                &&& new_one.bytes == old_one.bytes
                &&& new_one.active_streams == (if old_one.active_streams
                    < 0xffff_ffff_ffff_ffff {
                    old_one.active_streams + 1
                } else {
                    0
                })
            }
            &&& forall|s: nat|
                s != pre.current && s != slot ==> (#[trigger] post.generations.contains_key(s)
                    <==> pre.generations.contains_key(s))
            &&& forall|s: nat|
                s != pre.current && s != slot && pre.generations.contains_key(s)
                    ==> #[trigger] post.generations[s] == pre.generations[s]
        }),
{
}

/// Once the streams of the current generation have brought its account to the
/// data window, the next stream starts a new generation, at any time.
pub proof fn law_full_generation_is_replaced(
    pre: Rotation,
    count: u64,
    now: u128,
    slot: nat,
    post: Rotation,
)
    requires
        pre.valid(),
        pre.generations[pre.current].bytes + count <= u64::MAX,
        pre.generations[pre.current].bytes + count >= pre.cycle_bytes,
        pre.credited(pre.current, count).acquired(now, slot, post),
    ensures
        post.generations[slot].started_at == now,
        post.generations[slot].bytes == 0,
        post.generations[slot].active_streams == 1,
        pre.next_id < u64::MAX ==> post.generations[slot].id == pre.next_id + 1,
        pre.generations[pre.current].active_streams > 0 ==> {
            &&& post.generations[pre.current].draining
            &&& post.generations[pre.current].bytes == pre.generations[pre.current].bytes + count
        },
{
}

/// Bytes go on one account, which wraps round at 2^64, and change nothing else.
pub proof fn law_credit_adds_up(pre: Rotation, slot: nat, count: u64)
    requires
        pre.generations.contains_key(slot),
    ensures
        ({
            let post = pre.credited(slot, count);
            let before = pre.generations[slot];
            let after = post.generations[slot];
            &&& post.cycle_after == pre.cycle_after
            &&& post.cycle_bytes == pre.cycle_bytes
            &&& post.next_id == pre.next_id
            &&& post.current == pre.current
            &&& post.generations.dom() == pre.generations.dom()
            &&& after.bytes == (before.bytes + count) % 0x1_0000_0000_0000_0000
            &&& after == before.credited(count)
            &&& after.id == before.id
            &&& after.started_at == before.started_at
            &&& after.active_streams == before.active_streams
            &&& after.draining == before.draining
            &&& forall|s: nat|
                s != slot && pre.generations.contains_key(s) ==> #[trigger] post.generations[s]
                    == pre.generations[s]
        }),
{
    let post = pre.credited(slot, count);
    assert(post.generations.dom() =~= pre.generations.dom());
}

/// A stream that leaves takes one off the count of its generation. A generation
/// that was replaced goes when that leaves none, and is the one that is said to
/// have drained; any other stays.
pub proof fn law_release_takes_one_off(pre: Rotation, slot: nat, id: u64)
    requires
        pre.holds(slot, id),
    ensures
        ({
            let post = pre.released(slot);
            let before = pre.generations[slot];
            let after = post.generations[slot];
            &&& pre.generations.contains_key(slot)
            &&& before.id == id
            &&& before.active_streams >= 1
            &&& post.cycle_after == pre.cycle_after
            &&& post.cycle_bytes == pre.cycle_bytes
            &&& post.next_id == pre.next_id
            &&& post.current == pre.current
            &&& pre.drains(slot) <==> (before.draining && before.active_streams == 1)
            &&& post.generations.contains_key(slot) <==> !(before.draining
                && before.active_streams == 1)
            &&& post.generations.contains_key(slot) ==> {
                &&& after.active_streams == before.active_streams - 1
                &&& after.id == before.id
                &&& after.started_at == before.started_at
                &&& after.bytes == before.bytes
                &&& after.draining == before.draining
            }
            &&& forall|s: nat|
                s != slot ==> (#[trigger] post.generations.contains_key(s)
                    <==> pre.generations.contains_key(s))
            &&& forall|s: nat|
                s != slot && pre.generations.contains_key(s) ==> #[trigger] post.generations[s]
                    == pre.generations[s]
        }),
{
}

/// A lease is held exactly if a generation with its number and a stream stands
/// in its place. States are sound exactly if the data window is not empty, the
/// current generation takes streams, and every other serves some and takes none.
pub proof fn law_held_and_sound(state: Rotation, slot: nat, id: u64)
    ensures
        state.holds(slot, id) <==> (state.generations.contains_key(slot)
            && state.generations[slot].id == id && state.generations[slot].active_streams >= 1),
        state.current_generation() == state.generations[state.current],
        state.valid() <==> {
            &&& state.cycle_bytes >= 1
            &&& state.generations.contains_key(state.current)
            &&& !state.generations[state.current].draining
            &&& forall|s: nat|
                s != state.current && #[trigger] state.generations.contains_key(s) ==> {
                    &&& state.generations[s].draining
                    &&& state.generations[s].active_streams >= 1
                }
        },
{
}

/// A generation begins with nothing, and a data window of 0 stands for 1.
pub proof fn law_generations_begin_empty(id: u64, now: u128, window: nat, state: Rotation)
    ensures
        GenerationState::fresh(id, now).id == id,
        GenerationState::fresh(id, now).started_at == now,
        GenerationState::fresh(id, now).bytes == 0,
        GenerationState::fresh(id, now).active_streams == 0,
        !GenerationState::fresh(id, now).draining,
        window >= 1 ==> max_one(window) == window,
        max_one(0) == 1,
        state.next_id < u64::MAX ==> state.new_id() == state.next_id + 1,
        state.next_id == u64::MAX ==> state.new_id() == u64::MAX,
{
}

/// The account of a single generation adds up as it does among others.
pub proof fn law_account_adds_up(generation: GenerationState, count: u64)
    ensures
        generation.credited(count).bytes == (generation.bytes + count)
            % 0x1_0000_0000_0000_0000,
        generation.credited(count).id == generation.id,
        generation.credited(count).started_at == generation.started_at,
        generation.credited(count).active_streams == generation.active_streams,
        generation.credited(count).draining == generation.draining,
{
}

/// What [`RotationManager::should_rotate`] returns, with the windows that the
/// manager was made with.
pub proof fn law_should_rotate(
    cycle_after: u128,
    cycle_bytes: u64,
    start: u128,
    manager: RotationManager,
    generation: &GenerationState,
    now: u128,
    due: bool,
)
    requires
        call_ensures(RotationManager::new, (cycle_after, cycle_bytes, start), manager),
        call_ensures(RotationManager::should_rotate, (&manager, generation, now), due),
    ensures
        due <==> (cycle_after == 0 || now >= generation.started_at + cycle_after
            || generation.bytes >= cycle_bytes && generation.bytes >= 1),
{
    law_due_by_time_or_bytes(manager@, *generation, now);
}

/// What [`RotationManager::new`] returns: the windows as they were given, and
/// one generation, numbered 1, with nothing on it.
pub proof fn law_new_manager(
    cycle_after: u128,
    cycle_bytes: u64,
    now: u128,
    manager: RotationManager,
    slot: nat,
)
    requires
        call_ensures(RotationManager::new, (cycle_after, cycle_bytes, now), manager),
    ensures
        manager@.cycle_after == cycle_after,
        cycle_bytes >= 1 ==> manager@.cycle_bytes == cycle_bytes,
        cycle_bytes == 0 ==> manager@.cycle_bytes == 1,
        manager@.next_id == 1,
        manager@.generations.contains_key(slot) <==> slot == manager@.current,
        manager@.generations[manager@.current] == (GenerationState {
            id: 1,
            started_at: now,
            bytes: 0,
            active_streams: 0,
            draining: false,
        }),
{
}

/// What [`GenerationState::new`] returns: a generation with this number and this
/// beginning, and nothing on it.
pub proof fn law_new_generation(id: u64, now: u128, generation: GenerationState)
    requires
        call_ensures(GenerationState::new, (id, now), generation),
    ensures
        generation == (GenerationState {
            id,
            started_at: now,
            bytes: 0,
            active_streams: 0,
            draining: false,
        }),
{
}

/// What [`RotationManager::acquire`] returns and does: it replaces the current
/// generation exactly if that has served its time or carried its bytes, says so
/// with both numbers, and gives the stream a lease on the generation that is
/// current afterwards, which counts it.
pub proof fn law_acquire()
    ensures
        forall|manager: &mut RotationManager, now: u128, outcome: AcquireOutcome| #[trigger]
            call_ensures(RotationManager::acquire, (manager, now), outcome) && manager@.valid()
                ==> {
                let old_one = manager@.generations[manager@.current];
                let new_one = final(manager)@.generations[outcome.lease.slot()];
                let replaced = old_one.bytes >= manager@.cycle_bytes || now >= old_one.started_at
                    + manager@.cycle_after || manager@.cycle_after == 0;
                &&& final(manager)@.valid()
                &&& manager@.acquired(now, outcome.lease.slot(), final(manager)@)
                &&& final(manager)@.current == outcome.lease.slot()
                &&& outcome.lease.id() == new_one.id
                &&& replaced ==> {
                    &&& outcome.rotated_from == Some(old_one.id)
                    &&& outcome.rotated_to == Some(new_one.id)
                    &&& manager@.next_id < u64::MAX ==> new_one.id == manager@.next_id + 1
                    &&& new_one.started_at == now
                    &&& new_one.bytes == 0
                    &&& new_one.active_streams == 1
                }
                &&& !replaced ==> {
                    &&& outcome.rotated_from is None
                    &&& outcome.rotated_to is None
                    &&& new_one.id == old_one.id
                    &&& new_one.bytes == old_one.bytes
                    &&& new_one.started_at == old_one.started_at
                    &&& old_one.active_streams < u64::MAX ==> new_one.active_streams
                        == old_one.active_streams + 1
                }
            },
{
    assert forall|manager: &mut RotationManager, now: u128, outcome: AcquireOutcome| #[trigger]
        call_ensures(RotationManager::acquire, (manager, now), outcome)
            && manager@.valid() implies manager@.acquired(
        now,
        outcome.lease.slot(),
        final(manager)@,
    ) by {}
}

/// What [`RotationManager::release`] and [`RotationManager::add_bytes`] return
/// and do to the generation of a lease that is held.
pub proof fn law_release_and_credit()
    ensures
        forall|manager: &mut RotationManager, lease: GenerationLease, drained: Option<u64>|
            #[trigger] call_ensures(RotationManager::release, (manager, lease), drained)
                && manager@.holds(lease.slot(), lease.id()) ==> {
                let before = manager@.generations[lease.slot()];
                let last = before.draining && before.active_streams == 1;
                let post = final(manager)@.generations;
                &&& final(manager)@ == manager@.released(lease.slot())
                &&& last ==> drained == Some(lease.id()) && !post.contains_key(lease.slot())
                &&& !last ==> drained is None && post[lease.slot()].active_streams
                    == before.active_streams - 1
            },
        forall|manager: &mut RotationManager, lease: &GenerationLease, count: u64| #[trigger]
            call_ensures(RotationManager::add_bytes, (manager, lease, count), ())
                && manager@.holds(lease.slot(), lease.id()) ==> {
                let before = manager@.generations[lease.slot()];
                let after = final(manager)@.generations[lease.slot()];
                &&& final(manager)@ == manager@.credited(lease.slot(), count)
                &&& after.bytes == (before.bytes + count) % 0x1_0000_0000_0000_0000
                &&& after.active_streams == before.active_streams
                &&& after.id == before.id
            },
        forall|generation: &mut GenerationState, count: u64| #[trigger]
            call_ensures(GenerationState::add_bytes, (generation, count), ())
                ==> {
                &&& final(generation).bytes == (generation.bytes + count)
                    % 0x1_0000_0000_0000_0000
                &&& final(generation).id == generation.id
                &&& final(generation).started_at == generation.started_at
                &&& final(generation).active_streams == generation.active_streams
                &&& final(generation).draining == generation.draining
            },
        forall|manager: &RotationManager, lease: &GenerationLease, held: bool| #[trigger]
            call_ensures(RotationManager::is_held, (manager, lease), held) ==> held == (
            manager@.generations.contains_key(lease.slot())
                && manager@.generations[lease.slot()].id == lease.id()
                && manager@.generations[lease.slot()].active_streams >= 1),
        forall|lease: &GenerationLease, id: u64| #[trigger]
            call_ensures(GenerationLease::generation_id, (lease,), id) ==> id == lease.id(),
{
}

} // verus!
