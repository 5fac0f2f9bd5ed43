//! Connecting to the edge again after a failure.
use vstd::prelude::*;

verus! {

/// How often a connection to the edge is attempted.
pub const EDGE_CONNECT_RETRIES: u32 = 3;

/// How long the first retry waits, in milliseconds; each later one waits as much longer.
pub const RETRY_DELAY_STEP_MS: u64 = 150;

/// How long an attempt waits for the TCP connection, in seconds.
pub const EDGE_CONNECT_TIMEOUT_SECS: u64 = 3;

/// How long an attempt waits for the TLS handshake, in seconds.
pub const EDGE_TLS_TIMEOUT_SECS: u64 = 8;

/// How long an attempt waits for the WebSocket upgrade, in seconds.
pub const EDGE_UPGRADE_TIMEOUT_SECS: u64 = 15;

/// The attempts to connect to the edge, numbered from 1.
#[derive(Clone, Copy, Debug, PartialEq, Eq, Structural)]
pub struct ConnectRetry {
    attempt: u32,
    max_attempts: u32,
}

/// The mathematical value of a [`ConnectRetry`].
pub struct Attempts {
    /// The number of the attempt that is being made.
    pub attempt: nat,
    /// The number of the last attempt.
    pub max_attempts: nat,
}

impl Attempts {
    pub open spec fn valid(self) -> bool {
        1 <= self.attempt <= self.max_attempts
    }

    /// The first of at most `attempts` attempts; at least one is made.
    pub open spec fn first(attempts: nat) -> Attempts {
        Attempts {
            attempt: 1,
            max_attempts: if attempts == 0 {
                1
            } else {
                attempts
            },
        }
    }

    /// How long to wait, in milliseconds, after this attempt has failed and
    /// before the next one; there is none after the last.
    pub open spec fn delay(self) -> Option<nat> {
        if self.attempt < self.max_attempts {
            Some(RETRY_DELAY_STEP_MS as nat * self.attempt)
        } else {
            None
        }
    }

    /// The attempt that follows, if there is one.
    pub open spec fn next(self) -> Attempts {
        if self.attempt < self.max_attempts {
            Attempts { attempt: self.attempt + 1, ..self }
        } else {
            self
        }
    }

    /// The attempt that is being made after `failures` failures.
    pub open spec fn after(self, failures: nat) -> Attempts
        decreases failures,
    {
        if failures == 0 {
            self
        } else {
            self.after((failures - 1) as nat).next()
        }
    }
}

impl View for ConnectRetry {
    type V = Attempts;

    closed spec fn view(&self) -> Attempts {
        Attempts { attempt: self.attempt as nat, max_attempts: self.max_attempts as nat }
    }
}

impl ConnectRetry {
    /// Whether the attempt is one of those to be made.
    pub open spec fn wf(self) -> bool {
        self@.valid()
    }

    /// Starts with the first of at most `attempts` attempts; at least one is made.
    pub fn new(attempts: u32) -> (retry: Self)
        ensures
            retry.wf(),
            retry@ == Attempts::first(attempts as nat),
    {
        Self {
            attempt: 1,
            max_attempts: if attempts == 0 {
                1
            } else {
                attempts
            },
        }
    }

    /// The number of the attempt that is being made.
    pub fn attempt(&self) -> (attempt: u32)
        ensures
            attempt == self@.attempt,
    {
        self.attempt
    }

    /// The number of the last attempt.
    pub fn max_attempts(&self) -> (max_attempts: u32)
        ensures
            max_attempts == self@.max_attempts,
    {
        self.max_attempts
    }

    /// Notes that the attempt has failed. Returns how long to wait before the
    /// next one, in milliseconds, or `None` if the failure is final.
    pub fn on_failure(&mut self) -> (delay: Option<u64>)
        requires
            old(self).wf(),
        ensures
            final(self).wf(),
            final(self)@ == old(self)@.next(),
            delay is Some <==> old(self)@.delay() is Some,
            delay matches Some(millis) ==> millis == old(self)@.delay()->0,
    {
        if self.attempt < self.max_attempts {
            let delay: u64 = RETRY_DELAY_STEP_MS * self.attempt as u64;
            self.attempt = self.attempt + 1;
            Some(delay)
        } else {
            None
        }
    }
}

/// Attempts are made until one succeeds or the last has failed: after the n-th
/// failure the next attempt waits n times 150 milliseconds, and the failure
/// with the number of the last attempt is final.
pub proof fn law_attempts_and_delays(attempts: nat, failures: nat)
    requires
        failures < Attempts::first(attempts).max_attempts,
    ensures
        Attempts::first(attempts).after(failures).valid(),
        Attempts::first(attempts).after(failures).attempt == failures + 1,
        Attempts::first(attempts).after(failures).max_attempts == Attempts::first(
            attempts,
        ).max_attempts,
        Attempts::first(attempts).after(failures).delay() == (if failures + 1 < Attempts::first(
            attempts,
        ).max_attempts {
            Some(150 * (failures + 1))
        } else {
            None
        }),
    decreases failures,
{
    if failures > 0 {
        law_attempts_and_delays(attempts, (failures - 1) as nat);
    }
}

/// As many attempts are made as were asked for, and one if none was. The wait
/// after an attempt is 150 milliseconds times its number; after the last there
/// is none, and no attempt follows it.
pub proof fn law_attempts_are_those_asked_for(asked: nat, state: Attempts)
    ensures
        Attempts::first(asked).attempt == 1,
        asked >= 1 ==> Attempts::first(asked).max_attempts == asked,
        Attempts::first(0).max_attempts == 1,
        state.attempt < state.max_attempts ==> {
            &&& state.delay() == Some(150 * state.attempt)
            &&& state.next().attempt == state.attempt + 1
        },
        state.attempt >= state.max_attempts ==> {
            &&& state.delay() is None
            &&& state.next().attempt == state.attempt
        },
        state.next().max_attempts == state.max_attempts,
        state.valid() <==> (1 <= state.attempt && state.attempt <= state.max_attempts),
{
}

/// What [`ConnectRetry::new`] returns: the first of as many attempts as were
/// asked for, or of one.
pub proof fn law_new_retry(attempts: u32, retry: ConnectRetry, attempt: u32, last: u32)
    requires
        call_ensures(ConnectRetry::new, (attempts,), retry),
        call_ensures(ConnectRetry::attempt, (&retry,), attempt),
        call_ensures(ConnectRetry::max_attempts, (&retry,), last),
    ensures
        attempt == 1,
        attempts >= 1 ==> last == attempts,
        attempts == 0 ==> last == 1,
{
}

/// What [`ConnectRetry::on_failure`] returns and does: while attempts are left,
/// it waits 150 milliseconds for each one made and moves on to the next; after
/// that it does neither.
pub proof fn law_on_failure()
    ensures
        forall|retry: &mut ConnectRetry, delay: Option<u64>| #[trigger]
            call_ensures(ConnectRetry::on_failure, (retry,), delay) ==> {
                &&& retry@.attempt < retry@.max_attempts ==> {
                    &&& delay is Some
                    &&& delay->Some_0 == 150 * retry@.attempt
                    &&& final(retry)@.attempt == retry@.attempt + 1
                }
                &&& retry@.attempt >= retry@.max_attempts ==> {
                    &&& delay is None
                    &&& final(retry)@.attempt == retry@.attempt
                }
                &&& final(retry)@.max_attempts == retry@.max_attempts
            },
{
}

} // verus!
