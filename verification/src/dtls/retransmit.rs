//! Retransmission timing of handshake flights.

use vstd::prelude::*;

verus! {

/// Nanoseconds in a second.
pub const SECOND: u128 = 1_000_000_000;

/// The longest representable duration in nanoseconds: `u64::MAX` seconds and
/// 999 999 999 nanoseconds.
pub const MAX_DURATION: u128 = 18_446_744_073_709_551_615_999_999_999;

/// Time after which a flight is first transmitted again.
pub const INITIAL_RETRANSMIT_TIMEOUT: u128 = 1_000_000_000;

/// Upper limit of the retransmission interval.
pub const MAX_RETRANSMIT_TIMEOUT: u128 = 60_000_000_000;

/// How many duplicates of the peer's flight are answered in one wait.
pub const MAX_DUPLICATE_RETRANSMISSIONS: u8 = 4;

/// The initial retransmit interval, in nanoseconds.
pub fn driver_initial_retransmit_timeout() -> (timeout: u128)
    ensures
        timeout == 1 * SECOND,
{
    INITIAL_RETRANSMIT_TIMEOUT
}

/// How the loopback server finishes the handshake.
#[derive(Debug, Clone, Copy, PartialEq, Eq, Structural)]
pub enum LoopbackEnd {
    /// Complete the handshake and return the session keys.
    Complete,
    /// Replace the first cookie, then complete the handshake.
    ReplaceCookieThenComplete,
    /// Send a plaintext fatal alert instead of the ChangeCipherSpec and
    /// Finished flight.
    AlertInsteadOfFinished,
    /// Send a protected fatal alert instead of the ChangeCipherSpec and
    /// Finished flight.
    ProtectedAlertInsteadOfFinished,
}

/// The interval that follows `timeout`: twice as long, at most 60 seconds.
pub open spec fn backed_off(timeout: u128) -> u128 {
    if 2 * timeout <= MAX_RETRANSMIT_TIMEOUT {
        (2 * timeout) as u128
    } else {
        MAX_RETRANSMIT_TIMEOUT
    }
}

/// The retransmission interval of one wait, in nanoseconds.
#[derive(Debug, Clone, Copy)]
pub struct RetransmitSchedule {
    timeout: u128,
}

impl View for RetransmitSchedule {
    type V = u128;

    closed spec fn view(&self) -> u128 {
        self.timeout
    }
}

impl RetransmitSchedule {
    /// A schedule that starts at the initial interval.
    pub fn new() -> (schedule: Self)
        ensures
            schedule@ == INITIAL_RETRANSMIT_TIMEOUT,
    {
        RetransmitSchedule { timeout: INITIAL_RETRANSMIT_TIMEOUT }
    }

    /// A schedule that starts at `timeout`.
    pub fn with_initial(timeout: u128) -> (schedule: Self)
        ensures
            schedule@ == timeout,
    {
        RetransmitSchedule { timeout }
    }

    /// The current interval.
    pub fn timeout(self) -> (timeout: u128)
        ensures
            timeout == self@,
    {
        self.timeout
    }

    /// Doubles the interval, up to 60 seconds.
    pub fn back_off(&mut self)
        ensures
            final(self)@ == backed_off(old(self)@),
    {
        self.timeout = if self.timeout <= MAX_RETRANSMIT_TIMEOUT / 2 {
            self.timeout * 2
        } else {
            MAX_RETRANSMIT_TIMEOUT
        };
    }
}

/// The interval after `n` retransmissions that started from `timeout`.
pub open spec fn backed_off_times(timeout: u128, n: nat) -> u128
    decreases n,
{
    if n == 0 {
        timeout
    } else {
        backed_off(backed_off_times(timeout, (n - 1) as nat))
    }
}

/// From the initial interval on, the interval never shrinks and never exceeds
/// 60 seconds, and it stays there once reached.
pub proof fn law_back_off_is_bounded(n: nat)
    ensures
        INITIAL_RETRANSMIT_TIMEOUT <= backed_off_times(INITIAL_RETRANSMIT_TIMEOUT, n)
            <= MAX_RETRANSMIT_TIMEOUT,
        backed_off_times(INITIAL_RETRANSMIT_TIMEOUT, n) <= backed_off_times(
            INITIAL_RETRANSMIT_TIMEOUT,
            n + 1,
        ),
        n >= 6 ==> backed_off_times(INITIAL_RETRANSMIT_TIMEOUT, n) == MAX_RETRANSMIT_TIMEOUT,
    decreases n,
{
    if n > 0 {
        law_back_off_is_bounded((n - 1) as nat);
        reveal_with_fuel(backed_off_times, 8);
    }
}

/// Counts the duplicate-triggered retransmissions of one wait.
#[derive(Debug, Clone, Copy)]
pub struct DuplicateRetransmitBudget {
    used: u8,
}

impl View for DuplicateRetransmitBudget {
    type V = u8;

    closed spec fn view(&self) -> u8 {
        self.used
    }
}

impl DuplicateRetransmitBudget {
    /// A budget of which nothing is used.
    pub fn new() -> (budget: Self)
        ensures
            budget@ == 0,
    {
        DuplicateRetransmitBudget { used: 0 }
    }

    /// Uses one response, or returns false once all are used.
    pub fn take(&mut self) -> (granted: bool)
        ensures
            granted == (old(self)@ < MAX_DUPLICATE_RETRANSMISSIONS),
            final(self)@ == if granted {
                (old(self)@ + 1) as u8
            } else {
                old(self)@
            },
    {
        if self.used >= MAX_DUPLICATE_RETRANSMISSIONS {
            return false;
        }
        self.used = self.used + 1;
        true
    }
}

/// How many of `takes` responses a budget grants of which `used` are used.
pub open spec fn granted_of(used: u8, takes: nat) -> nat
    decreases takes,
{
    if takes == 0 {
        0
    } else if used < MAX_DUPLICATE_RETRANSMISSIONS {
        1 + granted_of((used + 1) as u8, (takes - 1) as nat)
    } else {
        granted_of(used, (takes - 1) as nat)
    }
}

/// A fresh budget grants the first four responses and no more, however often
/// it is asked.
pub proof fn law_four_duplicates_are_answered(takes: nat)
    ensures
        granted_of(0, takes) == if takes <= MAX_DUPLICATE_RETRANSMISSIONS {
            takes
        } else {
            MAX_DUPLICATE_RETRANSMISSIONS as nat
        },
{
    lemma_granted(0, takes);
}

proof fn lemma_granted(used: u8, takes: nat)
    requires
        used <= MAX_DUPLICATE_RETRANSMISSIONS,
    ensures
        granted_of(used, takes) == if takes <= MAX_DUPLICATE_RETRANSMISSIONS - used {
            takes
        } else {
            (MAX_DUPLICATE_RETRANSMISSIONS - used) as nat
        },
    decreases takes,
{
    if takes > 0 {
        if used < MAX_DUPLICATE_RETRANSMISSIONS {
            lemma_granted((used + 1) as u8, (takes - 1) as nat);
        } else {
            lemma_granted(used, (takes - 1) as nat);
        }
    }
}

/// The longest delay that a timer takes in one call, in nanoseconds.
pub const MAX_DELAY_NANOSECONDS: u128 = 4_294_967_295;

/// A delay of `nanoseconds` as timer calls: how many calls of
/// `MAX_DELAY_NANOSECONDS`, then one call of the rest unless that is zero.
///
/// The calls add up to the delay, and the rest is shorter than a full call.
pub fn delay_duration(nanoseconds: u128) -> (calls: (u128, u32))
    ensures
        calls.0 * MAX_DELAY_NANOSECONDS + calls.1 == nanoseconds,
        calls.1 < MAX_DELAY_NANOSECONDS,
{
    let full_chunks: u128 = nanoseconds / MAX_DELAY_NANOSECONDS;
    let remainder: u128 = nanoseconds % MAX_DELAY_NANOSECONDS;
    (full_chunks, remainder as u32)
}

} // verus!
