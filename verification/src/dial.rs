//! How the registrar dials its database at startup: the embedded server may
//! still be settling, so a failed dial is retried a few times with a
//! doubling delay before the registrar gives up.

use vstd::prelude::*;

verus! {

/// Dials made before giving up.
pub const DIAL_ATTEMPTS: u32 = 8;

/// The wait after the first failed dial, in milliseconds.
pub const FIRST_DIAL_DELAY_MS: u64 = 250;

/// The wait after failed dial number `attempt` (counting from 1): 250 ms,
/// doubling with each further attempt.
pub open spec fn dial_delay_ms(attempt: nat) -> nat
    decreases attempt,
{
    if attempt <= 1 {
        FIRST_DIAL_DELAY_MS as nat
    } else {
        2 * dial_delay_ms((attempt - 1) as nat)
    }
}

/// Where dialling stands: the number of the dial in progress and the wait
/// that follows it should it fail.
pub struct DialState {
    pub attempt: u32,
    pub delay_ms: u64,
}

/// What to do after a failed dial.
pub enum DialNext {
    /// Wait this many milliseconds, then dial again.
    Retry { delay_ms: u64 },
    /// Stop: the database is unreachable.
    GiveUp,
}

/// Dialling starts at the first attempt, with the first delay in hand.
pub fn dial_start() -> (s: DialState)
    ensures
        s.attempt == 1,
        s.delay_ms == dial_delay_ms(1),
{
    DialState { attempt: 1, delay_ms: FIRST_DIAL_DELAY_MS }
}

/// After a failed dial: before the last attempt, wait the current delay and
/// dial again with the delay doubled; after the last, give up.
pub fn dial_failed(s: DialState) -> (r: (DialState, DialNext))
    ensures
        if s.attempt < DIAL_ATTEMPTS {
            &&& r.1 == (DialNext::Retry { delay_ms: s.delay_ms })
            &&& r.0.attempt == s.attempt + 1
            &&& r.0.delay_ms == (if 2 * s.delay_ms <= u64::MAX {
                2 * s.delay_ms
            } else {
                u64::MAX as int
            })
        } else {
            r.1 is GiveUp && r.0 == s
        },
        s.attempt >= 1 && s.attempt < DIAL_ATTEMPTS && s.delay_ms == dial_delay_ms(s.attempt as nat)
            ==> r.0.delay_ms == dial_delay_ms(r.0.attempt as nat),
{
    if s.attempt < DIAL_ATTEMPTS {
        let next_delay: u64 = if s.delay_ms <= u64::MAX / 2 {
            s.delay_ms * 2
        } else {
            u64::MAX
        };
        proof {
            if s.attempt >= 1 && s.delay_ms == dial_delay_ms(s.attempt as nat) {
                lemma_dial_delay_small(s.attempt as nat);
                assert(dial_delay_ms((s.attempt + 1) as nat) == 2 * dial_delay_ms(s.attempt as nat));
            }
        }
        (DialState { attempt: s.attempt + 1, delay_ms: next_delay }, DialNext::Retry { delay_ms: s.delay_ms })
    } else {
        (s, DialNext::GiveUp)
    }
}

proof fn lemma_dial_delay_small(attempt: nat)
    requires
        1 <= attempt <= DIAL_ATTEMPTS,
    ensures
        dial_delay_ms(attempt) <= 32000,
    decreases attempt,
{
    if attempt > 1 {
        lemma_dial_delay_small((attempt - 1) as nat);
        assert(dial_delay_ms((attempt - 1) as nat) <= 250 * 64) by {
            reveal_with_fuel(dial_delay_ms, 8);
        }
    }
}

} // verus!
