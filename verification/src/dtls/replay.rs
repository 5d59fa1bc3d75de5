//! DTLS anti-replay window (RFC 6347 section 4.1.2.6).

use vstd::prelude::*;

verus! {

/// Sliding 64-record anti-replay window for one epoch.
///
/// Callers check [`Self::has_seen`] before authenticating a record and call
/// [`Self::mark_seen`] only after authentication succeeds, so forged records
/// cannot advance the window.
///
/// Its view is the set of the sequence numbers that the window refuses: those
/// that were marked, and those at least 64 below one that was marked.
#[derive(Debug)]
pub struct ReplayWindow {
    newest_sequence: Option<u64>,
    seen: u64,
}

/// How many sequence numbers the window tracks.
pub const WINDOW_WIDTH: u64 = 64;

/// The sequence numbers that fall out of the window when `newest` is marked.
pub open spec fn too_old_for(newest: u64) -> Set<u64> {
    Set::new(|t: u64| t + WINDOW_WIDTH <= newest)
}

spec fn bit(word: u64, i: u64) -> bool {
    (word >> i) & 1 == 1
}

proof fn lemma_bit_of_one(j: u64)
    requires
        j < 64,
    ensures
        bit(1, j) == (j == 0),
{
    assert(((1u64 >> j) & 1 == 1) == (j == 0)) by (bit_vector)
        requires
            j < 64,
    ;
}

proof fn lemma_bit_of_shifted(word: u64, shift: u64, j: u64)
    requires
        0 < shift < 64,
        j < 64,
    ensures
        bit((word << shift) | 1, j) == (j == 0 || (j >= shift && bit(word, (j - shift) as u64))),
{
    if j >= shift {
        let k: u64 = (j - shift) as u64;
        assert(((((word << shift) | 1) >> j) & 1 == 1) == ((word >> k) & 1 == 1)) by (bit_vector)
            requires
                j < 64,
                shift < 64,
                0 < shift,
                j == k + shift,
        ;
    } else {
        assert(((((word << shift) | 1) >> j) & 1 == 1) == (j == 0)) by (bit_vector)
            requires
                j < shift,
                shift < 64,
        ;
    }
}

proof fn lemma_bit_of_set(word: u64, offset: u64, j: u64)
    requires
        offset < 64,
        j < 64,
    ensures
        bit(word | (1u64 << offset), j) == (j == offset || bit(word, j)),
{
    assert((((word | (1u64 << offset)) >> j) & 1 == 1) == (j == offset || (word >> j) & 1 == 1))
        by (bit_vector)
        requires
            offset < 64,
            j < 64,
    ;
}

impl View for ReplayWindow {
    type V = Set<u64>;

    closed spec fn view(&self) -> Set<u64> {
        match self.newest_sequence {
            None => Set::empty(),
            Some(newest) => Set::new(
                |t: u64|
                    t <= newest && (newest - t >= WINDOW_WIDTH || bit(
                        self.seen,
                        (newest - t) as u64,
                    )),
            ),
        }
    }
}

impl Clone for ReplayWindow {
    fn clone(&self) -> (window: Self)
        ensures
            window@ == self@,
    {
        ReplayWindow { newest_sequence: self.newest_sequence, seen: self.seen }
    }
}

impl Default for ReplayWindow {
    fn default() -> (window: Self)
        ensures
            window@ == Set::<u64>::empty(),
    {
        ReplayWindow::new()
    }
}

impl ReplayWindow {
    /// Creates an empty window that has seen no records.
    pub fn new() -> (window: Self)
        ensures
            window@ == Set::<u64>::empty(),
    {
        ReplayWindow { newest_sequence: None, seen: 0 }
    }

    /// Returns whether `sequence` was already marked or is too old to track.
    pub fn has_seen(&self, sequence: u64) -> (seen: bool)
        ensures
            seen == self@.contains(sequence),
    {
        match self.newest_sequence {
            None => false,
            Some(newest) => {
                if sequence > newest {
                    return false;
                }
                let offset: u64 = newest - sequence;
                offset >= WINDOW_WIDTH || ((self.seen >> offset) & 1) == 1
            },
        }
    }

    /// Marks an authenticated record's sequence number as received.
    ///
    /// Nothing that was refused before is accepted after.
    pub fn mark_seen(&mut self, sequence: u64)
        ensures
            final(self)@ == old(self)@.insert(sequence).union(too_old_for(sequence)),
    {
        let ghost before = *self;
        match self.newest_sequence {
            None => {
                self.newest_sequence = Some(sequence);
                self.seen = 1;
                proof {
                    assert forall|t: u64| self@.contains(t) == before@.insert(sequence).union(
                        too_old_for(sequence),
                    ).contains(t) by {
                        if t <= sequence && sequence - t < 64 {
                            lemma_bit_of_one((sequence - t) as u64);
                        }
                    }
                }
            },
            Some(newest) => {
                if sequence > newest {
                    let shift: u64 = sequence - newest;
                    self.seen = if shift >= WINDOW_WIDTH {
                        1
                    } else {
                        (self.seen << shift) | 1
                    };
                    self.newest_sequence = Some(sequence);
                    proof {
                        assert forall|t: u64| self@.contains(t) == before@.insert(sequence).union(
                            too_old_for(sequence),
                        ).contains(t) by {
                            if t <= sequence && sequence - t < 64 {
                                lemma_bit_of_one((sequence - t) as u64);
                                if shift < 64 {
                                    lemma_bit_of_shifted(
                                        before.seen,
                                        shift,
                                        (sequence - t) as u64,
                                    );
                                }
                            }
                        }
                    }
                } else {
                    let offset: u64 = newest - sequence;
                    if offset < WINDOW_WIDTH {
                        self.seen = self.seen | (1u64 << offset);
                        proof {
                            assert forall|t: u64|
                                t <= newest && newest - t < 64 implies #[trigger] bit(
                                self.seen,
                                (newest - t) as u64,
                            ) == (t == sequence || bit(before.seen, (newest - t) as u64)) by {
                                lemma_bit_of_set(before.seen, offset, (newest - t) as u64);
                            }
                        }
                    }
                }
            },
        }
        assert(self@ =~= before@.insert(sequence).union(too_old_for(sequence)));
    }
}

/// Marking is monotonic: what a window refuses, it refuses after any further
/// mark, and the marked number itself is refused from then on.
pub proof fn law_marked_stays_seen(window: Set<u64>, sequence: u64)
    ensures
        window.subset_of(window.insert(sequence).union(too_old_for(sequence))),
        window.insert(sequence).union(too_old_for(sequence)).contains(sequence),
{
}

/// A number above everything that was marked stays acceptable: marking an
/// older one never refuses it.
pub proof fn law_newer_stays_unseen(window: Set<u64>, sequence: u64, newer: u64)
    requires
        newer > sequence,
        !window.contains(newer),
    ensures
        !window.insert(sequence).union(too_old_for(sequence)).contains(newer),
{
}

} // verus!
