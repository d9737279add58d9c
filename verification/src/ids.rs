//! Participant-id generation.
//!
//! Two strategies: a monotonic counter that never hands the same id out
//! twice, and a deterministic best-effort hash of the peer's network
//! address (collisions possible, documented as a known weakness).

use vstd::prelude::*;

verus! {

/// Monotonic participant-id source: starts at 1 and counts up, so the
/// values of any run of calls are pairwise distinct.
pub struct IdGenerator {
    next: u32,
}

impl IdGenerator {
    /// The id the next call of `next_id` will return.
    pub closed spec fn upcoming(&self) -> u32 {
        self.next
    }

    pub fn new() -> (r: IdGenerator)
        ensures
            r.upcoming() == 1u32,
    {
        IdGenerator { next: 1 }
    }

    /// The id the next call of `next_id` will return, without moving
    /// the counter; lets a caller test for exhaustion first.
    pub fn peek(&self) -> (r: u32)
        ensures
            r == self.upcoming(),
    {
        self.next
    }

    /// Hands out the current counter value and moves past it, so the same
    /// value is never returned again by this generator.
    pub fn next_id(&mut self) -> (r: u32)
        requires
            old(self).upcoming() < u32::MAX,
        ensures
            r == old(self).upcoming(),
            final(self).upcoming() == old(self).upcoming() + 1,
    {
        let value = self.next;
        self.next = self.next + 1;
        value
    }
}

/// The ids a monotonic generator hands out over `n` calls, starting at
/// counter value `start`.
pub open spec fn ids_issued(start: u32, n: nat) -> Seq<int> {
    Seq::new(n, |k: int| start + k)
}

/// Uniqueness of monotonic ids: the values of `n` sequential `next_id`
/// calls are pairwise distinct.
pub proof fn lemma_sequential_ids_distinct(start: u32, n: nat)
    ensures
        forall|i: int, j: int|
            0 <= i < j < n ==> ids_issued(start, n)[i] != ids_issued(start, n)[j],
{
}

/// FNV-1a over the address bytes, reduced to 32 bits at every step.
pub open spec fn addr_hash(bytes: Seq<u8>) -> u32
    decreases bytes.len(),
{
    if bytes.len() == 0 {
        2166136261u32
    } else {
        ((((addr_hash(bytes.drop_last()) ^ (bytes.last() as u32)) as nat * 16777619)
            % 0x1_0000_0000) as u32)
    }
}

/// Best-effort id strategy: a deterministic hash of the peer's address
/// bytes.  Two peers may collide; that is accepted where cheap ids
/// matter more than guaranteed uniqueness.
pub fn hash_id(addr: &Vec<u8>) -> (r: u32)
    ensures
        r == addr_hash(addr@),
{
    let mut h: u32 = 2166136261;
    let mut i: usize = 0;
    while i < addr.len()
        invariant
            i <= addr.len(),
            h == addr_hash(addr@.take(i as int)),
        decreases addr.len() - i,
    {
        let x: u32 = h ^ (addr[i] as u32);
        let wide: u64 = (x as u64) * 16777619u64;
        let reduced: u64 = wide % 0x1_0000_0000u64;
        proof {
            assert(addr@.take(i + 1 as int).drop_last() =~= addr@.take(i as int));
            assert(addr@.take(i + 1 as int).last() == addr@[i as int]);
        }
        h = reduced as u32;
        i = i + 1;
    }
    proof {
        assert(addr@.take(addr@.len() as int) =~= addr@);
    }
    h
}

} // verus!
