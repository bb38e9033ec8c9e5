//! A small non-cryptographic hasher meant for integer keys such as
//! allocation handles.

use std::hash::{BuildHasher, Hasher};
use vstd::prelude::*;

verus! {

/// Multiplier of one mixing step.
pub const MIX_MULTIPLIER: u64 = 0x517cc1b727220a95;

/// `h` rotated left by five bits.
pub open spec fn rotl5(h: u64) -> u64 {
    (h << 5u64) | (h >> 59u64)
}

/// One mixing step: rotate the state left by five bits, xor in the word,
/// and multiply by `MIX_MULTIPLIER` modulo 2^64.
pub open spec fn mix(h: u64, word: u64) -> u64 {
    (((rotl5(h) ^ word) as nat * MIX_MULTIPLIER as nat) % 0x1_0000_0000_0000_0000nat) as u64
}

/// The state reached from `h` by mixing in every byte of `bytes`, in order,
/// each byte widened to a 64-bit word.
pub open spec fn mix_bytes(h: u64, bytes: Seq<u8>) -> u64
    decreases bytes.len(),
{
    if bytes.len() == 0 {
        h
    } else {
        mix(mix_bytes(h, bytes.drop_last()), bytes.last() as u64)
    }
}

/// Feeding bytes in two writes reaches the same state as feeding their
/// concatenation in one: the hasher streams.
pub proof fn lemma_write_concatenation(h: u64, first: Seq<u8>, second: Seq<u8>)
    ensures
        mix_bytes(h, first + second) == mix_bytes(mix_bytes(h, first), second),
    decreases second.len(),
{
    if second.len() == 0 {
        assert(first + second =~= first);
    } else {
        assert((first + second).drop_last() =~= first + second.drop_last());
        lemma_write_concatenation(h, first, second.drop_last());
    }
}

/// Writing a byte slice reaches the same state as writing its bytes one at
/// a time with `write_u8`.
pub proof fn lemma_write_is_bytewise(h: u64, bytes: Seq<u8>, byte: u8)
    ensures
        mix_bytes(h, bytes.push(byte)) == mix(mix_bytes(h, bytes), byte as u64),
{
    assert(bytes.push(byte).drop_last() =~= bytes);
}

/// One write to a hasher: a byte slice through `write`, or a single word
/// through `write_u8` to `write_usize`, widened to 64 bits.
pub enum HashWrite {
    Bytes(Seq<u8>),
    Word(u64),
}

/// The state after one write.
pub open spec fn apply_write(h: u64, w: HashWrite) -> u64 {
    match w {
        HashWrite::Bytes(bytes) => mix_bytes(h, bytes),
        HashWrite::Word(word) => mix(h, word),
    }
}

/// The state after a sequence of writes, in order, starting from `h`.
pub open spec fn hash_after(h: u64, writes: Seq<HashWrite>) -> u64
    decreases writes.len(),
{
    if writes.len() == 0 {
        h
    } else {
        apply_write(hash_after(h, writes.drop_last()), writes.last())
    }
}

/// `states` are the states of a hasher fresh from `BuildFastHasher` as it
/// takes `writes` one by one.
pub open spec fn is_built_run(states: Seq<u64>, writes: Seq<HashWrite>) -> bool {
    &&& states.len() == writes.len() + 1
    &&& states[0] == 0
    &&& forall|i: int| 0 <= i < writes.len() ==> #[trigger] states[i + 1] == apply_write(states[i], writes[i])
}

/// Hashing is deterministic: two hashers built by `BuildFastHasher` and fed
/// the same writes reach the same state, `hash_after(0, writes)`; no seed
/// or earlier use enters it.
pub proof fn lemma_built_hashers_agree(
    first: Seq<u64>,
    second: Seq<u64>,
    writes: Seq<HashWrite>,
)
    requires
        is_built_run(first, writes),
        is_built_run(second, writes),
    ensures
        first.last() == hash_after(0, writes),
        second.last() == hash_after(0, writes),
{
    lemma_built_run_state(first, writes, writes.len() as int);
    lemma_built_run_state(second, writes, writes.len() as int);
    assert(writes.take(writes.len() as int) =~= writes);
}

proof fn lemma_built_run_state(states: Seq<u64>, writes: Seq<HashWrite>, n: int)
    requires
        is_built_run(states, writes),
        0 <= n <= writes.len(),
    ensures
        states[n] == hash_after(0, writes.take(n)),
    decreases n,
{
    if n == 0 {
        assert(writes.take(0) =~= Seq::<HashWrite>::empty());
    } else {
        lemma_built_run_state(states, writes, n - 1);
        let j = n - 1;
        assert(states[j + 1] == apply_write(states[j], writes[j]));
        assert(writes.take(n).drop_last() =~= writes.take(j));
    }
}

/// A hasher whose whole state is one 64-bit word.
#[derive(Default, Clone, Copy)]
pub struct FastHasher {
    hash: u64,
}

impl FastHasher {
    /// The hasher's state, which is also its digest.
    pub closed spec fn state(&self) -> u64 {
        self.hash
    }

    /// Mixes one 64-bit word into the state.
    pub fn add_to_hash(&mut self, i: u64)
        ensures
            final(self).state() == mix(old(self).state(), i),
    {
        let rotated = (self.hash << 5u64) | (self.hash >> 59u64);
        self.hash = (rotated ^ i).wrapping_mul(MIX_MULTIPLIER);
    }
}

impl Hasher for FastHasher {
    /// The digest is the current state.
    fn finish(&self) -> (digest: u64)
        ensures
            digest == self.state(),
    {
        self.hash
    }

    /// Mixes in each byte, in order.
    fn write(&mut self, bytes: &[u8])
        ensures
            final(self).state() == mix_bytes(old(self).state(), bytes@),
    {
        let mut idx: usize = 0;
        while idx < bytes.len()
            invariant
                idx <= bytes@.len(),
                self.state() == mix_bytes(old(self).state(), bytes@.take(idx as int)),
            decreases bytes.len() - idx,
        {
            proof {
                assert(bytes@.take(idx + 1).drop_last() =~= bytes@.take(idx as int));
            }
            self.add_to_hash(bytes[idx] as u64);
            idx = idx + 1;
        }
        proof {
            assert(bytes@.take(bytes@.len() as int) =~= bytes@);
        }
    }

    fn write_u8(&mut self, i: u8)
        ensures
            final(self).state() == mix(old(self).state(), i as u64),
    {
        self.add_to_hash(i as u64);
    }

    fn write_u16(&mut self, i: u16)
        ensures
            final(self).state() == mix(old(self).state(), i as u64),
    {
        self.add_to_hash(i as u64);
    }

    fn write_u32(&mut self, i: u32)
        ensures
            final(self).state() == mix(old(self).state(), i as u64),
    {
        self.add_to_hash(i as u64);
    }

    fn write_u64(&mut self, i: u64)
        ensures
            final(self).state() == mix(old(self).state(), i),
    {
        self.add_to_hash(i);
    }

    fn write_usize(&mut self, i: usize)
        ensures
            final(self).state() == mix(old(self).state(), i as u64),
    {
        self.add_to_hash(i as u64);
    }
}

/// Builds `FastHasher`s that start from the zero state.
#[derive(Default, Clone, Copy)]
pub struct BuildFastHasher;

impl BuildHasher for BuildFastHasher {
    type Hasher = FastHasher;

    fn build_hasher(&self) -> (hasher: FastHasher)
        ensures
            hasher.state() == 0,
    {
        FastHasher { hash: 0 }
    }
}

} // verus!
