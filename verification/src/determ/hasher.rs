//! The XOR folding hasher used for value, row and trie hashes.

use vstd::prelude::*;

verus! {

/// Thirty-two zero bytes: the state of a fresh hasher.
pub open spec fn zero_state() -> Seq<u8> {
    Seq::new(32, |i: int| 0u8)
}

/// The state reached from `state`, with the write position at `pos`, after
/// XOR-ing the bytes of `data` one by one into consecutive positions modulo 32.
pub open spec fn absorb(state: Seq<u8>, pos: nat, data: Seq<u8>) -> Seq<u8>
    decreases data.len(),
{
    if data.len() == 0 {
        state
    } else {
        let prev = absorb(state, pos, data.drop_last());
        let q = ((pos + data.len() - 1) % 32) as int;
        prev.update(q, prev[q] ^ data.last())
    }
}

/// The digest of a byte string: byte `j` is the XOR of all input bytes whose
/// index is `j` modulo 32.
pub open spec fn xor_digest(data: Seq<u8>) -> Seq<u8> {
    absorb(zero_state(), 0, data)
}

/// Absorbing keeps the state at 32 bytes.
pub proof fn lemma_absorb_len(state: Seq<u8>, pos: nat, data: Seq<u8>)
    requires
        state.len() == 32,
    ensures
        absorb(state, pos, data).len() == 32,
    decreases data.len(),
{
    if data.len() > 0 {
        lemma_absorb_len(state, pos, data.drop_last());
    }
}

/// Feeding `a` and then `b` to the hasher leaves the same state as feeding
/// their concatenation at once: the digest depends on the bytes only, not on
/// how they were split into calls.
pub proof fn lemma_absorb_concat(state: Seq<u8>, pos: nat, a: Seq<u8>, b: Seq<u8>)
    ensures
        absorb(absorb(state, pos, a), ((pos + a.len()) % 32) as nat, b) == absorb(state, pos, a + b),
    decreases b.len(),
{
    if b.len() == 0 {
        assert(a + b =~= a);
    } else {
        lemma_absorb_concat(state, pos, a, b.drop_last());
        assert((a + b).drop_last() =~= a + b.drop_last());
        assert((a + b).last() == b.last());
        assert(((((pos + a.len()) % 32) as nat + b.len() - 1) % 32) == ((pos + (a + b).len() - 1)
            % 32));
    }
}

/// Simple XOR-based Merkle hasher.
///
/// Every input byte is XOR-ed into the state at the write position, which
/// advances by one modulo 32 per byte.
#[derive(Debug)]
pub struct MerkleHasher {
    state: [u8; 32],
    position: usize,
}

impl MerkleHasher {
    #[verifier::type_invariant]
    spec fn inv(self) -> bool {
        self.position < 32
    }

    /// The current 32-byte state.
    pub closed spec fn state_view(self) -> Seq<u8> {
        self.state@
    }

    /// The current write position, below 32.
    pub closed spec fn pos(self) -> nat {
        self.position as nat
    }

    /// Create a new hasher with the all-zero state.
    pub fn new() -> (h: Self)
        ensures
            h.state_view() == zero_state(),
            h.pos() == 0,
    {
        let h = MerkleHasher { state: [0u8; 32], position: 0 };
        assert(h.state@ =~= zero_state());
        h
    }

    /// Input bytes into the hasher.
    pub fn input(&mut self, data: &[u8])
        ensures
            final(self).state_view() == absorb(old(self).state_view(), old(self).pos(), data@),
            final(self).pos() == (old(self).pos() + data@.len()) % 32,
    {
        proof {
            use_type_invariant(&*self);
        }
        let ghost s0 = self.state@;
        let ghost p0 = self.position as nat;
        let mut pos: usize = self.position;
        let mut state = self.state;
        let n = data.len();
        let mut i: usize = 0;
        while i < n
            invariant
                i <= n,
                n == data@.len(),
                s0.len() == 32,
                pos < 32,
                pos == (p0 + i) % 32,
                state@ == absorb(s0, p0, data@.subrange(0, i as int)),
            decreases n - i,
        {
            proof {
                lemma_absorb_len(s0, p0, data@.subrange(0, i as int));
                assert(data@.subrange(0, i + 1).drop_last() =~= data@.subrange(0, i as int));
            }
            state[pos] = state[pos] ^ data[i];
            pos = (pos + 1) % 32;
            i = i + 1;
            assert(state@ =~= absorb(s0, p0, data@.subrange(0, i as int)));
        }
        assert(data@.subrange(0, n as int) =~= data@);
        self.state = state;
        self.position = pos;
    }

    /// Finalize and return the hash.
    pub fn finalize(self) -> (r: [u8; 32])
        ensures
            r@ == self.state_view(),
    {
        self.state
    }
}

impl Clone for MerkleHasher {
    fn clone(&self) -> (h: Self)
        ensures
            h.state_view() == self.state_view(),
            h.pos() == self.pos(),
    {
        proof {
            use_type_invariant(self);
        }
        MerkleHasher { state: self.state, position: self.position }
    }
}

impl Default for MerkleHasher {
    fn default() -> (h: Self)
        ensures
            h.state_view() == zero_state(),
            h.pos() == 0,
    {
        Self::new()
    }
}

/// The XOR digest of `data`, computed with a fresh hasher.
pub fn digest(data: &[u8]) -> (r: [u8; 32])
    ensures
        r@ == xor_digest(data@),
{
    let mut h = MerkleHasher::new();
    h.input(data);
    h.finalize()
}

} // verus!
