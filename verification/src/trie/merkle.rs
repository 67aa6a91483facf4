//! Merkle proofs over 32-byte hashes combined by XOR.

use vstd::prelude::*;
use crate::bytes::eq32;

verus! {

/// The XOR of two 32-byte hashes, position by position.
pub open spec fn spec_hash_pair(a: Seq<u8>, b: Seq<u8>) -> Seq<u8> {
    Seq::new(32, |i: int| a[i] ^ b[i])
}

/// Thirty-two zero bytes.
pub open spec fn zero_hash() -> Seq<u8> {
    Seq::new(32, |i: int| 0u8)
}

/// Whether the `i`-th step of a proof puts the running hash on the left:
/// the path says 0 there, or the path is exhausted.
pub open spec fn step_is_left(path: Seq<u8>, i: int) -> bool {
    i >= path.len() || path[i] == 0
}

/// The hash reconstructed from `value` and the first `n` siblings.
pub open spec fn fold_proof(value: Seq<u8>, siblings: Seq<Seq<u8>>, path: Seq<u8>, n: nat) -> Seq<u8>
    decreases n,
{
    if n == 0 {
        value
    } else {
        let cur = fold_proof(value, siblings, path, (n - 1) as nat);
        if step_is_left(path, n - 1) {
            spec_hash_pair(cur, siblings[n - 1])
        } else {
            spec_hash_pair(siblings[n - 1], cur)
        }
    }
}

/// One level up a Merkle tree: neighbours are combined in pairs, and an odd
/// last node is carried up unchanged.
pub open spec fn next_level(level: Seq<Seq<u8>>) -> Seq<Seq<u8>> {
    Seq::new(
        ((level.len() + 1) / 2) as nat,
        |i: int|
            if 2 * i + 1 < level.len() {
                spec_hash_pair(level[2 * i], level[2 * i + 1])
            } else {
                level[2 * i]
            },
    )
}

/// The root of the Merkle tree over `leaves`; all zeros when there are none.
pub open spec fn spec_merkle_root(leaves: Seq<Seq<u8>>) -> Seq<u8>
    decreases leaves.len(),
{
    if leaves.len() == 0 {
        zero_hash()
    } else if leaves.len() == 1 {
        leaves[0]
    } else {
        spec_merkle_root(next_level(leaves))
    }
}

/// Pairing is commutative.
pub proof fn lemma_hash_pair_commutative(a: Seq<u8>, b: Seq<u8>)
    ensures
        spec_hash_pair(a, b) == spec_hash_pair(b, a),
{
    assert forall|i: int| 0 <= i < 32 implies #[trigger] spec_hash_pair(a, b)[i] == spec_hash_pair(b, a)[i] by {
        let (x, y) = (a[i], b[i]);
        assert(x ^ y == y ^ x) by (bit_vector);
    }
    assert(spec_hash_pair(a, b) =~= spec_hash_pair(b, a));
}

/// Pairing with the zero hash gives the other hash back.
pub proof fn lemma_hash_pair_zero(a: Seq<u8>)
    requires
        a.len() == 32,
    ensures
        spec_hash_pair(a, zero_hash()) == a,
{
    assert forall|i: int| 0 <= i < 32 implies #[trigger] spec_hash_pair(a, zero_hash())[i] == a[i] by {
        let x = a[i];
        assert(x ^ 0u8 == x) by (bit_vector);
    }
    assert(spec_hash_pair(a, zero_hash()) =~= a);
}

/// Pairing a hash with itself gives the zero hash.
pub proof fn lemma_hash_pair_self(a: Seq<u8>)
    ensures
        spec_hash_pair(a, a) == zero_hash(),
{
    assert forall|i: int| 0 <= i < 32 implies #[trigger] spec_hash_pair(a, a)[i] == zero_hash()[i] by {
        let x = a[i];
        assert(x ^ x == 0u8) by (bit_vector);
    }
    assert(spec_hash_pair(a, a) =~= zero_hash());
}

/// Because pairing is commutative, the hash a proof reconstructs does not
/// depend on its path.
pub proof fn lemma_fold_path_independent(value: Seq<u8>, siblings: Seq<Seq<u8>>, p1: Seq<u8>, p2: Seq<u8>, n: nat)
    ensures
        fold_proof(value, siblings, p1, n) == fold_proof(value, siblings, p2, n),
    decreases n,
{
    if n > 0 {
        lemma_fold_path_independent(value, siblings, p1, p2, (n - 1) as nat);
        lemma_hash_pair_commutative(fold_proof(value, siblings, p1, (n - 1) as nat), siblings[n - 1]);
    }
}

/// The root over two leaves is their pair.
pub proof fn lemma_merkle_root_two(a: Seq<u8>, b: Seq<u8>)
    ensures
        spec_merkle_root(seq![a, b]) == spec_hash_pair(a, b),
{
    let l = seq![a, b];
    let n = next_level(l);
    assert(n.len() == 1);
    assert(n[0] == spec_hash_pair(a, b));
    assert(spec_merkle_root(n) == n[0]);
}

/// The XOR of all hashes in `s`, starting from the zero hash.
pub open spec fn xor_all(s: Seq<Seq<u8>>) -> Seq<u8>
    decreases s.len(),
{
    if s.len() == 0 {
        zero_hash()
    } else {
        spec_hash_pair(xor_all(s.drop_last()), s.last())
    }
}

/// Pairing is associative.
pub proof fn lemma_hash_pair_associative(a: Seq<u8>, b: Seq<u8>, c: Seq<u8>)
    ensures
        spec_hash_pair(spec_hash_pair(a, b), c) == spec_hash_pair(a, spec_hash_pair(b, c)),
{
    let l = spec_hash_pair(spec_hash_pair(a, b), c);
    let r = spec_hash_pair(a, spec_hash_pair(b, c));
    assert forall|i: int| 0 <= i < 32 implies #[trigger] l[i] == r[i] by {
        let (x, y, z) = (a[i], b[i], c[i]);
        assert((x ^ y) ^ z == x ^ (y ^ z)) by (bit_vector);
    }
    assert(l =~= r);
}

/// Going one level up a tree keeps the XOR of the level.
proof fn lemma_xor_all_next_level(l: Seq<Seq<u8>>)
    ensures
        xor_all(next_level(l)) == xor_all(l),
    decreases l.len(),
{
    let nl = next_level(l);
    if l.len() == 0 {
        assert(nl =~= Seq::<Seq<u8>>::empty());
    } else if l.len() % 2 == 1 {
        let p = l.drop_last();
        lemma_xor_all_next_level(p);
        assert(nl =~= next_level(p).push(l.last()));
        assert(nl.drop_last() =~= next_level(p));
        assert(nl.len() > 0);
        assert(xor_all(nl) == spec_hash_pair(xor_all(nl.drop_last()), nl.last()));
        assert(xor_all(l) == spec_hash_pair(xor_all(p), l.last()));
    } else {
        let p = l.subrange(0, l.len() - 2);
        let a = l[l.len() - 2];
        let b = l[l.len() - 1];
        lemma_xor_all_next_level(p);
        assert(nl =~= next_level(p).push(spec_hash_pair(a, b)));
        assert(nl.drop_last() =~= next_level(p));
        assert(l.drop_last() =~= p.push(a));
        assert(l.drop_last().drop_last() =~= p);
        assert(xor_all(nl) == spec_hash_pair(xor_all(next_level(p)), spec_hash_pair(a, b)));
        assert(xor_all(l.drop_last()) == spec_hash_pair(xor_all(p), a));
        assert(xor_all(l) == spec_hash_pair(xor_all(l.drop_last()), b));
        lemma_hash_pair_associative(xor_all(p), a, b);
    }
}

/// The root of a Merkle tree is the XOR of all its leaves, whatever their
/// number: pairing neighbours level by level and carrying an odd last node
/// up loses and duplicates nothing.
pub proof fn lemma_merkle_root_is_xor_of_leaves(leaves: Seq<Seq<u8>>)
    requires
        forall|i: int| 0 <= i < leaves.len() ==> (#[trigger] leaves[i]).len() == 32,
    ensures
        spec_merkle_root(leaves) == xor_all(leaves),
    decreases leaves.len(),
{
    if leaves.len() == 1 {
        assert(leaves.drop_last() =~= Seq::<Seq<u8>>::empty());
        assert(xor_all(leaves.drop_last()) == zero_hash());
        assert(leaves.last() == leaves[0]);
        lemma_hash_pair_commutative(zero_hash(), leaves[0]);
        lemma_hash_pair_zero(leaves[0]);
        assert(xor_all(leaves) == spec_hash_pair(zero_hash(), leaves[0]));
    } else if leaves.len() > 1 {
        let n = next_level(leaves);
        assert forall|i: int| 0 <= i < n.len() implies (#[trigger] n[i]).len() == 32 by {
            assert(leaves[2 * i].len() == 32);
        }
        lemma_merkle_root_is_xor_of_leaves(n);
        lemma_xor_all_next_level(leaves);
    }
}

/// Folding a proof over its first `n` siblings gives the XOR of the value
/// and those siblings.
proof fn lemma_fold_is_xor(value: Seq<u8>, siblings: Seq<Seq<u8>>, path: Seq<u8>, n: nat)
    requires
        value.len() == 32,
        n <= siblings.len(),
    ensures
        fold_proof(value, siblings, path, n) == xor_all(seq![value] + siblings.take(n as int)),
    decreases n,
{
    let s = seq![value] + siblings.take(n as int);
    if n == 0 {
        assert(s =~= seq![value]);
        assert(s.drop_last() =~= Seq::<Seq<u8>>::empty());
        assert(xor_all(s.drop_last()) == zero_hash());
        assert(s.last() == value);
        lemma_hash_pair_commutative(zero_hash(), value);
        lemma_hash_pair_zero(value);
        assert(xor_all(s) == spec_hash_pair(zero_hash(), value));
    } else {
        lemma_fold_is_xor(value, siblings, path, (n - 1) as nat);
        assert(s.drop_last() =~= seq![value] + siblings.take(n - 1));
        assert(s.last() == siblings[n - 1]);
        assert(xor_all(s) == spec_hash_pair(xor_all(s.drop_last()), s.last()));
        lemma_hash_pair_commutative(fold_proof(value, siblings, path, (n - 1) as nat), siblings[n - 1]);
    }
}

/// Whatever its path, a proof reconstructs the XOR of its value hash and all
/// its siblings.
pub proof fn lemma_reconstructed_is_xor(p: MerkleProof)
    ensures
        p.reconstructed() == xor_all(seq![p.value_hash@] + siblings_view(p.siblings@)),
{
    let s = siblings_view(p.siblings@);
    lemma_fold_is_xor(p.value_hash@, s, p.path@, p.siblings@.len());
    assert(s.take(p.siblings@.len() as int) =~= s);
}

/// In a tree of four leaves, the proof for the first leaf whose siblings are
/// the second leaf and then the pair of the last two, with the tree's root as
/// its root, verifies, whatever its path.
pub proof fn lemma_first_of_four_verifies(a: [u8; 32], b: [u8; 32], c: [u8; 32], d: [u8; 32], p: MerkleProof)
    requires
        p.value_hash == a,
        p.siblings@.len() == 2,
        p.siblings@[0] == b,
        p.siblings@[1]@ == spec_hash_pair(c@, d@),
        p.root@ == spec_merkle_root(seq![a@, b@, c@, d@]),
    ensures
        p.reconstructed() == p.root@,
{
    let leaves = seq![a@, b@, c@, d@];
    lemma_merkle_root_is_xor_of_leaves(leaves);
    lemma_reconstructed_is_xor(p);
    let s = seq![a@] + siblings_view(p.siblings@);
    let ab = seq![a@, b@];
    assert(s.drop_last() =~= ab);
    assert(s.last() == spec_hash_pair(c@, d@));
    assert(xor_all(s) == spec_hash_pair(xor_all(ab), spec_hash_pair(c@, d@)));
    assert(leaves.drop_last().drop_last() =~= ab);
    assert(leaves.drop_last() =~= ab.push(c@));
    assert(xor_all(leaves.drop_last()) == spec_hash_pair(xor_all(ab), c@));
    assert(xor_all(leaves) == spec_hash_pair(xor_all(leaves.drop_last()), d@));
    lemma_hash_pair_associative(xor_all(ab), c@, d@);
}

/// A Merkle proof that demonstrates inclusion of a value in a Merkle tree
#[derive(Debug, Clone, PartialEq, Eq)]
pub struct MerkleProof {
    /// Hash of the value being proven
    pub value_hash: [u8; 32],
    /// Sibling hashes along the path to root
    pub siblings: Vec<[u8; 32]>,
    /// Expected Merkle root
    pub root: [u8; 32],
    /// Path from root to leaf (0 for left, anything else for right)
    pub path: Vec<u8>,
}

/// The sibling hashes of a proof as sequences.
pub open spec fn siblings_view(s: Seq<[u8; 32]>) -> Seq<Seq<u8>> {
    s.map_values(|h: [u8; 32]| h@)
}

impl MerkleProof {
    /// The hash the proof reconstructs from its value hash and siblings.
    pub open spec fn reconstructed(self) -> Seq<u8> {
        fold_proof(self.value_hash@, siblings_view(self.siblings@), self.path@, self.siblings@.len())
    }

    /// Create a new empty Merkle proof
    pub fn new() -> (p: Self)
        ensures
            p.value_hash@ == zero_hash(),
            p.siblings@.len() == 0,
            p.root@ == zero_hash(),
            p.path@.len() == 0,
    {
        let p = Self { value_hash: [0u8; 32], siblings: Vec::new(), root: [0u8; 32], path: Vec::new() };
        assert(p.value_hash@ =~= zero_hash());
        assert(p.root@ =~= zero_hash());
        p
    }

    /// Create a new proof with a value hash
    pub fn with_value(value_hash: [u8; 32]) -> (p: Self)
        ensures
            p.value_hash == value_hash,
            p.siblings@.len() == 0,
            p.root@ == zero_hash(),
            p.path@.len() == 0,
    {
        let p = Self { value_hash, siblings: Vec::new(), root: [0u8; 32], path: Vec::new() };
        assert(p.root@ =~= zero_hash());
        p
    }

    /// Set the value hash
    pub fn set_value_hash(&mut self, value_hash: [u8; 32])
        ensures
            *final(self) == (MerkleProof { value_hash, ..*old(self) }),
    {
        self.value_hash = value_hash;
    }

    /// Add a sibling hash to the proof
    pub fn add_sibling(&mut self, sibling: [u8; 32])
        ensures
            final(self).siblings@ == old(self).siblings@.push(sibling),
            final(self).value_hash == old(self).value_hash,
            final(self).root == old(self).root,
            final(self).path == old(self).path,
    {
        self.siblings.push(sibling);
    }

    /// Set the expected Merkle root
    pub fn set_root(&mut self, root: [u8; 32])
        ensures
            *final(self) == (MerkleProof { root, ..*old(self) }),
    {
        self.root = root;
    }

    /// Set the path from root to leaf
    pub fn set_path(&mut self, path: Vec<u8>)
        ensures
            *final(self) == (MerkleProof { path, ..*old(self) }),
    {
        self.path = path;
    }

    /// Verify the Merkle proof: combining the value hash with each sibling
    /// in turn, on the side the path gives, must reach the expected root.
    pub fn verify(&self) -> (b: bool)
        ensures
            b == (self.reconstructed() == self.root@),
    {
        if self.siblings.len() == 0 {
            return eq32(&self.value_hash, &self.root);
        }
        let mut current = self.value_hash;
        let n = self.siblings.len();
        let mut i: usize = 0;
        while i < n
            invariant
                i <= n,
                n == self.siblings@.len(),
                current@ == fold_proof(self.value_hash@, siblings_view(self.siblings@), self.path@, i as nat),
            decreases n - i,
        {
            let sibling = self.siblings[i];
            let is_left = if i < self.path.len() {
                self.path[i] == 0
            } else {
                true
            };
            current = if is_left {
                hash_pair(&current, &sibling)
            } else {
                hash_pair(&sibling, &current)
            };
            i = i + 1;
        }
        eq32(&current, &self.root)
    }
}

impl Default for MerkleProof {
    fn default() -> (p: Self)
        ensures
            p.value_hash@ == zero_hash(),
            p.siblings@.len() == 0,
            p.root@ == zero_hash(),
            p.path@.len() == 0,
    {
        Self::new()
    }
}

/// Hash two values together using XOR
pub fn hash_pair(a: &[u8; 32], b: &[u8; 32]) -> (r: [u8; 32])
    ensures
        r@ == spec_hash_pair(a@, b@),
{
    let mut result = [0u8; 32];
    let mut i: usize = 0;
    while i < 32
        invariant
            i <= 32,
            forall|j: int| 0 <= j < i ==> result@[j] == a@[j] ^ b@[j],
        decreases 32 - i,
    {
        result[i] = a[i] ^ b[i];
        i = i + 1;
    }
    assert(result@ =~= spec_hash_pair(a@, b@));
    result
}

/// Compute the Merkle root from a list of leaf hashes; all zeros for none.
pub fn merkle_root(leaves: &[[u8; 32]]) -> (r: [u8; 32])
    ensures
        r@ == spec_merkle_root(siblings_view(leaves@)),
{
    if leaves.len() == 0 {
        let z = [0u8; 32];
        assert(z@ =~= zero_hash());
        return z;
    }
    if leaves.len() == 1 {
        return leaves[0];
    }
    let mut current_level: Vec<[u8; 32]> = Vec::new();
    let mut k: usize = 0;
    while k < leaves.len()
        invariant
            k <= leaves@.len(),
            current_level@ == leaves@.subrange(0, k as int),
        decreases leaves@.len() - k,
    {
        current_level.push(leaves[k]);
        k = k + 1;
        assert(current_level@ =~= leaves@.subrange(0, k as int));
    }
    assert(leaves@.subrange(0, leaves@.len() as int) =~= leaves@);
    while current_level.len() > 1
        invariant
            current_level@.len() >= 1,
            spec_merkle_root(siblings_view(current_level@)) == spec_merkle_root(siblings_view(leaves@)),
        decreases current_level@.len(),
    {
        let ghost lv = siblings_view(current_level@);
        let mut next: Vec<[u8; 32]> = Vec::new();
        let len = current_level.len();
        let half = len / 2 + len % 2;
        let mut t: usize = 0;
        while t < half
            invariant
                len == current_level@.len(),
                len > 1,
                half == (len + 1) / 2,
                t <= half,
                lv == siblings_view(current_level@),
                next@.len() == t,
                forall|u: int| 0 <= u < next@.len() ==> (#[trigger] next@[u])@ == next_level(lv)[u],
            decreases half - t,
        {
            let j = 2 * t;
            if j + 1 < len {
                next.push(hash_pair(&current_level[j], &current_level[j + 1]));
            } else {
                next.push(current_level[j]);
            }
            t = t + 1;
        }
        assert(siblings_view(next@) =~= next_level(lv));
        current_level = next;
    }
    current_level[0]
}

} // verus!
