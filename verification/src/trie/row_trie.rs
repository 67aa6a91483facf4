//! A hexary Merkle trie of database rows, keyed by the nibbles of the row id.

use vstd::prelude::*;
use vstd::pervasive::VecAdditionalExecFns;
use crate::bytes::{le_u64, copy_range, lemma_read_le_u64};
use crate::determ::hasher::{xor_digest, digest};
use crate::determ::row::{DetermRow, row_wf, spec_row_hash};
use crate::determ::value::ValueModel;
use crate::trie::merkle::{spec_hash_pair, zero_hash, hash_pair};

verus! {

// ---------------------------------------------------------------------------
// Mathematical model of the nodes
// ---------------------------------------------------------------------------

/// The content of a [`RowNode`], with vectors as sequences.
pub enum NodeModel {
    Leaf { row_id: i64, row_hash: Seq<u8>, row_data: Option<Seq<ValueModel>> },
    Branch { children: Seq<Option<NodeModel>>, hash: Seq<u8> },
    Extension { prefix: Seq<u8>, child: Box<NodeModel>, hash: Seq<u8> },
}

/// The hash stored in a node.
pub open spec fn node_hash(m: NodeModel) -> Seq<u8> {
    match m {
        NodeModel::Leaf { row_hash, .. } => row_hash,
        NodeModel::Branch { hash, .. } => hash,
        NodeModel::Extension { hash, .. } => hash,
    }
}

/// The hash of a child slot: the child's hash, or zeros when empty.
pub open spec fn slot_hash(c: Option<NodeModel>) -> Seq<u8> {
    match c {
        Some(n) => node_hash(n),
        None => zero_hash(),
    }
}

/// The XOR of the first `n` hashes of `hs`.
pub open spec fn xor_fold(hs: Seq<Seq<u8>>, n: nat) -> Seq<u8>
    decreases n,
{
    if n == 0 {
        zero_hash()
    } else {
        spec_hash_pair(xor_fold(hs, (n - 1) as nat), hs[n - 1])
    }
}

/// The hash of a branch: the XOR of the hashes of its sixteen slots.
pub open spec fn branch_hash(children: Seq<Option<NodeModel>>) -> Seq<u8> {
    xor_fold(Seq::new(16, |i: int| slot_hash(children[i])), 16)
}

/// Sixteen empty slots.
pub open spec fn empty_slots() -> Seq<Option<NodeModel>> {
    Seq::new(16, |i: int| None::<NodeModel>)
}

/// A leaf holding `row` under `row_id`, with the row's hash.
pub open spec fn leaf_model(row_id: i64, row: Seq<ValueModel>) -> NodeModel {
    NodeModel::Leaf { row_id, row_hash: spec_row_hash(row), row_data: Some(row) }
}

/// An extension over `child`: its hash is the XOR digest of the prefix
/// paired with the child's hash.
pub open spec fn ext_model(prefix: Seq<u8>, child: NodeModel) -> NodeModel {
    NodeModel::Extension {
        prefix,
        child: Box::new(child),
        hash: spec_hash_pair(xor_digest(prefix), node_hash(child)),
    }
}

/// A branch over `children` with its hash computed.
pub open spec fn branch_model(children: Seq<Option<NodeModel>>) -> NodeModel {
    NodeModel::Branch { children, hash: branch_hash(children) }
}

/// Every byte is a nibble.
pub open spec fn nibbles(s: Seq<u8>) -> bool {
    forall|i: int| 0 <= i < s.len() ==> #[trigger] s[i] < 16
}

/// Every byte is zero.
pub open spec fn all_zero(s: Seq<u8>) -> bool {
    forall|i: int| 0 <= i < s.len() ==> #[trigger] s[i] == 0
}

/// Branches have sixteen slots and extension prefixes are nibbles, all the
/// way down.
pub open spec fn node_wf(m: NodeModel) -> bool
    decreases m,
{
    match m {
        NodeModel::Leaf { row_hash, .. } => row_hash.len() == 32,
        NodeModel::Branch { children, hash } => {
            &&& children.len() == 16
            &&& hash.len() == 32
            &&& forall|i: int|
                0 <= i < children.len() ==> match #[trigger] children[i] {
                    Some(c) => node_wf(c),
                    None => true,
                }
        },
        NodeModel::Extension { prefix, child, hash } => nibbles(prefix) && hash.len() == 32
            && node_wf(*child),
    }
}

/// The well-formedness of an optional node.
pub open spec fn opt_wf(m: Option<NodeModel>) -> bool {
    match m {
        Some(n) => node_wf(n),
        None => true,
    }
}

/// The sixteen nibbles of a row id: for each little-endian byte, its high
/// nibble then its low nibble.
pub open spec fn spec_encode_row_id(row_id: i64) -> Seq<u8> {
    let b = le_u64(row_id as u64);
    Seq::new(16, |j: int| if j % 2 == 0 { b[j / 2] >> 4u8 } else { b[j / 2] & 0x0fu8 })
}

/// The first index from `d` on where `key` and `other` differ or one ends.
pub open spec fn diverge(key: Seq<u8>, other: Seq<u8>, d: int) -> int
    decreases key.len() - d,
{
    if 0 <= d < key.len() && d < other.len() && key[d] == other[d] {
        diverge(key, other, d + 1)
    } else {
        d
    }
}

/// The nibble of `key` at `i`, or 0 past its end.
pub open spec fn nibble_at(key: Seq<u8>, i: int) -> u8 {
    if 0 <= i < key.len() {
        key[i]
    } else {
        0
    }
}

/// The bytes of `key` after index `i`.
pub open spec fn rest_after(key: Seq<u8>, i: int) -> Seq<u8> {
    if 0 <= i && i + 1 < key.len() {
        key.subrange(i + 1, key.len() as int)
    } else {
        Seq::empty()
    }
}

/// A node placed below a branch slot: directly when the rest of its key is
/// all zeros, else under an extension over that rest.
pub open spec fn place(rest: Seq<u8>, node: NodeModel) -> NodeModel {
    if all_zero(rest) {
        node
    } else {
        ext_model(rest, node)
    }
}

/// The measure that makes the insertion recursion terminate.
pub open spec fn depth_measure(key: Seq<u8>, depth: int) -> nat {
    let m = if key.len() > 16 { key.len() as int } else { 16 };
    if depth > m + 1 { 0 } else { (m + 1 - depth) as nat }
}

/// The node that results from inserting `row` under `row_id`, whose key is
/// `key`, into an optional node, at `depth` nibbles into the key.
pub open spec fn spec_insert(node: Option<NodeModel>, key: Seq<u8>, depth: int, row_id: i64, row: Seq<ValueModel>) -> NodeModel
    decreases node, depth_measure(key, depth), 1nat,
{
    match node {
        None => leaf_model(row_id, row),
        Some(m) => spec_insert_node(m, key, depth, row_id, row),
    }
}

/// The node that results from inserting `row` under `row_id` into `m`.
pub open spec fn spec_insert_node(m: NodeModel, key: Seq<u8>, depth: int, row_id: i64, row: Seq<ValueModel>) -> NodeModel
    decreases m, depth_measure(key, depth), 0nat,
{
    match m {
        NodeModel::Leaf { row_id: existing_id, row_hash, row_data } => {
            if existing_id == row_id {
                leaf_model(row_id, row)
            } else {
                let ek = spec_encode_row_id(existing_id);
                let d = diverge(key, ek, depth);
                let existing = NodeModel::Leaf { row_id: existing_id, row_hash, row_data };
                if d <= depth {
                    let en = nibble_at(ek, depth);
                    let nn = nibble_at(key, depth);
                    let c1 = empty_slots().update(en as int, Some(place(rest_after(ek, depth), existing)));
                    let c2 = c1.update(nn as int, Some(place(rest_after(key, depth), leaf_model(row_id, row))));
                    branch_model(c2)
                } else {
                    let en = nibble_at(ek, d);
                    let nn = nibble_at(key, d);
                    let sub = if en == nn {
                        if depth_measure(key, d + 1) < depth_measure(key, depth) {
                            empty_slots().update(en as int, Some(spec_insert_node(existing, key, d + 1, row_id, row)))
                        } else {
                            empty_slots()
                        }
                    } else {
                        empty_slots().update(en as int, Some(existing)).update(nn as int, Some(leaf_model(row_id, row)))
                    };
                    ext_model(key.subrange(depth, d), branch_model(sub))
                }
            }
        },
        NodeModel::Branch { children, hash } => {
            if depth >= key.len() || depth < 0 {
                leaf_model(row_id, row)
            } else {
                let n = key[depth] as int;
                if 0 <= n < children.len() {
                    branch_model(children.update(n, Some(spec_insert(children[n], key, depth + 1, row_id, row))))
                } else {
                    leaf_model(row_id, row)
                }
            }
        },
        NodeModel::Extension { prefix, child, hash } => {
            if prefix.len() <= key.len() && key.subrange(0, prefix.len() as int) == prefix {
                ext_model(prefix, spec_insert_node(*child, key.subrange(prefix.len() as int, key.len() as int), 0, row_id, row))
            } else {
                let c1 = if prefix.len() > 0 { empty_slots().update(prefix[0] as int, Some(*child)) } else { empty_slots() };
                let c2 = c1.update(nibble_at(key, depth) as int, Some(leaf_model(row_id, row)));
                NodeModel::Branch { children: c2, hash: zero_hash() }
            }
        },
    }
}

/// The hash of the row stored under `key`, looked up from `depth`.
pub open spec fn spec_get_hash(node: Option<NodeModel>, key: Seq<u8>, depth: int) -> Option<Seq<u8>>
    decreases node, 1nat,
{
    match node {
        None => None,
        Some(m) => spec_get_hash_node(m, key, depth),
    }
}

/// The hash of the row stored under `key` below `m`, looked up from `depth`.
pub open spec fn spec_get_hash_node(m: NodeModel, key: Seq<u8>, depth: int) -> Option<Seq<u8>>
    decreases m, 0nat,
{
    match m {
        NodeModel::Leaf { row_hash, .. } => {
            if depth >= key.len() || all_zero(key.subrange(depth, key.len() as int)) {
                Some(row_hash)
            } else {
                None
            }
        },
        NodeModel::Branch { children, .. } => {
            if depth >= key.len() || depth < 0 {
                None
            } else {
                let n = key[depth] as int;
                if 0 <= n < children.len() { spec_get_hash(children[n], key, depth + 1) } else { None }
            }
        },
        NodeModel::Extension { prefix, child, .. } => {
            if 0 <= depth && depth + prefix.len() <= key.len() && key.subrange(depth, depth + prefix.len()) == prefix {
                spec_get_hash_node(*child, key.subrange(depth + prefix.len(), key.len() as int), 0)
            } else {
                None
            }
        },
    }
}

/// The row stored under `key` for `target`, looked up from `depth`: the
/// leaf reached must carry the target row id.
pub open spec fn spec_get(node: Option<NodeModel>, key: Seq<u8>, depth: int, target: i64) -> Option<Seq<ValueModel>>
    decreases node, 1nat,
{
    match node {
        None => None,
        Some(m) => spec_get_node(m, key, depth, target),
    }
}

/// The row stored under `key` for `target` below `m`.
pub open spec fn spec_get_node(m: NodeModel, key: Seq<u8>, depth: int, target: i64) -> Option<Seq<ValueModel>>
    decreases m, 0nat,
{
    match m {
        NodeModel::Leaf { row_id, row_data, .. } => {
            if row_id != target { None } else { row_data }
        },
        NodeModel::Branch { children, .. } => {
            if depth >= key.len() || depth < 0 {
                None
            } else {
                let n = key[depth] as int;
                if 0 <= n < children.len() { spec_get(children[n], key, depth + 1, target) } else { None }
            }
        },
        NodeModel::Extension { prefix, child, .. } => {
            if 0 <= depth && depth + prefix.len() <= key.len() && key.subrange(depth, depth + prefix.len()) == prefix {
                spec_get_node(*child, key.subrange(depth + prefix.len(), key.len() as int), 0, target)
            } else {
                None
            }
        },
    }
}

/// The node left after deleting the row under `key` from an optional node,
/// looked up from `depth`.
pub open spec fn spec_delete(node: Option<NodeModel>, key: Seq<u8>, depth: int) -> Option<NodeModel>
    decreases node, 1nat,
{
    match node {
        None => None,
        Some(m) => spec_delete_node(m, key, depth),
    }
}

/// Whether every slot is empty.
pub open spec fn all_empty(c: Seq<Option<NodeModel>>) -> bool {
    forall|i: int| 0 <= i < c.len() ==> #[trigger] c[i] is None
}

/// The node left after deleting the row under `key` from `m`.
pub open spec fn spec_delete_node(m: NodeModel, key: Seq<u8>, depth: int) -> Option<NodeModel>
    decreases m, 0nat,
{
    match m {
        NodeModel::Leaf { row_id, .. } => {
            if depth >= key.len() || all_zero(key.subrange(depth, key.len() as int)) {
                None
            } else {
                Some(NodeModel::Leaf { row_id, row_hash: zero_hash(), row_data: None })
            }
        },
        NodeModel::Branch { children, .. } => {
            if depth >= key.len() || depth < 0 {
                Some(NodeModel::Branch { children, hash: zero_hash() })
            } else {
                let n = key[depth] as int;
                if 0 <= n < children.len() {
                    let c2 = children.update(n, spec_delete(children[n], key, depth + 1));
                    if all_empty(c2) {
                        None
                    } else {
                        Some(branch_model(c2))
                    }
                } else {
                    None
                }
            }
        },
        NodeModel::Extension { prefix, child, .. } => {
            if 0 <= depth && depth + prefix.len() <= key.len() && key.subrange(depth, depth + prefix.len()) == prefix {
                match spec_delete_node(*child, key, depth + prefix.len()) {
                    Some(c) => Some(ext_model(prefix, c)),
                    None => None,
                }
            } else {
                Some(NodeModel::Extension { prefix, child, hash: zero_hash() })
            }
        },
    }
}

/// Two to the power `i`.
pub open spec fn bit_of(i: nat) -> nat
    decreases i,
{
    if i == 0 {
        1
    } else {
        2 * bit_of((i - 1) as nat)
    }
}

/// The bitmap of the occupied slots among the first `n`: bit `i` is set
/// when slot `i` holds a child.
pub open spec fn occupied_bitmap(c: Seq<Option<NodeModel>>, n: nat) -> nat
    decreases n,
{
    if n == 0 || n > c.len() {
        0
    } else {
        occupied_bitmap(c, (n - 1) as nat) + if c[n - 1] is Some {
            bit_of((n - 1) as nat)
        } else {
            0
        }
    }
}

/// The hashes of the occupied slots among the first `n`, other than slot
/// `nib`, in slot order.
pub open spec fn sibling_hashes(c: Seq<Option<NodeModel>>, nib: int, n: nat) -> Seq<Seq<u8>>
    decreases n,
{
    if n == 0 || n > c.len() {
        Seq::empty()
    } else {
        let rest = sibling_hashes(c, nib, (n - 1) as nat);
        if c[n - 1] is Some && n - 1 != nib {
            rest.push(node_hash(c[n - 1]->0))
        } else {
            rest
        }
    }
}

/// The parts of a hexary proof for `target` found under `key` from `depth`:
/// the hash of the leaf reached, one level per branch passed (its bitmap of
/// occupied slots and the hashes of the occupied slots off the path), and
/// the nibbles of the path, extension prefixes included.
pub open spec fn spec_hexary_path(node: Option<NodeModel>, key: Seq<u8>, depth: int, target: i64) -> Option<
    (Seq<u8>, Seq<(nat, Seq<Seq<u8>>)>, Seq<u8>),
>
    decreases node, 1nat,
{
    match node {
        None => None,
        Some(m) => spec_hexary_path_node(m, key, depth, target),
    }
}

/// The parts of a hexary proof for `target` below `m`.
pub open spec fn spec_hexary_path_node(m: NodeModel, key: Seq<u8>, depth: int, target: i64) -> Option<
    (Seq<u8>, Seq<(nat, Seq<Seq<u8>>)>, Seq<u8>),
>
    decreases m, 0nat,
{
    match m {
        NodeModel::Leaf { row_id, row_hash, .. } => {
            if row_id != target {
                None
            } else {
                Some((row_hash, Seq::empty(), Seq::empty()))
            }
        },
        NodeModel::Branch { children, .. } => {
            if depth >= key.len() || depth < 0 {
                None
            } else {
                let n = key[depth] as int;
                if 0 <= n < children.len() {
                    match spec_hexary_path(children[n], key, depth + 1, target) {
                        None => None,
                        Some((h, lv, path)) => Some(
                            (
                                h,
                                seq![(occupied_bitmap(children, children.len()), sibling_hashes(children, n, children.len()))]
                                    + lv,
                                seq![key[depth]] + path,
                            ),
                        ),
                    }
                } else {
                    None
                }
            }
        },
        NodeModel::Extension { prefix, child, .. } => {
            if 0 <= depth && depth + prefix.len() <= key.len() && key.subrange(depth, depth + prefix.len()) == prefix {
                match spec_hexary_path_node(*child, key.subrange(depth + prefix.len(), key.len() as int), 0, target) {
                    None => None,
                    Some((h, lv, path)) => Some((h, lv, prefix + path)),
                }
            } else {
                None
            }
        },
    }
}

/// A hexary path through a branch begins at that branch: its first level
/// is the branch's own bitmap of occupied slots with the hashes of its
/// occupied slots off the path, its first nibble is the key's nibble there,
/// and the leaf hash, levels and nibbles that follow are those of the path
/// below the chosen child, in order from the top.
pub proof fn lemma_hexary_path_starts_at_branch(
    children: Seq<Option<NodeModel>>,
    hash: Seq<u8>,
    key: Seq<u8>,
    depth: int,
    target: i64,
)
    requires
        spec_hexary_path_node((NodeModel::Branch { children, hash }), key, depth, target) is Some,
    ensures
        ({
            let r = spec_hexary_path_node((NodeModel::Branch { children, hash }), key, depth, target)->0;
            let n = key[depth] as int;
            &&& 0 <= depth < key.len()
            &&& 0 <= n < children.len()
            &&& r.1.len() >= 1
            &&& r.1[0] == (occupied_bitmap(children, children.len()), sibling_hashes(children, n, children.len()))
            &&& r.2.len() >= 1
            &&& r.2[0] == key[depth]
            &&& spec_hexary_path(children[n], key, depth + 1, target) matches Some(below)
            &&& r.0 == below.0
            &&& r.1.drop_first() == below.1
            &&& r.2.drop_first() == below.2
        }),
{
    let r = spec_hexary_path_node((NodeModel::Branch { children, hash }), key, depth, target)->0;
    let n = key[depth] as int;
    let below = spec_hexary_path(children[n], key, depth + 1, target)->0;
    assert(r.1.drop_first() =~= below.1);
    assert(r.2.drop_first() =~= below.2);
}

/// Through two nested branches, the levels of a hexary path are the outer
/// branch's level and then the inner one's, and its nibbles the key's two
/// nibbles there, in that order.
pub proof fn lemma_hexary_path_two_branches(
    outer: Seq<Option<NodeModel>>,
    oh: Seq<u8>,
    inner: Seq<Option<NodeModel>>,
    ih: Seq<u8>,
    key: Seq<u8>,
    target: i64,
)
    requires
        2 <= key.len(),
        0 <= key[0] < outer.len(),
        outer[key[0] as int] == Some(NodeModel::Branch { children: inner, hash: ih }),
        spec_hexary_path_node((NodeModel::Branch { children: outer, hash: oh }), key, 0, target) is Some,
    ensures
        ({
            let r = spec_hexary_path_node((NodeModel::Branch { children: outer, hash: oh }), key, 0, target)->0;
            &&& r.1.len() >= 2
            &&& r.1[0] == (occupied_bitmap(outer, outer.len()), sibling_hashes(outer, key[0] as int, outer.len()))
            &&& r.1[1] == (occupied_bitmap(inner, inner.len()), sibling_hashes(inner, key[1] as int, inner.len()))
            &&& r.2[0] == key[0]
            &&& r.2[1] == key[1]
        }),
{
    lemma_hexary_path_starts_at_branch(outer, oh, key, 0, target);
    let inode = NodeModel::Branch { children: inner, hash: ih };
    assert(spec_hexary_path(Some(inode), key, 1, target) == spec_hexary_path_node(inode, key, 1, target));
    lemma_hexary_path_starts_at_branch(inner, ih, key, 1, target);
    let r = spec_hexary_path_node((NodeModel::Branch { children: outer, hash: oh }), key, 0, target)->0;
    assert(r.1[1] == r.1.drop_first()[0]);
    assert(r.2[1] == r.2.drop_first()[0]);
}

// ---------------------------------------------------------------------------
// Executable nodes
// ---------------------------------------------------------------------------

/// A node in the row trie
#[derive(Debug, PartialEq, Eq)]
pub enum RowNode {
    /// Leaf node containing row data
    Leaf { row_id: i64, row_hash: [u8; 32], row_data: Option<Box<DetermRow>> },
    /// Branch node with 16 child slots (hexary trie)
    Branch { children: Vec<Option<Box<RowNode>>>, hash: [u8; 32] },
    /// Extension node for path compression
    Extension { prefix: Vec<u8>, child: Box<RowNode>, hash: [u8; 32] },
}

/// The model of an optional node.
pub open spec fn opt_model(n: Option<Box<RowNode>>) -> Option<NodeModel>
    decreases n,
{
    match n {
        None => None,
        Some(b) => Some(node_model(*b)),
    }
}

/// The models of the child slots of a branch.
pub open spec fn slots_model(v: Seq<Option<Box<RowNode>>>) -> Seq<Option<NodeModel>>
    decreases v,
{
    Seq::new(v.len(), |i: int| if 0 <= i < v.len() { opt_model(v[i]) } else { None })
}

/// The model of a node.
pub open spec fn node_model(n: RowNode) -> NodeModel
    decreases n,
{
    match n {
        RowNode::Leaf { row_id, row_hash, row_data } => NodeModel::Leaf {
            row_id,
            row_hash: row_hash@,
            row_data: match row_data {
                Some(r) => Some((*r)@),
                None => None,
            },
        },
        RowNode::Branch { children, hash } => NodeModel::Branch {
            children: slots_model(children@),
            hash: hash@,
        },
        RowNode::Extension { prefix, child, hash } => NodeModel::Extension {
            prefix: prefix@,
            child: Box::new(node_model(*child)),
            hash: hash@,
        },
    }
}

impl View for RowNode {
    type V = NodeModel;

    open spec fn view(&self) -> NodeModel {
        node_model(*self)
    }
}


/// The optional hash as a sequence.
pub open spec fn opt_hash_view(r: Option<[u8; 32]>) -> Option<Seq<u8>> {
    match r {
        Some(h) => Some(h@),
        None => None,
    }
}

/// The optional row as its values.
pub open spec fn opt_row_view(r: Option<DetermRow>) -> Option<Seq<ValueModel>> {
    match r {
        Some(row) => Some(row@),
        None => None,
    }
}

proof fn lemma_slots_update(v: Seq<Option<Box<RowNode>>>, i: int, x: Option<Box<RowNode>>)
    requires
        0 <= i < v.len(),
    ensures
        slots_model(v.update(i, x)) == slots_model(v).update(i, opt_model(x)),
{
    assert(slots_model(v.update(i, x)) =~= slots_model(v).update(i, opt_model(x)));
}

proof fn lemma_encode_row_id_nibbles(row_id: i64)
    ensures
        nibbles(spec_encode_row_id(row_id)),
        spec_encode_row_id(row_id).len() == 16,
{
    let k = spec_encode_row_id(row_id);
    assert forall|i: int| 0 <= i < k.len() implies #[trigger] k[i] < 16 by {
        let b = le_u64(row_id as u64)[i / 2];
        assert(b >> 4u8 < 16u8) by (bit_vector);
        assert(b & 0x0fu8 < 16u8) by (bit_vector);
    }
}

proof fn lemma_diverge_bounds(key: Seq<u8>, other: Seq<u8>, d: int)
    requires
        0 <= d,
    ensures
        diverge(key, other, d) >= d,
        diverge(key, other, d) > d ==> d < key.len() && d < other.len(),
        diverge(key, other, d) > d ==> diverge(key, other, d) <= key.len() && diverge(key, other, d) <= other.len(),
        diverge(key, other, d) < key.len() && diverge(key, other, d) < other.len() ==> key[diverge(key, other, d)] != other[diverge(key, other, d)],
        forall|j: int| d <= j < diverge(key, other, d) ==> key[j] == other[j],
    decreases key.len() - d,
{
    if 0 <= d < key.len() && d < other.len() && key[d] == other[d] {
        lemma_diverge_bounds(key, other, d + 1);
    }
}

/// Sixteen empty child slots.
fn empty_children() -> (v: Vec<Option<Box<RowNode>>>)
    ensures
        v@.len() == 16,
        slots_model(v@) == empty_slots(),
{
    let mut v: Vec<Option<Box<RowNode>>> = Vec::new();
    let mut i: usize = 0;
    while i < 16
        invariant
            i <= 16,
            v@.len() == i,
            forall|j: int| 0 <= j < i ==> #[trigger] v@[j] is None,
        decreases 16 - i,
    {
        v.push(None);
        i = i + 1;
    }
    assert(slots_model(v@) =~= empty_slots());
    v
}

/// Fills slot `i` with `node`.
fn put_child(children: &mut Vec<Option<Box<RowNode>>>, i: usize, node: RowNode)
    requires
        i < old(children)@.len(),
    ensures
        final(children)@.len() == old(children)@.len(),
        slots_model(final(children)@) == slots_model(old(children)@).update(i as int, Some(node@)),
{
    proof {
        lemma_slots_update(children@, i as int, Some(Box::new(node)));
    }
    children.set(i, Some(Box::new(node)));
}

/// Empties slot `i`, handing back what it held.
fn take_child(children: &mut Vec<Option<Box<RowNode>>>, i: usize) -> (r: Option<Box<RowNode>>)
    requires
        i < old(children)@.len(),
    ensures
        final(children)@.len() == old(children)@.len(),
        slots_model(final(children)@) == slots_model(old(children)@).update(i as int, None),
        opt_model(r) == slots_model(old(children)@)[i as int],
{
    let mut tmp: Option<Box<RowNode>> = None;
    proof {
        lemma_slots_update(children@, i as int, None);
    }
    children.set_and_swap(i, &mut tmp);
    tmp
}

/// Whether every byte of `key` from `start` on is zero.
fn rest_all_zero(key: &[u8], start: usize) -> (b: bool)
    requires
        start <= key@.len(),
    ensures
        b == all_zero(key@.subrange(start as int, key@.len() as int)),
{
    let n = key.len();
    let mut i: usize = start;
    while i < n
        invariant
            start <= i <= n,
            n == key@.len(),
            forall|j: int| start <= j < i ==> key@[j] == 0,
        decreases n - i,
    {
        if key[i] != 0 {
            assert(key@.subrange(start as int, n as int)[i - start] != 0);
            return false;
        }
        i = i + 1;
    }
    assert forall|j: int| 0 <= j < key@.subrange(start as int, n as int).len() implies #[trigger] key@.subrange(start as int, n as int)[j] == 0 by {
        assert(key@.subrange(start as int, n as int)[j] == key@[start + j]);
    }
    true
}

/// Whether `key[start..start + prefix.len()]` equals `prefix`.
fn matches_at(key: &[u8], start: usize, prefix: &[u8]) -> (b: bool)
    requires
        start <= key@.len(),
    ensures
        b == (start + prefix@.len() <= key@.len() && key@.subrange(start as int, start + prefix@.len()) == prefix@),
{
    let n = key.len();
    let m = prefix.len();
    if n - start < m {
        return false;
    }
    let mut i: usize = 0;
    while i < m
        invariant
            i <= m,
            m == prefix@.len(),
            n == key@.len(),
            start + m <= n,
            forall|j: int| 0 <= j < i ==> key@[start + j] == prefix@[j],
        decreases m - i,
    {
        if key[start + i] != prefix[i] {
            assert(key@.subrange(start as int, start + m)[i as int] != prefix@[i as int]);
            return false;
        }
        i = i + 1;
    }
    assert(key@.subrange(start as int, start + m) =~= prefix@);
    true
}

/// The bytes of `key` after index `i`.
fn rest_after_exec(key: &[u8], i: usize) -> (r: Vec<u8>)
    ensures
        r@ == rest_after(key@, i as int),
{
    if i < key.len() && i + 1 < key.len() {
        copy_range(key, i + 1, key.len())
    } else {
        Vec::new()
    }
}

/// XOR of sixteen child hashes.
pub fn hash_16_children(hashes: &[[u8; 32]]) -> (r: [u8; 32])
    requires
        hashes@.len() == 16,
    ensures
        r@ == xor_fold(hashes@.map_values(|h: [u8; 32]| h@), 16),
{
    let ghost hs = hashes@.map_values(|h: [u8; 32]| h@);
    let mut acc = [0u8; 32];
    assert(acc@ =~= zero_hash());
    let mut i: usize = 0;
    while i < 16
        invariant
            i <= 16,
            hashes@.len() == 16,
            hs == hashes@.map_values(|h: [u8; 32]| h@),
            acc@ == xor_fold(hs, i as nat),
        decreases 16 - i,
    {
        acc = hash_pair(&acc, &hashes[i]);
        i = i + 1;
    }
    acc
}

/// Encode a row_id into its sixteen nibbles: for each little-endian byte,
/// the high nibble then the low nibble.
pub fn encode_row_id(row_id: i64) -> (key: Vec<u8>)
    ensures
        key@ == spec_encode_row_id(row_id),
        key@.len() == 16,
        nibbles(key@),
{
    let x = row_id as u64;
    let mut key: Vec<u8> = Vec::new();
    let mut k: u64 = 0;
    while k < 8
        invariant
            k <= 8,
            x == row_id as u64,
            key@.len() == 2 * k,
            forall|j: int| 0 <= j < key@.len() ==> #[trigger] key@[j] == spec_encode_row_id(row_id)[j],
        decreases 8 - k,
    {
        let b = ((x >> (8 * k)) & 0xff) as u8;
        proof {
            let lb = le_u64(x);
            assert(b == lb[k as int]) by {
                if k == 0 { assert(((x >> 0u64) & 0xff) == (x & 0xff)) by (bit_vector); }
            }
        }
        key.push(b >> 4u8);
        key.push(b & 0x0fu8);
        k = k + 1;
    }
    proof {
        lemma_encode_row_id_nibbles(row_id);
    }
    assert(key@ =~= spec_encode_row_id(row_id));
    key
}

impl RowNode {
    /// Get the hash of this node
    pub fn hash(&self) -> (h: [u8; 32])
        ensures
            h@ == node_hash(self@),
    {
        match self {
            RowNode::Leaf { row_hash, .. } => *row_hash,
            RowNode::Branch { hash, .. } => *hash,
            RowNode::Extension { hash, .. } => *hash,
        }
    }

    /// Create a new leaf node holding `row` and its hash.
    pub fn new_leaf(row_id: i64, row: DetermRow) -> (n: Self)
        requires
            row_wf(row@),
        ensures
            n@ == leaf_model(row_id, row@),
            node_wf(n@),
    {
        let row_hash = row.hash();
        RowNode::Leaf { row_id, row_hash, row_data: Some(Box::new(row)) }
    }

    /// Create a new branch node with empty slots and a zero hash.
    pub fn new_branch() -> (n: Self)
        ensures
            n@ == (NodeModel::Branch { children: empty_slots(), hash: zero_hash() }),
            node_wf(n@),
    {
        let z = [0u8; 32];
        assert(z@ =~= zero_hash());
        let n = RowNode::Branch { children: empty_children(), hash: z };
        assert(n@ == (NodeModel::Branch { children: empty_slots(), hash: zero_hash() }));
        n
    }

    /// Create a new extension node: its hash is the prefix folded by XOR
    /// into 32 bytes, XOR-ed with the child's hash.
    pub fn new_extension(prefix: Vec<u8>, child: RowNode) -> (n: Self)
        ensures
            n@ == ext_model(prefix@, child@),
    {
        let child_hash = child.hash();
        let folded = digest(prefix.as_slice());
        let hash = hash_pair(&folded, &child_hash);
        RowNode::Extension { prefix, child: Box::new(child), hash }
    }

    /// A branch over `children` with its hash recomputed from them.
    fn branch_of(children: Vec<Option<Box<RowNode>>>) -> (n: Self)
        requires
            children@.len() == 16,
        ensures
            n@ == branch_model(slots_model(children@)),
    {
        let mut hashes: Vec<[u8; 32]> = Vec::new();
        let mut i: usize = 0;
        while i < 16
            invariant
                i <= 16,
                children@.len() == 16,
                hashes@.len() == i,
                forall|j: int| 0 <= j < i ==> (#[trigger] hashes@[j])@ == slot_hash(slots_model(children@)[j]),
            decreases 16 - i,
        {
            let h = match &children[i] {
                Some(c) => c.hash(),
                None => [0u8; 32],
            };
            proof {
                if children@[i as int] is None {
                    assert(h@ =~= zero_hash());
                }
            }
            hashes.push(h);
            i = i + 1;
        }
        let hash = hash_16_children(hashes.as_slice());
        assert(hashes@.map_values(|h: [u8; 32]| h@) =~= Seq::new(16, |j: int| slot_hash(slots_model(children@)[j])));
        RowNode::Branch { children, hash }
    }
}


/// The hash of the row stored under `key` below `node`, from `depth`.
fn get_hash_in(node: &RowNode, key: &[u8], depth: usize) -> (r: Option<[u8; 32]>)
    ensures
        opt_hash_view(r) == spec_get_hash_node(node@, key@, depth as int),
    decreases node@,
{
    match node {
        RowNode::Leaf { row_hash, .. } => {
            let res = if depth >= key.len() {
                Some(*row_hash)
            } else if rest_all_zero(key, depth) {
                Some(*row_hash)
            } else {
                None
            };
            assert(opt_hash_view(res) == spec_get_hash_node(node@, key@, depth as int));
            return res;
        },
        RowNode::Branch { children, .. } => {
            if depth >= key.len() {
                return None;
            }
            let n = key[depth] as usize;
            assert(slots_model(children@).len() == children@.len());
            if n >= children.len() {
                return None;
            }
            match &children[n] {
                None => {
                    assert(slots_model(children@)[n as int] is None);
                    assert(spec_get_hash(None, key@, depth + 1) is None);
                    assert(spec_get_hash_node(node@, key@, depth as int) is None);
                    None
                },
                Some(c) => {
                    proof {
                        let sm = slots_model(children@);
                        assert(sm[n as int] == Some(node_model(**c)));
                        assert(decreases_to!(node@ => sm));
                        assert(decreases_to!(sm => sm[n as int]));
                        assert(decreases_to!(sm[n as int] => sm[n as int]->0));
                    }
                    let res = get_hash_in(c, key, depth + 1);
                    assert(spec_get_hash(Some(node_model(**c)), key@, depth + 1) == spec_get_hash_node(node_model(**c), key@, depth + 1));
                    res
                },
            }
        },
        RowNode::Extension { prefix, child, .. } => {
            if depth <= key.len() && matches_at(key, depth, prefix.as_slice()) {
                let rest = copy_range(key, depth + prefix.len(), key.len());
                let res = get_hash_in(child, rest.as_slice(), 0);
                assert(opt_hash_view(res) == spec_get_hash_node(node@, key@, depth as int));
                res
            } else {
                assert(spec_get_hash_node(node@, key@, depth as int) is None);
                None
            }
        },
    }
}

/// The row stored under `key` for `target` below `node`, from `depth`.
fn get_in(node: &RowNode, key: &[u8], depth: usize, target: i64) -> (r: Option<DetermRow>)
    ensures
        opt_row_view(r) == spec_get_node(node@, key@, depth as int, target),
    decreases node@,
{
    match node {
        RowNode::Leaf { row_id, row_data, .. } => {
            assert(node@ is Leaf);
            assert(node@->Leaf_row_id == *row_id);
            assert(spec_get_node(node@, key@, depth as int, target) == (if *row_id != target { None } else { node@->Leaf_row_data }));
            if *row_id != target {
                return None;
            }
            match row_data {
                Some(r) => {
                    let d = (**r).duplicate();
                    Some(d)
                },
                None => None,
            }
        },
        RowNode::Branch { children, .. } => {
            if depth >= key.len() {
                return None;
            }
            let n = key[depth] as usize;
            assert(slots_model(children@).len() == children@.len());
            if n >= children.len() {
                return None;
            }
            match &children[n] {
                None => {
                    assert(slots_model(children@)[n as int] is None);
                    assert(spec_get(None, key@, depth + 1, target) is None);
                    None
                },
                Some(c) => {
                    proof {
                        let sm = slots_model(children@);
                        assert(sm[n as int] == Some(node_model(**c)));
                        assert(decreases_to!(node@ => sm));
                        assert(decreases_to!(sm => sm[n as int]));
                        assert(decreases_to!(sm[n as int] => sm[n as int]->0));
                    }
                    let res = get_in(c, key, depth + 1, target);
                    assert(spec_get(Some(node_model(**c)), key@, depth + 1, target) == spec_get_node(node_model(**c), key@, depth + 1, target));
                    res
                },
            }
        },
        RowNode::Extension { prefix, child, .. } => {
            if depth <= key.len() && matches_at(key, depth, prefix.as_slice()) {
                let rest = copy_range(key, depth + prefix.len(), key.len());
                get_in(child, rest.as_slice(), 0, target)
            } else {
                None
            }
        },
    }
}


/// The levels of a hexary proof as plain values.
pub open spec fn levels_view(v: Seq<(u16, Vec<[u8; 32]>)>) -> Seq<(nat, Seq<Seq<u8>>)> {
    v.map_values(|l: (u16, Vec<[u8; 32]>)| (l.0 as nat, l.1@.map_values(|h: [u8; 32]| h@)))
}

/// The parts of a hexary proof as plain values.
pub open spec fn hexary_view(r: Option<([u8; 32], Vec<(u16, Vec<[u8; 32]>)>, Vec<u8>)>) -> Option<
    (Seq<u8>, Seq<(nat, Seq<Seq<u8>>)>, Seq<u8>),
> {
    match r {
        None => None,
        Some(t) => Some((t.0@, levels_view(t.1@), t.2@)),
    }
}

proof fn lemma_bit_of_monotone(i: nat, j: nat)
    requires
        i <= j,
    ensures
        bit_of(i) <= bit_of(j),
    decreases j,
{
    if i < j {
        lemma_bit_of_monotone(i, (j - 1) as nat);
    }
}

/// The bitmap and sibling hashes of a branch's slots, off the path's slot.
fn branch_level(children: &Vec<Option<Box<RowNode>>>, nib: usize) -> (r: (u16, Vec<[u8; 32]>))
    requires
        children@.len() <= 16,
    ensures
        r.0 as nat == occupied_bitmap(slots_model(children@), children@.len() as nat),
        r.1@.map_values(|h: [u8; 32]| h@) == sibling_hashes(slots_model(children@), nib as int, children@.len() as nat),
{
    let ghost c = slots_model(children@);
    let mut bitmap: u32 = 0;
    let mut bit: u32 = 1;
    let mut siblings: Vec<[u8; 32]> = Vec::new();
    let mut i: usize = 0;
    proof {
        reveal_with_fuel(bit_of, 17);
        assert(bit_of(16) == 65536);
    }
    while i < children.len()
        invariant
            i <= children@.len() <= 16,
            c == slots_model(children@),
            c.len() == children@.len(),
            bit == bit_of(i as nat),
            bitmap == occupied_bitmap(c, i as nat),
            bitmap < bit,
            bit_of(16) == 65536,
            siblings@.map_values(|h: [u8; 32]| h@) == sibling_hashes(c, nib as int, i as nat),
        decreases children@.len() - i,
    {
        proof {
            lemma_bit_of_monotone((i + 1) as nat, 16);
        }
        let ghost before = siblings@.map_values(|h: [u8; 32]| h@);
        match &children[i] {
            Some(ch) => {
                assert(c[i as int] == Some(node_model(**ch)));
                bitmap = bitmap + bit;
                if i != nib {
                    let h = ch.hash();
                    siblings.push(h);
                    assert(siblings@.map_values(|h: [u8; 32]| h@) =~= before.push(h@));
                }
            },
            None => {
                assert(c[i as int] is None);
            },
        }
        bit = bit * 2;
        i = i + 1;
    }
    proof {
        lemma_bit_of_monotone(i as nat, 16);
    }
    (bitmap as u16, siblings)
}

/// The parts of a hexary proof for `target` below `node`.
fn hexary_in(node: &RowNode, key: &[u8], depth: usize, target: i64) -> (r: Option<
    ([u8; 32], Vec<(u16, Vec<[u8; 32]>)>, Vec<u8>),
>)
    requires
        node_wf(node@),
    ensures
        hexary_view(r) == spec_hexary_path_node(node@, key@, depth as int, target),
    decreases node@,
{
    match node {
        RowNode::Leaf { row_id, row_hash, .. } => {
            assert(node@ is Leaf);
            if *row_id != target {
                return None;
            }
            let levels: Vec<(u16, Vec<[u8; 32]>)> = Vec::new();
            let path: Vec<u8> = Vec::new();
            assert(levels_view(levels@) =~= Seq::<(nat, Seq<Seq<u8>>)>::empty());
            Some((*row_hash, levels, path))
        },
        RowNode::Branch { children, .. } => {
            if depth >= key.len() {
                return None;
            }
            let n = key[depth] as usize;
            let ghost sm = slots_model(children@);
            assert(sm.len() == children@.len());
            if n >= children.len() {
                return None;
            }
            match &children[n] {
                None => {
                    assert(sm[n as int] is None);
                    None
                },
                Some(c) => {
                    proof {
                        assert(sm[n as int] == Some(node_model(**c)));
                        assert(decreases_to!(node@ => sm));
                        assert(decreases_to!(sm => sm[n as int]));
                        assert(decreases_to!(sm[n as int] => sm[n as int]->0));
                        assert(node_wf(node_model(**c)));
                    }
                    let res = hexary_in(c, key, depth + 1, target);
                    assert(spec_hexary_path(Some(node_model(**c)), key@, depth + 1, target)
                        == spec_hexary_path_node(node_model(**c), key@, depth + 1, target));
                    match res {
                        None => None,
                        Some((h, lv, path)) => {
                            let level = branch_level(children, n);
                            let ghost lv0 = levels_view(lv@);
                            let ghost p0 = path@;
                            let mut levels = lv;
                            levels.insert(0, level);
                            let mut full_path = path;
                            full_path.insert(0, key[depth]);
                            assert(levels_view(levels@) =~= seq![(level.0 as nat, level.1@.map_values(|h: [u8; 32]| h@))] + lv0);
                            assert(full_path@ =~= seq![key@[depth as int]] + p0);
                            Some((h, levels, full_path))
                        },
                    }
                },
            }
        },
        RowNode::Extension { prefix, child, .. } => {
            if depth <= key.len() && matches_at(key, depth, prefix.as_slice()) {
                let rest = copy_range(key, depth + prefix.len(), key.len());
                match hexary_in(child, rest.as_slice(), 0, target) {
                    None => None,
                    Some((h, lv, path)) => {
                        let mut full_path = prefix.clone();
                        let ghost p0 = path@;
                        let mut tail = path;
                        full_path.append(&mut tail);
                        assert(full_path@ =~= prefix@ + p0);
                        Some((h, lv, full_path))
                    },
                }
            } else {
                None
            }
        },
    }
}


/// A node placed below a branch slot, directly or under an extension over
/// the rest of its key.
fn place_exec(rest: Vec<u8>, node: RowNode) -> (r: RowNode)
    ensures
        r@ == place(rest@, node@),
{
    if rest_all_zero(rest.as_slice(), 0) {
        assert(rest@.subrange(0, rest@.len() as int) =~= rest@);
        node
    } else {
        assert(rest@.subrange(0, rest@.len() as int) =~= rest@);
        RowNode::new_extension(rest, node)
    }
}

proof fn lemma_nibbles_subrange(s: Seq<u8>, a: int, b: int)
    requires
        nibbles(s),
        0 <= a <= b <= s.len(),
    ensures
        nibbles(s.subrange(a, b)),
{
    assert forall|i: int| 0 <= i < s.subrange(a, b).len() implies #[trigger] s.subrange(a, b)[i] < 16 by {
        assert(s.subrange(a, b)[i] == s[a + i]);
    }
}

proof fn lemma_place_wf(rest: Seq<u8>, n: NodeModel)
    requires
        nibbles(rest),
        node_wf(n),
    ensures
        node_wf(place(rest, n)),
{
    lemma_ext_wf(rest, n);
}

proof fn lemma_ext_wf(prefix: Seq<u8>, n: NodeModel)
    requires
        nibbles(prefix),
        node_wf(n),
    ensures
        node_wf(ext_model(prefix, n)),
{
}

proof fn lemma_branch_wf(c: Seq<Option<NodeModel>>)
    requires
        c.len() == 16,
        forall|i: int| 0 <= i < 16 ==> opt_wf(#[trigger] c[i]),
    ensures
        node_wf(branch_model(c)),
        node_wf(NodeModel::Branch { children: c, hash: zero_hash() }),
{
    assert forall|i: int| 0 <= i < c.len() implies match #[trigger] c[i] {
        Some(x) => node_wf(x),
        None => true,
    } by {
        assert(opt_wf(c[i]));
    }
}

proof fn lemma_empty_slots_wf()
    ensures
        forall|i: int| 0 <= i < 16 ==> opt_wf(#[trigger] empty_slots()[i]),
{
}

/// Inserting below an optional slot.
fn insert_slot(node: Option<Box<RowNode>>, key: &[u8], depth: usize, row_id: i64, row: DetermRow) -> (r: RowNode)
    requires
        opt_wf(opt_model(node)),
        nibbles(key@),
        key@.len() <= 16,
        depth <= 17,
        row_wf(row@),
    ensures
        r@ == spec_insert(opt_model(node), key@, depth as int, row_id, row@),
        node_wf(r@),
    decreases opt_model(node), depth_measure(key@, depth as int), 1nat,
{
    match node {
        None => RowNode::new_leaf(row_id, row),
        Some(b) => {
            let r = insert_into(*b, key, depth, row_id, row);
            assert(spec_insert(opt_model(Some(b)), key@, depth as int, row_id, row@) == spec_insert_node(node_model(*b), key@, depth as int, row_id, row@));
            r
        },
    }
}

/// Internal recursive insert.
fn insert_into(node: RowNode, key: &[u8], depth: usize, row_id: i64, row: DetermRow) -> (r: RowNode)
    requires
        node_wf(node@),
        nibbles(key@),
        key@.len() <= 16,
        depth <= 17,
        row_wf(row@),
    ensures
        r@ == spec_insert_node(node@, key@, depth as int, row_id, row@),
        node_wf(r@),
    decreases node@, depth_measure(key@, depth as int), 0nat,
{
    let ghost m = node@;
    match node {
        RowNode::Leaf { row_id: existing_id, row_hash, row_data } => {
            if existing_id == row_id {
                return RowNode::new_leaf(row_id, row);
            }
            let ek = encode_row_id(existing_id);
            let mut d: usize = depth;
            proof {
                lemma_diverge_bounds(key@, ek@, depth as int);
            }
            while d < key.len() && d < ek.len() && key[d] == ek[d]
                invariant
                    depth <= d <= 17,
                    ek@.len() == 16,
                    key@.len() <= 16,
                    diverge(key@, ek@, depth as int) == diverge(key@, ek@, d as int),
                decreases 17 - d,
            {
                d = d + 1;
            }
            let existing = RowNode::Leaf { row_id: existing_id, row_hash, row_data };
            assert(existing@ == m);
            proof {
                lemma_encode_row_id_nibbles(existing_id);
                lemma_empty_slots_wf();
            }
            if d <= depth {
                let en: usize = if depth < ek.len() { ek[depth] as usize } else { 0 };
                let nn: usize = if depth < key.len() { key[depth] as usize } else { 0 };
                let mut children = empty_children();
                let er = rest_after_exec(ek.as_slice(), depth);
                proof {
                    if depth + 1 < 16 {
                        lemma_nibbles_subrange(ek@, depth + 1, 16);
                    }
                    lemma_place_wf(er@, existing@);
                }
                let pe = place_exec(er, existing);
                put_child(&mut children, en, pe);
                let nr = rest_after_exec(key, depth);
                let new_leaf = RowNode::new_leaf(row_id, row);
                proof {
                    if depth + 1 < key@.len() {
                        lemma_nibbles_subrange(key@, depth + 1, key@.len() as int);
                    }
                    lemma_place_wf(nr@, new_leaf@);
                }
                let pn = place_exec(nr, new_leaf);
                put_child(&mut children, nn, pn);
                proof {
                    lemma_branch_wf(slots_model(children@));
                }
                RowNode::branch_of(children)
            } else {
                let en: usize = if d < ek.len() { ek[d] as usize } else { 0 };
                let nn: usize = if d < key.len() { key[d] as usize } else { 0 };
                let mut sub = empty_children();
                if en == nn {
                    assert(depth_measure(key@, d + 1) < depth_measure(key@, depth as int));
                    let inner = insert_into(existing, key, d + 1, row_id, row);
                    put_child(&mut sub, en, inner);
                } else {
                    put_child(&mut sub, en, existing);
                    let new_leaf = RowNode::new_leaf(row_id, row);
                    put_child(&mut sub, nn, new_leaf);
                }
                proof {
                    lemma_branch_wf(slots_model(sub@));
                    lemma_nibbles_subrange(key@, depth as int, d as int);
                }
                let cp = copy_range(key, depth, d);
                let b = RowNode::branch_of(sub);
                proof {
                    lemma_ext_wf(cp@, b@);
                }
                RowNode::new_extension(cp, b)
            }
        },
        RowNode::Branch { children, hash: _ } => {
            if depth >= key.len() {
                return RowNode::new_leaf(row_id, row);
            }
            let mut children = children;
            let n = key[depth] as usize;
            let ghost sm = slots_model(children@);
            assert(sm.len() == 16);
            let child = take_child(&mut children, n);
            proof {
                assert(opt_wf(sm[n as int]));
                assert(decreases_to!(m => sm));
                assert(decreases_to!(sm => sm[n as int]));
            }
            let new_child = insert_slot(child, key, depth + 1, row_id, row);
            put_child(&mut children, n, new_child);
            proof {
                assert(slots_model(children@) =~= sm.update(n as int, Some(new_child@)));
                assert forall|i: int| 0 <= i < 16 implies opt_wf(#[trigger] slots_model(children@)[i]) by {
                    if i != n {
                        assert(opt_wf(sm[i]));
                    }
                }
                lemma_branch_wf(slots_model(children@));
            }
            RowNode::branch_of(children)
        },
        RowNode::Extension { prefix, child, hash: _ } => {
            if prefix.len() <= key.len() && matches_at(key, 0, prefix.as_slice()) {
                let sub = copy_range(key, prefix.len(), key.len());
                proof {
                    lemma_nibbles_subrange(key@, prefix@.len() as int, key@.len() as int);
                    assert(decreases_to!(m => *m->Extension_child));
                }
                let new_child = insert_into(*child, sub.as_slice(), 0, row_id, row);
                proof {
                    lemma_ext_wf(prefix@, new_child@);
                }
                RowNode::new_extension(prefix, new_child)
            } else {
                let mut children = empty_children();
                proof {
                    lemma_empty_slots_wf();
                }
                if prefix.len() > 0 {
                    let i0 = prefix[0] as usize;
                    put_child(&mut children, i0, *child);
                }
                let ni: usize = if depth < key.len() { key[depth] as usize } else { 0 };
                let new_leaf = RowNode::new_leaf(row_id, row);
                put_child(&mut children, ni, new_leaf);
                proof {
                    assert forall|i: int| 0 <= i < 16 implies opt_wf(#[trigger] slots_model(children@)[i]) by {}
                    lemma_branch_wf(slots_model(children@));
                }
                let z = [0u8; 32];
                assert(z@ =~= zero_hash());
                RowNode::Branch { children, hash: z }
            }
        },
    }
}


/// Sets slot `i` to `x`.
fn set_slot(children: &mut Vec<Option<Box<RowNode>>>, i: usize, x: Option<Box<RowNode>>)
    requires
        i < old(children)@.len(),
    ensures
        final(children)@.len() == old(children)@.len(),
        slots_model(final(children)@) == slots_model(old(children)@).update(i as int, opt_model(x)),
{
    proof {
        lemma_slots_update(children@, i as int, x);
    }
    children.set(i, x);
}

/// Whether every slot is empty.
fn slots_all_empty(children: &Vec<Option<Box<RowNode>>>) -> (b: bool)
    ensures
        b == all_empty(slots_model(children@)),
{
    let n = children.len();
    let mut i: usize = 0;
    while i < n
        invariant
            i <= n,
            n == children@.len(),
            forall|j: int| 0 <= j < i ==> #[trigger] slots_model(children@)[j] is None,
        decreases n - i,
    {
        match &children[i] {
            Some(_) => {
                assert(slots_model(children@)[i as int] is Some);
                return false;
            },
            None => {},
        }
        i = i + 1;
    }
    true
}

/// Deleting below an optional slot.
fn delete_slot(node: Option<Box<RowNode>>, key: &[u8], depth: usize) -> (r: Option<Box<RowNode>>)
    requires
        opt_wf(opt_model(node)),
    ensures
        opt_model(r) == spec_delete(opt_model(node), key@, depth as int),
        opt_wf(opt_model(r)),
    decreases opt_model(node), 1nat,
{
    match node {
        None => None,
        Some(b) => {
            let r = delete_node(*b, key, depth);
            assert(spec_delete(opt_model(Some(b)), key@, depth as int) == spec_delete_node(node_model(*b), key@, depth as int));
            r
        },
    }
}

/// Internal recursive delete.
fn delete_node(node: RowNode, key: &[u8], depth: usize) -> (r: Option<Box<RowNode>>)
    requires
        node_wf(node@),
    ensures
        opt_model(r) == spec_delete_node(node@, key@, depth as int),
        opt_wf(opt_model(r)),
    decreases node@, 0nat,
{
    let ghost m = node@;
    match node {
        RowNode::Leaf { row_id, .. } => {
            if depth >= key.len() || rest_all_zero(key, depth) {
                None
            } else {
                let z = [0u8; 32];
                assert(z@ =~= zero_hash());
                Some(Box::new(RowNode::Leaf { row_id, row_hash: z, row_data: None }))
            }
        },
        RowNode::Branch { children, hash: _ } => {
            let mut children = children;
            if depth >= key.len() {
                let z = [0u8; 32];
                assert(z@ =~= zero_hash());
                return Some(Box::new(RowNode::Branch { children, hash: z }));
            }
            let n = key[depth] as usize;
            let ghost sm = slots_model(children@);
            if n >= children.len() {
                return None;
            }
            let child = take_child(&mut children, n);
            proof {
                assert(opt_wf(sm[n as int]));
                assert(decreases_to!(m => sm));
                assert(decreases_to!(sm => sm[n as int]));
            }
            let new_child = delete_slot(child, key, depth + 1);
            set_slot(&mut children, n, new_child);
            proof {
                assert(slots_model(children@) =~= sm.update(n as int, opt_model(new_child)));
            }
            if slots_all_empty(&children) {
                None
            } else {
                proof {
                    assert forall|i: int| 0 <= i < 16 implies opt_wf(#[trigger] slots_model(children@)[i]) by {
                        if i != n {
                            assert(opt_wf(sm[i]));
                        }
                    }
                    lemma_branch_wf(slots_model(children@));
                }
                Some(Box::new(RowNode::branch_of(children)))
            }
        },
        RowNode::Extension { prefix, child, hash: _ } => {
            if depth <= key.len() && matches_at(key, depth, prefix.as_slice()) {
                proof {
                    assert(decreases_to!(m => *m->Extension_child));
                }
                match delete_node(*child, key, depth + prefix.len()) {
                    Some(c) => {
                        let e = RowNode::new_extension(prefix, *c);
                        proof {
                            lemma_ext_wf(prefix@, c@);
                        }
                        Some(Box::new(e))
                    },
                    None => None,
                }
            } else {
                let z = [0u8; 32];
                assert(z@ =~= zero_hash());
                Some(Box::new(RowNode::Extension { prefix, child, hash: z }))
            }
        },
    }
}


/// Represents a state difference between two trie states.
#[derive(Debug, Clone, PartialEq, Eq)]
pub struct StateDiff {
    /// Inserted rows (row_id, row_hash)
    pub inserted: Vec<(i64, [u8; 32])>,
    /// Updated rows (row_id, old_hash, new_hash)
    pub updated: Vec<(i64, [u8; 32], [u8; 32])>,
    /// Deleted rows (row_id, row_hash)
    pub deleted: Vec<(i64, [u8; 32])>,
}

impl StateDiff {
    /// Create a new empty state diff
    pub fn new() -> (d: Self)
        ensures
            d.inserted@.len() == 0,
            d.updated@.len() == 0,
            d.deleted@.len() == 0,
    {
        Self { inserted: Vec::new(), updated: Vec::new(), deleted: Vec::new() }
    }

    /// Check if the diff is empty (no changes)
    pub fn is_empty(&self) -> (b: bool)
        ensures
            b == (self.inserted@.len() == 0 && self.updated@.len() == 0 && self.deleted@.len() == 0),
    {
        self.inserted.len() == 0 && self.updated.len() == 0 && self.deleted.len() == 0
    }
}

impl Default for StateDiff {
    fn default() -> (d: Self)
        ensures
            d.inserted@.len() == 0,
            d.updated@.len() == 0,
            d.deleted@.len() == 0,
    {
        Self::new()
    }
}

impl Default for RowNode {
    fn default() -> (n: Self)
        ensures
            n@ == (NodeModel::Branch { children: empty_slots(), hash: zero_hash() }),
    {
        Self::new_branch()
    }
}

/// The hash of an optional root: its hash, or zeros when the trie is empty.
pub open spec fn root_hash_of(root: Option<NodeModel>) -> Seq<u8> {
    match root {
        Some(n) => node_hash(n),
        None => zero_hash(),
    }
}

/// A Merkle trie for storing database rows.
#[derive(Debug, PartialEq, Eq)]
pub struct RowTrie {
    /// Root node of the trie
    root: Option<Box<RowNode>>,
    /// Number of rows in the trie
    row_count: usize,
}

impl RowTrie {
    #[verifier::type_invariant]
    spec fn inv(self) -> bool {
        opt_wf(opt_model(self.root))
    }

    /// The root node.
    pub closed spec fn root_view(self) -> Option<NodeModel> {
        opt_model(self.root)
    }

    /// The row counter.
    pub closed spec fn count(self) -> nat {
        self.row_count as nat
    }

    /// Create a new empty row trie
    pub fn new() -> (t: Self)
        ensures
            t.root_view() is None,
            t.count() == 0,
    {
        Self { root: None, row_count: 0 }
    }

    /// Insert a row into the trie.
    ///
    /// Returns the new root hash and the change: an update when the row id
    /// already had a hash, else an insertion, which increments the count.
    pub fn insert(&mut self, row_id: i64, row: DetermRow) -> (res: ([u8; 32], StateDiff))
        requires
            row_wf(row@),
            old(self).count() < usize::MAX,
        ensures
            ({
                let key = spec_encode_row_id(row_id);
                let new_root = spec_insert(old(self).root_view(), key, 0, row_id, row@);
                let old_hash = spec_get_hash(old(self).root_view(), key, 0);
                &&& final(self).root_view() == Some(new_root)
                &&& res.0@ == node_hash(new_root)
                &&& res.1.deleted@.len() == 0
                &&& match old_hash {
                    Some(h) => {
                        &&& final(self).count() == old(self).count()
                        &&& res.1.inserted@.len() == 0
                        &&& res.1.updated@.len() == 1
                        &&& res.1.updated@[0].0 == row_id
                        &&& res.1.updated@[0].1@ == h
                        &&& res.1.updated@[0].2@ == spec_row_hash(row@)
                    },
                    None => {
                        &&& final(self).count() == old(self).count() + 1
                        &&& res.1.updated@.len() == 0
                        &&& res.1.inserted@.len() == 1
                        &&& res.1.inserted@[0].0 == row_id
                        &&& res.1.inserted@[0].1@ == spec_row_hash(row@)
                    },
                }
            }),
    {
        proof {
            use_type_invariant(&*self);
        }
        let mut diff = StateDiff::new();
        let key = encode_row_id(row_id);
        let row_hash = row.hash();
        let old_hash_opt = match &self.root {
            Some(r) => get_hash_in(r, key.as_slice(), 0),
            None => None,
        };
        assert(opt_hash_view(old_hash_opt) == spec_get_hash(self.root_view(), key@, 0)) by {
            match self.root {
                Some(r) => {
                    assert(spec_get_hash(opt_model(Some(r)), key@, 0) == spec_get_hash_node(node_model(*r), key@, 0));
                },
                None => {},
            }
        }
        let mut old_root: Option<Box<RowNode>> = None;
        std::mem::swap(&mut old_root, &mut self.root);
        let new_root = insert_slot(old_root, key.as_slice(), 0, row_id, row);
        match old_hash_opt {
            Some(old_hash) => {
                diff.updated.push((row_id, old_hash, row_hash));
            },
            None => {
                diff.inserted.push((row_id, row_hash));
                self.row_count = self.row_count + 1;
            },
        }
        let h = new_root.hash();
        self.root = Some(Box::new(new_root));
        (h, diff)
    }

    /// Delete a row from the trie.
    ///
    /// When the row id has a hash, the row is removed, the count decreases
    /// (not below zero) and the change lists the deletion; otherwise nothing
    /// changes.
    pub fn delete(&mut self, row_id: i64) -> (res: ([u8; 32], StateDiff))
        ensures
            ({
                let key = spec_encode_row_id(row_id);
                let old_hash = spec_get_hash(old(self).root_view(), key, 0);
                &&& res.1.inserted@.len() == 0
                &&& res.1.updated@.len() == 0
                &&& res.0@ == root_hash_of(final(self).root_view())
                &&& match old_hash {
                    Some(h) => {
                        &&& final(self).root_view() == spec_delete(old(self).root_view(), key, 0)
                        &&& final(self).count() == if old(self).count() == 0 { 0 } else { (old(self).count() - 1) as nat }
                        &&& res.1.deleted@.len() == 1
                        &&& res.1.deleted@[0].0 == row_id
                        &&& res.1.deleted@[0].1@ == h
                    },
                    None => {
                        &&& final(self).root_view() == old(self).root_view()
                        &&& final(self).count() == old(self).count()
                        &&& res.1.deleted@.len() == 0
                    },
                }
            }),
    {
        proof {
            use_type_invariant(&*self);
        }
        let mut diff = StateDiff::new();
        let key = encode_row_id(row_id);
        let old_hash = match &self.root {
            Some(r) => get_hash_in(r, key.as_slice(), 0),
            None => None,
        };
        assert(opt_hash_view(old_hash) == spec_get_hash(self.root_view(), key@, 0)) by {
            match self.root {
                Some(r) => {
                    assert(spec_get_hash(opt_model(Some(r)), key@, 0) == spec_get_hash_node(node_model(*r), key@, 0));
                },
                None => {},
            }
        }
        match old_hash {
            Some(h) => {
                diff.deleted.push((row_id, h));
                self.row_count = if self.row_count == 0 { 0 } else { self.row_count - 1 };
                let mut old_root: Option<Box<RowNode>> = None;
        std::mem::swap(&mut old_root, &mut self.root);
                let new_root = delete_slot(old_root, key.as_slice(), 0);
                self.root = new_root;
            },
            None => {},
        }
        (self.get_root(), diff)
    }

    /// Get the hash of a row
    pub fn get_hash(&self, row_id: i64) -> (r: Option<[u8; 32]>)
        ensures
            opt_hash_view(r) == spec_get_hash(self.root_view(), spec_encode_row_id(row_id), 0),
    {
        let key = encode_row_id(row_id);
        match &self.root {
            Some(r) => {
                let res = get_hash_in(r, key.as_slice(), 0);
                assert(spec_get_hash(opt_model(Some(*r)), key@, 0) == spec_get_hash_node(node_model(**r), key@, 0));
                res
            },
            None => None,
        }
    }

    /// Get a row from the trie
    pub fn get(&self, row_id: i64) -> (r: Option<DetermRow>)
        ensures
            opt_row_view(r) == spec_get(self.root_view(), spec_encode_row_id(row_id), 0, row_id),
    {
        let key = encode_row_id(row_id);
        match &self.root {
            Some(r) => {
                let res = get_in(r, key.as_slice(), 0, row_id);
                assert(spec_get(opt_model(Some(*r)), key@, 0, row_id) == spec_get_node(node_model(**r), key@, 0, row_id));
                res
            },
            None => None,
        }
    }

    /// The parts of a hexary Merkle proof for a row: the hash of its leaf,
    /// one level per branch on the way down (the bitmap of the branch's
    /// occupied slots and the hashes of the occupied slots off the path, in
    /// slot order), and the nibbles of the path, extension prefixes
    /// included; `None` when no leaf with that row id lies on its key's path.
    pub fn hexary_path(&self, row_id: i64) -> (r: Option<([u8; 32], Vec<(u16, Vec<[u8; 32]>)>, Vec<u8>)>)
        ensures
            hexary_view(r) == spec_hexary_path(self.root_view(), spec_encode_row_id(row_id), 0, row_id),
    {
        proof {
            use_type_invariant(self);
        }
        let key = encode_row_id(row_id);
        match &self.root {
            Some(r) => {
                let res = hexary_in(r, key.as_slice(), 0, row_id);
                assert(spec_hexary_path(opt_model(Some(*r)), key@, 0, row_id) == spec_hexary_path_node(node_model(**r), key@, 0, row_id));
                res
            },
            None => None,
        }
    }

    /// Get the current root hash
    pub fn get_root(&self) -> (h: [u8; 32])
        ensures
            h@ == root_hash_of(self.root_view()),
    {
        match &self.root {
            Some(r) => r.hash(),
            None => {
                let z = [0u8; 32];
                assert(z@ =~= zero_hash());
                z
            },
        }
    }

    /// Get the number of rows in the trie
    pub fn len(&self) -> (n: usize)
        ensures
            n == self.count(),
    {
        self.row_count
    }

    /// Check if the trie is empty
    pub fn is_empty(&self) -> (b: bool)
        ensures
            b == (self.count() == 0),
    {
        self.row_count == 0
    }
}

impl Default for RowTrie {
    fn default() -> (t: Self)
        ensures
            t.root_view() is None,
            t.count() == 0,
    {
        Self::new()
    }
}


/// An empty trie holds no row and no hash for any id, and its root hash is
/// all zeros.
pub proof fn lemma_empty_trie(row_id: i64)
    ensures
        spec_get_hash(None, spec_encode_row_id(row_id), 0) is None,
        spec_get(None, spec_encode_row_id(row_id), 0, row_id) is None,
        root_hash_of(None) == zero_hash(),
{
}

/// A row inserted into an empty trie can be read back under its id, and the
/// root hash is then the row's hash.
pub proof fn lemma_get_after_insert_into_empty(row_id: i64, row: Seq<ValueModel>)
    ensures
        spec_get(Some(spec_insert(None, spec_encode_row_id(row_id), 0, row_id, row)), spec_encode_row_id(row_id), 0, row_id) == Some(row),
        root_hash_of(Some(spec_insert(None, spec_encode_row_id(row_id), 0, row_id, row))) == spec_row_hash(row),
{
    let key = spec_encode_row_id(row_id);
    let n = spec_insert(None, key, 0, row_id, row);
    assert(n == leaf_model(row_id, row));
    assert(spec_get(Some(n), key, 0, row_id) == spec_get_node(n, key, 0, row_id));
}

/// Inserting a row under the id of the single row of a trie replaces it:
/// the later row is the one read back.
pub proof fn lemma_insert_replaces_single_row(row_id: i64, first: Seq<ValueModel>, second: Seq<ValueModel>)
    ensures
        ({
            let key = spec_encode_row_id(row_id);
            let t1 = spec_insert(None, key, 0, row_id, first);
            let t2 = spec_insert(Some(t1), key, 0, row_id, second);
            &&& t2 == leaf_model(row_id, second)
            &&& spec_get(Some(t2), key, 0, row_id) == Some(second)
        }),
{
    let key = spec_encode_row_id(row_id);
    let t1 = spec_insert(None, key, 0, row_id, first);
    assert(t1 == leaf_model(row_id, first));
    let t2 = spec_insert(Some(t1), key, 0, row_id, second);
    assert(t2 == spec_insert_node(t1, key, 0, row_id, second));
    assert(spec_get(Some(t2), key, 0, row_id) == spec_get_node(t2, key, 0, row_id));
}

proof fn lemma_byte_from_nibbles(x: u8, y: u8)
    requires
        x >> 4u8 == y >> 4u8,
        x & 0x0fu8 == y & 0x0fu8,
    ensures
        x == y,
{
    assert(x == y) by (bit_vector)
        requires
            x >> 4u8 == y >> 4u8,
            x & 0x0fu8 == y & 0x0fu8,
    ;
}

proof fn lemma_i64_from_u64(a: i64, b: i64)
    requires
        a as u64 == b as u64,
    ensures
        a == b,
{
    assert(a == b) by (bit_vector)
        requires
            a as u64 == b as u64,
    ;
}

/// Different row ids have different keys.
pub proof fn lemma_encode_row_id_injective(a: i64, b: i64)
    requires
        spec_encode_row_id(a) == spec_encode_row_id(b),
    ensures
        a == b,
{
    let ka = spec_encode_row_id(a);
    let kb = spec_encode_row_id(b);
    let ba = le_u64(a as u64);
    let bb = le_u64(b as u64);
    assert forall|j: int| 0 <= j < 8 implies #[trigger] ba[j] == bb[j] by {
        assert(ka[2 * j] == kb[2 * j]);
        assert(ka[2 * j + 1] == kb[2 * j + 1]);
        assert((2 * j) / 2 == j);
        assert((2 * j + 1) / 2 == j);
        assert((2 * j) % 2 == 0);
        assert((2 * j + 1) % 2 == 1);
        lemma_byte_from_nibbles(ba[j], bb[j]);
    }
    assert(ba =~= bb);
    assert(ba.subrange(0, 8) =~= ba);
    assert(bb.subrange(0, 8) =~= bb);
    lemma_read_le_u64(ba, 0, a as u64);
    lemma_read_le_u64(ba, 0, b as u64);
    lemma_i64_from_u64(a, b);
}

/// A trie holding one row keeps it after a row under another id is
/// inserted, and both rows can then be read back under their ids.
pub proof fn lemma_second_insert_keeps_both(id1: i64, row1: Seq<ValueModel>, id2: i64, row2: Seq<ValueModel>)
    requires
        id1 != id2,
    ensures
        ({
            let k1 = spec_encode_row_id(id1);
            let k2 = spec_encode_row_id(id2);
            let t1 = spec_insert(None, k1, 0, id1, row1);
            let t2 = spec_insert(Some(t1), k2, 0, id2, row2);
            &&& spec_get(Some(t2), k2, 0, id2) == Some(row2)
            &&& spec_get(Some(t2), k1, 0, id1) == Some(row1)
        }),
{
    let k1 = spec_encode_row_id(id1);
    let k2 = spec_encode_row_id(id2);
    lemma_encode_row_id_nibbles(id1);
    lemma_encode_row_id_nibbles(id2);
    let l1 = leaf_model(id1, row1);
    let l2 = leaf_model(id2, row2);
    let t1 = spec_insert(None, k1, 0, id1, row1);
    assert(t1 == l1);
    let t2 = spec_insert(Some(t1), k2, 0, id2, row2);
    assert(t2 == spec_insert_node(l1, k2, 0, id2, row2));
    let d = diverge(k2, k1, 0);
    lemma_diverge_bounds(k2, k1, 0);
    if d >= 16 {
        assert(k2 =~= k1);
        lemma_encode_row_id_injective(id1, id2);
    }
    assert(d < 16);
    assert(k2[d] != k1[d]);
    assert(spec_get(Some(t2), k2, 0, id2) == spec_get_node(t2, k2, 0, id2));
    assert(spec_get(Some(t2), k1, 0, id1) == spec_get_node(t2, k1, 0, id1));
    if d <= 0 {
        let en = nibble_at(k1, 0);
        let nn = nibble_at(k2, 0);
        let p1 = place(rest_after(k1, 0), l1);
        let p2 = place(rest_after(k2, 0), l2);
        let c2 = empty_slots().update(en as int, Some(p1)).update(nn as int, Some(p2));
        assert(t2 == branch_model(c2));
        assert(c2[nn as int] == Some(p2));
        assert(c2[en as int] == Some(p1));
        assert(spec_get(Some(p2), k2, 1, id2) == spec_get_node(p2, k2, 1, id2));
        assert(spec_get(Some(p1), k1, 1, id1) == spec_get_node(p1, k1, 1, id1));
        assert(rest_after(k2, 0) == k2.subrange(1, 16));
        assert(rest_after(k1, 0) == k1.subrange(1, 16));
        if !all_zero(rest_after(k2, 0)) {
            assert(k2.subrange(1, 16int) == rest_after(k2, 0));
            assert(spec_get_node(p2, k2, 1, id2) == spec_get_node(l2, k2.subrange(16, 16), 0, id2));
        }
        if !all_zero(rest_after(k1, 0)) {
            assert(k1.subrange(1, 16int) == rest_after(k1, 0));
            assert(spec_get_node(p1, k1, 1, id1) == spec_get_node(l1, k1.subrange(16, 16), 0, id1));
        }
    } else {
        let en = nibble_at(k1, d);
        let nn = nibble_at(k2, d);
        let sub = empty_slots().update(en as int, Some(l1)).update(nn as int, Some(l2));
        let b = branch_model(sub);
        let prefix = k2.subrange(0, d);
        assert(t2 == ext_model(prefix, b));
        assert(k1.subrange(0, d) =~= prefix);
        let r2 = k2.subrange(d, 16);
        let r1 = k1.subrange(d, 16);
        assert(spec_get_node(t2, k2, 0, id2) == spec_get_node(b, r2, 0, id2));
        assert(spec_get_node(t2, k1, 0, id1) == spec_get_node(b, r1, 0, id1));
        assert(r2[0] == nn);
        assert(r1[0] == en);
        assert(sub[nn as int] == Some(l2));
        assert(sub[en as int] == Some(l1));
        assert(spec_get(Some(l2), r2, 1, id2) == spec_get_node(l2, r2, 1, id2));
        assert(spec_get(Some(l1), r1, 1, id1) == spec_get_node(l1, r1, 1, id1));
    }
}

/// In a trie built by inserting two rows under different ids, deleting the
/// first row makes it unreadable and leaves the second readable.
pub proof fn lemma_delete_first_of_two(id1: i64, row1: Seq<ValueModel>, id2: i64, row2: Seq<ValueModel>)
    requires
        id1 != id2,
    ensures
        ({
            let k1 = spec_encode_row_id(id1);
            let k2 = spec_encode_row_id(id2);
            let t1 = spec_insert(None, k1, 0, id1, row1);
            let t2 = spec_insert(Some(t1), k2, 0, id2, row2);
            let t3 = spec_delete(Some(t2), k1, 0);
            &&& spec_get(t3, k1, 0, id1) is None
            &&& spec_get(t3, k2, 0, id2) == Some(row2)
        }),
{
    let k1 = spec_encode_row_id(id1);
    let k2 = spec_encode_row_id(id2);
    lemma_encode_row_id_nibbles(id1);
    lemma_encode_row_id_nibbles(id2);
    let l1 = leaf_model(id1, row1);
    let l2 = leaf_model(id2, row2);
    let t1 = spec_insert(None, k1, 0, id1, row1);
    assert(t1 == l1);
    let t2 = spec_insert(Some(t1), k2, 0, id2, row2);
    assert(t2 == spec_insert_node(l1, k2, 0, id2, row2));
    let d = diverge(k2, k1, 0);
    lemma_diverge_bounds(k2, k1, 0);
    if d >= 16 {
        assert(k2 =~= k1);
        lemma_encode_row_id_injective(id1, id2);
    }
    assert(d < 16);
    assert(k2[d] != k1[d]);
    let t3 = spec_delete(Some(t2), k1, 0);
    assert(t3 == spec_delete_node(t2, k1, 0));
    if d <= 0 {
        let en = nibble_at(k1, 0);
        let nn = nibble_at(k2, 0);
        let p1 = place(rest_after(k1, 0), l1);
        let p2 = place(rest_after(k2, 0), l2);
        let c2 = empty_slots().update(en as int, Some(p1)).update(nn as int, Some(p2));
        assert(t2 == branch_model(c2));
        assert(c2[nn as int] == Some(p2));
        assert(c2[en as int] == Some(p1));
        assert(rest_after(k1, 0) == k1.subrange(1, 16));
        assert(spec_delete(Some(p1), k1, 1) == spec_delete_node(p1, k1, 1));
        if !all_zero(rest_after(k1, 0)) {
            assert(k1.subrange(1, 16int) == rest_after(k1, 0));
            assert(spec_delete_node(p1, k1, 1) == spec_delete_node(l1, k1, 16));
        } else {
            assert(all_zero(k1.subrange(1, 16)));
        }
        assert(spec_delete(Some(p1), k1, 1) is None);
        let c3 = c2.update(en as int, None);
        assert(!all_empty(c3)) by {
            assert(c3[nn as int] is Some);
        }
        assert(t3 == Some(branch_model(c3)));
        let b3 = branch_model(c3);
        assert(spec_get(t3, k1, 0, id1) == spec_get_node(b3, k1, 0, id1));
        assert(spec_get(t3, k2, 0, id2) == spec_get_node(b3, k2, 0, id2));
        assert(c3[en as int] is None);
        assert(k1[0] == en);
        assert(spec_get_node(b3, k1, 0, id1) == spec_get(c3[en as int], k1, 1, id1));
        assert(c3[nn as int] == Some(p2));
        assert(spec_get(Some(p2), k2, 1, id2) == spec_get_node(p2, k2, 1, id2));
        assert(rest_after(k2, 0) == k2.subrange(1, 16));
        if !all_zero(rest_after(k2, 0)) {
            assert(k2.subrange(1, 16int) == rest_after(k2, 0));
            assert(spec_get_node(p2, k2, 1, id2) == spec_get_node(l2, k2.subrange(16, 16), 0, id2));
        }
    } else {
        let en = nibble_at(k1, d);
        let nn = nibble_at(k2, d);
        let sub = empty_slots().update(en as int, Some(l1)).update(nn as int, Some(l2));
        let b = branch_model(sub);
        let prefix = k2.subrange(0, d);
        assert(t2 == ext_model(prefix, b));
        assert(k1.subrange(0, d) =~= prefix);
        assert(spec_delete_node(t2, k1, 0) == match spec_delete_node(b, k1, d) {
            Some(c) => Some(ext_model(prefix, c)),
            None => None::<NodeModel>,
        });
        assert(sub[en as int] == Some(l1));
        assert(sub[nn as int] == Some(l2));
        let gone = spec_delete(Some(l1), k1, d + 1);
        assert(gone == spec_delete_node(l1, k1, d + 1));
        let c3 = sub.update(en as int, gone);
        assert(!all_empty(c3)) by {
            assert(c3[nn as int] is Some);
        }
        assert(spec_delete_node(b, k1, d) == Some(branch_model(c3)));
        let b3 = branch_model(c3);
        let e3 = ext_model(prefix, b3);
        assert(t3 == Some(e3));
        let r1 = k1.subrange(d, 16);
        let r2 = k2.subrange(d, 16);
        assert(spec_get(t3, k1, 0, id1) == spec_get_node(b3, r1, 0, id1));
        assert(spec_get(t3, k2, 0, id2) == spec_get_node(b3, r2, 0, id2));
        assert(r1[0] == en);
        assert(r2[0] == nn);
        assert(spec_get(c3[en as int], r1, 1, id1) is None) by {
            match gone {
                Some(g) => {
                    assert(spec_get(Some(g), r1, 1, id1) == spec_get_node(g, r1, 1, id1));
                },
                None => {},
            }
        }
        assert(spec_get(Some(l2), r2, 1, id2) == spec_get_node(l2, r2, 1, id2));
    }
}

} // verus!
