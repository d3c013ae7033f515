//! The Merkle tree of commitments as a function of its leaves, and the rows
//! of new nodes that a batch appended at the next free leaf produces.
use crate::fields::{u256_nat, U256};
use crate::poseidon::poseidon_hash;
use vstd::prelude::*;

verus! {

/// Height of the commitment tree: the root is at level `MT_HEIGHT`, leaves at level 0.
pub const MT_HEIGHT: u32 = 20;

/// Number of leaves of the commitment tree (`2^MT_HEIGHT`).
pub const MT_COMMITMENT_COUNT: usize = 1048576;

/// `poseidon(poseidon(0, 0), 0)`: the value of an unused leaf.
pub const ZERO_COMMITMENT: U256 = [
    106, 77, 49, 231, 137, 82, 142, 103, 122, 195, 234, 157, 189, 191, 2, 42, 174, 41, 59, 182, 21,
    225, 230, 119, 13, 86, 164, 94, 87, 82, 83, 23,
];

/// Root of an empty subtree of the given height.
pub open spec fn empty_node(level: nat) -> nat
    decreases level,
{
    if level == 0 {
        u256_nat(ZERO_COMMITMENT)
    } else {
        let e = empty_node((level - 1) as nat);
        poseidon_hash(e, e)
    }
}

/// Node `index` at `level` of the tree whose leaves are `leaves`, followed by
/// unused leaves.
pub open spec fn tree_node(leaves: Seq<nat>, index: nat, level: nat) -> nat
    decreases level,
{
    if level == 0 {
        if index < leaves.len() {
            leaves[index as int]
        } else {
            empty_node(0)
        }
    } else {
        poseidon_hash(
            tree_node(leaves, 2 * index, (level - 1) as nat),
            tree_node(leaves, 2 * index + 1, (level - 1) as nat),
        )
    }
}

/// `x` halved `k` times (rounding down): the ancestor index of leaf `x` at level `k`.
pub open spec fn halve(x: nat, k: nat) -> nat
    decreases k,
{
    if k == 0 {
        x
    } else {
        halve(x, (k - 1) as nat) / 2
    }
}

/// The other child of the parent of `index`.
pub open spec fn sibling_index(index: nat) -> nat {
    if index % 2 == 0 {
        index + 1
    } else {
        (index - 1) as nat
    }
}

/// The sibling path of leaf `leaf`: at each level below the root, the
/// sibling of its ancestor.
pub open spec fn opening(leaves: Seq<nat>, leaf: nat) -> Seq<nat> {
    Seq::new(
        MT_HEIGHT as nat,
        |level: int| tree_node(leaves, sibling_index(halve(leaf, level as nat)), level as nat),
    )
}

/// A child at `level` while computing the new row above: from the new row at
/// that level (`row`, starting at index `lo`), else the recorded sibling
/// (left of the row), else an unused subtree (right of the row).
pub open spec fn child_value(row: Seq<nat>, lo: nat, sib: nat, level: nat, c: nat) -> nat {
    if c < lo {
        sib
    } else if c - lo < row.len() {
        row[c - lo]
    } else {
        empty_node(level)
    }
}

/// The new nodes at `level` after `batch` is appended at leaf `o`, given the
/// sibling path `sib` of leaf `o`: indices `halve(o, level)` to
/// `halve(o + |batch| - 1, level)`.
pub open spec fn level_values(batch: Seq<nat>, o: nat, sib: Seq<nat>, level: nat) -> Seq<nat>
    decreases level,
{
    if level == 0 {
        batch
    } else {
        let prev = level_values(batch, o, sib, (level - 1) as nat);
        let plo = halve(o, (level - 1) as nat);
        let lo = halve(o, level);
        let hi = halve((o + batch.len() - 1) as nat, level);
        Seq::new(
            (hi - lo + 1) as nat,
            |i: int|
                poseidon_hash(
                    child_value(prev, plo, sib[level - 1], (level - 1) as nat, 2 * (lo + i) as nat),
                    child_value(
                        prev,
                        plo,
                        sib[level - 1],
                        (level - 1) as nat,
                        (2 * (lo + i) + 1) as nat,
                    ),
                ),
        )
    }
}

/// Node `index` at `level` once the rows of `level_values` are written over
/// the tree of `leaves`.
pub open spec fn spliced_node(
    leaves: Seq<nat>,
    batch: Seq<nat>,
    sib: Seq<nat>,
    index: nat,
    level: nat,
) -> nat {
    let o = leaves.len();
    let lo = halve(o, level);
    let hi = halve((o + batch.len() - 1) as nat, level);
    if lo <= index <= hi {
        level_values(batch, o, sib, level)[index - lo]
    } else {
        tree_node(leaves, index, level)
    }
}

pub proof fn lemma_halve_mono(a: nat, b: nat, k: nat)
    requires
        a <= b,
    ensures
        halve(a, k) <= halve(b, k),
    decreases k,
{
    if k > 0 {
        lemma_halve_mono(a, b, (k - 1) as nat);
    }
}

pub proof fn lemma_halve_le(x: nat, k: nat)
    ensures
        halve(x, k) <= x,
    decreases k,
{
    if k > 0 {
        lemma_halve_le(x, (k - 1) as nat);
    }
}

pub proof fn lemma_level_values_len(batch: Seq<nat>, o: nat, sib: Seq<nat>, level: nat)
    requires
        batch.len() >= 1,
    ensures
        level_values(batch, o, sib, level).len() == halve((o + batch.len() - 1) as nat, level)
            - halve(o, level) + 1,
        halve(o, level) <= halve((o + batch.len() - 1) as nat, level),
{
    lemma_halve_mono(o, (o + batch.len() - 1) as nat, level);
}

/// Nodes left of the insertion point do not depend on the appended leaves.
pub proof fn lemma_left_stable(old: Seq<nat>, new: Seq<nat>, c: nat, level: nat)
    requires
        old.len() <= new.len(),
        forall|i: int| 0 <= i < old.len() ==> old[i] == new[i],
        c < halve(old.len(), level),
    ensures
        tree_node(new, c, level) == tree_node(old, c, level),
    decreases level,
{
    if level > 0 {
        lemma_left_stable(old, new, 2 * c, (level - 1) as nat);
        lemma_left_stable(old, new, 2 * c + 1, (level - 1) as nat);
    }
}

/// A tree without leaves is empty at every node.
pub proof fn lemma_empty_tree(c: nat, level: nat)
    ensures
        tree_node(Seq::<nat>::empty(), c, level) == empty_node(level),
    decreases level,
{
    if level > 0 {
        lemma_empty_tree(2 * c, (level - 1) as nat);
        lemma_empty_tree(2 * c + 1, (level - 1) as nat);
    }
}

/// Nodes right of the last used leaf are roots of empty subtrees.
pub proof fn lemma_right_empty(leaves: Seq<nat>, t: nat, c: nat, level: nat)
    requires
        t >= 1,
        leaves.len() <= t,
        c > halve((t - 1) as nat, level),
    ensures
        tree_node(leaves, c, level) == empty_node(level),
    decreases level,
{
    if level > 0 {
        lemma_right_empty(leaves, t, 2 * c, (level - 1) as nat);
        lemma_right_empty(leaves, t, 2 * c + 1, (level - 1) as nat);
    }
}

/// The rows of `level_values` are the nodes of the tree of the old leaves
/// followed by the batch.
pub proof fn lemma_level_values(
    leaves: Seq<nat>,
    batch: Seq<nat>,
    sib: Seq<nat>,
    level: nat,
    i: nat,
)
    requires
        batch.len() >= 1,
        level <= MT_HEIGHT,
        sib == opening(leaves, leaves.len()),
        i < level_values(batch, leaves.len(), sib, level).len(),
    ensures
        level_values(batch, leaves.len(), sib, level)[i as int] == tree_node(
            leaves + batch,
            halve(leaves.len(), level) + i,
            level,
        ),
    decreases level,
{
    let o = leaves.len();
    let new = leaves + batch;
    if level == 0 {
        assert(new[(o + i) as int] == batch[i as int]);
    } else {
        let l1 = (level - 1) as nat;
        let prev = level_values(batch, o, sib, l1);
        let plo = halve(o, l1);
        let phi = halve((o + batch.len() - 1) as nat, l1);
        let j = halve(o, level) + i;
        lemma_level_values_len(batch, o, sib, l1);
        assert forall|c: nat| c == 2 * j || c == 2 * j + 1 implies child_value(
            prev,
            plo,
            sib[l1 as int],
            l1,
            c,
        ) == tree_node(new, c, l1) by {
            if c < plo {
                assert(c + 1 == plo && plo % 2 == 1);
                assert(sibling_index(plo) == c);
                lemma_left_stable(leaves, new, c, l1);
            } else if c - plo < prev.len() {
                lemma_level_values(leaves, batch, sib, l1, (c - plo) as nat);
            } else {
                lemma_right_empty(new, o + batch.len(), c, l1);
            }
        }
        assert(child_value(prev, plo, sib[l1 as int], l1, 2 * j) == tree_node(new, 2 * j, l1));
        assert(child_value(prev, plo, sib[l1 as int], l1, 2 * j + 1) == tree_node(
            new,
            2 * j + 1,
            l1,
        ));
    }
}

/// Writing the rows of a batch over the tree of `leaves` gives the tree of
/// `leaves + batch`: every node, written or not, equals the node computed
/// from the leaves, so each new node is the hash of its two children.
pub proof fn lemma_batch_insertion(
    leaves: Seq<nat>,
    batch: Seq<nat>,
    sib: Seq<nat>,
    index: nat,
    level: nat,
)
    requires
        batch.len() >= 1,
        level <= MT_HEIGHT,
        sib == opening(leaves, leaves.len()),
    ensures
        spliced_node(leaves, batch, sib, index, level) == tree_node(leaves + batch, index, level),
        level >= 1 ==> spliced_node(leaves, batch, sib, index, level) == poseidon_hash(
            spliced_node(leaves, batch, sib, 2 * index, (level - 1) as nat),
            spliced_node(leaves, batch, sib, 2 * index + 1, (level - 1) as nat),
        ),
{
    let o = leaves.len();
    let new = leaves + batch;
    assert forall|c: nat, l: nat| l <= MT_HEIGHT implies #[trigger] spliced_node(
        leaves,
        batch,
        sib,
        c,
        l,
    ) == tree_node(new, c, l) by {
        let lo = halve(o, l);
        let hi = halve((o + batch.len() - 1) as nat, l);
        lemma_level_values_len(batch, o, sib, l);
        if lo <= c <= hi {
            lemma_level_values(leaves, batch, sib, l, (c - lo) as nat);
        } else if c < lo {
            lemma_left_stable(leaves, new, c, l);
        } else {
            lemma_right_empty(new, o + batch.len(), c, l);
            if o >= 1 {
                lemma_halve_mono((o - 1) as nat, (o + batch.len() - 1) as nat, l);
                lemma_right_empty(leaves, o, c, l);
            } else {
                lemma_halve_mono(0, (o + batch.len() - 1) as nat, l);
                lemma_right_empty(leaves, 1, c, l);
            }
        }
    }
    if level >= 1 {
        assert(spliced_node(leaves, batch, sib, 2 * index, (level - 1) as nat) == tree_node(
            new,
            2 * index,
            (level - 1) as nat,
        ));
        assert(spliced_node(leaves, batch, sib, 2 * index + 1, (level - 1) as nat) == tree_node(
            new,
            2 * index + 1,
            (level - 1) as nat,
        ));
    }
    assert(spliced_node(leaves, batch, sib, index, level) == tree_node(new, index, level));
}

} // verus!
