//! The persisted commitment tree: nodes by `(index, level)` and the next free leaf.
use crate::fields::{u256_nat, U256};
use crate::merkle::{
    empty_node, halve, lemma_empty_tree, sibling_index, tree_node, MT_COMMITMENT_COUNT,
    MT_HEIGHT, ZERO_COMMITMENT,
};
use crate::poseidon::{hash_two, load_parameters};
use vstd::prelude::*;

verus! {

/// Node value at `index` of a level stored as the prefix `row`: nodes past
/// the prefix were never written and are roots of empty subtrees.
pub open spec fn row_node(row: Seq<U256>, index: nat, level: nat) -> nat {
    if index < row.len() {
        u256_nat(row[index as int])
    } else {
        empty_node(level)
    }
}

/// The roots of empty subtrees of heights `0` to `MT_HEIGHT`.
pub fn empty_tree() -> (r: Vec<U256>)
    ensures
        r@.len() == MT_HEIGHT + 1,
        forall|l: int| 0 <= l <= MT_HEIGHT ==> u256_nat(#[trigger] r@[l]) == empty_node(l as nat),
{
    let p = load_parameters();
    let mut empty: Vec<U256> = Vec::new();
    let mut e = ZERO_COMMITMENT;
    let mut l: usize = 0;
    while l <= MT_HEIGHT as usize
        invariant
            p.wf(),
            l <= MT_HEIGHT + 1,
            empty@.len() == l,
            u256_nat(e) == empty_node(l as nat),
            forall|k: int| 0 <= k < l ==> u256_nat(#[trigger] empty@[k]) == empty_node(k as nat),
        decreases MT_HEIGHT + 1 - l,
    {
        empty.push(e);
        e = hash_two(&p, &e, &e);
        l = l + 1;
    }
    empty
}

/// The commitment tree. Each level is kept as the prefix of nodes written so far.
pub struct StorageAccount {
    levels: Vec<Vec<U256>>,
    empty: Vec<U256>,
    next_commitment_ptr: u32,
}

impl StorageAccount {
    pub closed spec fn wf(&self) -> bool {
        &&& self.levels@.len() == MT_HEIGHT + 1
        &&& self.empty@.len() == MT_HEIGHT + 1
        &&& forall|l: int|
            0 <= l <= MT_HEIGHT ==> u256_nat(#[trigger] self.empty@[l]) == empty_node(l as nat)
        &&& self.next_commitment_ptr <= MT_COMMITMENT_COUNT
    }

    /// Node `index` at `level` (leaves at level 0).
    pub closed spec fn node(&self, index: nat, level: nat) -> nat {
        row_node(self.levels@[level as int]@, index, level)
    }

    /// Index of the next free leaf.
    pub closed spec fn next_ptr(&self) -> nat {
        self.next_commitment_ptr as nat
    }

    /// The stored tree is the tree of `leaves`, and the next free leaf follows them.
    pub open spec fn holds(&self, leaves: Seq<nat>) -> bool {
        &&& self.next_ptr() == leaves.len()
        &&& forall|index: nat, level: nat|
            level <= MT_HEIGHT ==> #[trigger] self.node(index, level) == tree_node(
                leaves,
                index,
                level,
            )
    }

    /// An empty tree.
    pub fn new() -> (r: StorageAccount)
        ensures
            r.wf(),
            r.holds(Seq::empty()),
    {
        let empty = empty_tree();
        let mut levels: Vec<Vec<U256>> = Vec::new();
        let mut l: usize = 0;
        while l <= MT_HEIGHT as usize
            invariant
                l <= MT_HEIGHT + 1,
                levels@.len() == l,
                forall|k: int| 0 <= k < l ==> (#[trigger] levels@[k])@.len() == 0,
            decreases MT_HEIGHT + 1 - l,
        {
            levels.push(Vec::new());
            l = l + 1;
        }
        let r = StorageAccount { levels, empty, next_commitment_ptr: 0 };
        assert forall|index: nat, level: nat| level <= MT_HEIGHT implies #[trigger] r.node(
            index,
            level,
        ) == tree_node(Seq::empty(), index, level) by {
            lemma_empty_tree(index, level);
        }
        r
    }

    pub fn get_next_commitment_ptr(&self) -> (r: u32)
        requires
            self.wf(),
        ensures
            r == self.next_ptr(),
            r <= MT_COMMITMENT_COUNT,
    {
        self.next_commitment_ptr
    }

    /// Moves the next free leaf forward; the nodes stay as they are.
    pub fn set_next_commitment_ptr(&mut self, ptr: u32)
        requires
            old(self).wf(),
            old(self).next_ptr() <= ptr <= MT_COMMITMENT_COUNT,
        ensures
            final(self).wf(),
            final(self).next_ptr() == ptr,
            forall|index: nat, level: nat| #[trigger]
                final(self).node(index, level) == old(self).node(index, level),
    {
        self.next_commitment_ptr = ptr;
    }

    /// Node `index` at `level`.
    pub fn get_node(&self, index: usize, level: usize) -> (r: U256)
        requires
            self.wf(),
            level <= MT_HEIGHT,
        ensures
            u256_nat(r) == self.node(index as nat, level as nat),
    {
        let row = &self.levels[level];
        if index < row.len() {
            row[index]
        } else {
            self.empty[level]
        }
    }

    /// The sibling path of leaf `leaf`, from the leaf level up to below the root.
    pub fn get_mt_opening(&self, leaf: u32) -> (r: Vec<U256>)
        requires
            self.wf(),
        ensures
            r@.len() == MT_HEIGHT,
            forall|l: int|
                0 <= l < MT_HEIGHT ==> u256_nat(#[trigger] r@[l]) == self.node(
                    sibling_index(halve(leaf as nat, l as nat)),
                    l as nat,
                ),
    {
        let mut r: Vec<U256> = Vec::new();
        let mut index: u32 = leaf;
        let mut l: usize = 0;
        while l < MT_HEIGHT as usize
            invariant
                self.wf(),
                l <= MT_HEIGHT,
                r@.len() == l,
                index == halve(leaf as nat, l as nat),
                forall|k: int|
                    0 <= k < l ==> u256_nat(#[trigger] r@[k]) == self.node(
                        sibling_index(halve(leaf as nat, k as nat)),
                        k as nat,
                    ),
            decreases MT_HEIGHT - l,
        {
            let s = if index % 2 == 0 {
                index as usize + 1
            } else {
                index as usize - 1
            };
            r.push(self.get_node(s, l));
            index = index / 2;
            l = l + 1;
        }
        r
    }

    /// The roots of empty subtrees, by height.
    pub fn empty_nodes(&self) -> (r: Vec<U256>)
        requires
            self.wf(),
        ensures
            r@.len() == MT_HEIGHT + 1,
            forall|l: int| 0 <= l <= MT_HEIGHT ==> u256_nat(#[trigger] r@[l]) == empty_node(l as nat),
    {
        let mut r: Vec<U256> = Vec::new();
        let mut l: usize = 0;
        while l <= MT_HEIGHT as usize
            invariant
                self.wf(),
                l <= MT_HEIGHT + 1,
                r@.len() == l,
                forall|k: int| 0 <= k < l ==> u256_nat(#[trigger] r@[k]) == empty_node(k as nat),
            decreases MT_HEIGHT + 1 - l,
        {
            r.push(self.empty[l]);
            l = l + 1;
        }
        r
    }

    /// Writes `values` at `level`, starting at index `lo`.
    pub(crate) fn write_row(&mut self, level: usize, lo: usize, values: &Vec<U256>)
        requires
            old(self).wf(),
            level <= MT_HEIGHT,
            lo + values@.len() <= usize::MAX,
        ensures
            final(self).wf(),
            final(self).next_ptr() == old(self).next_ptr(),
            forall|index: nat, l: nat|
                l <= MT_HEIGHT ==> #[trigger] final(self).node(index, l) == if l == level && lo
                    <= index < lo + values@.len() {
                    u256_nat(values@[index - lo])
                } else {
                    old(self).node(index, l)
                },
    {
        let ghost before = *self;
        let e = self.empty[level];
        let mut row: Vec<U256> = Vec::new();
        std::mem::swap(&mut row, &mut self.levels[level]);
        let ghost orig = row@;
        assert(orig == before.levels@[level as int]@);
        while row.len() < lo
            invariant
                u256_nat(e) == empty_node(level as nat),
                forall|index: nat| #[trigger]
                    row_node(row@, index, level as nat) == row_node(orig, index, level as nat),
            decreases lo - row@.len(),
        {
            let ghost prev = row@;
            row.push(e);
            assert forall|index: nat| #[trigger]
                row_node(row@, index, level as nat) == row_node(orig, index, level as nat) by {
                assert(row_node(row@, index, level as nat) == row_node(prev, index, level as nat));
            }
        }
        let mut k: usize = 0;
        while k < values.len()
            invariant
                lo + values@.len() <= usize::MAX,
                k <= values@.len(),
                row@.len() >= lo + k,
                forall|index: nat| #[trigger]
                    row_node(row@, index, level as nat) == if lo <= index < lo + k {
                        u256_nat(values@[index - lo])
                    } else {
                        row_node(orig, index, level as nat)
                    },
            decreases values@.len() - k,
        {
            let ghost prev = row@;
            if lo + k < row.len() {
                row.set(lo + k, values[k]);
            } else {
                row.push(values[k]);
            }
            assert forall|index: nat| #[trigger]
                row_node(row@, index, level as nat) == if lo <= index < lo + k + 1 {
                    u256_nat(values@[index - lo])
                } else {
                    row_node(orig, index, level as nat)
                } by {
                if index != lo + k {
                    assert(row_node(row@, index, level as nat) == row_node(prev, index, level as nat));
                }
            }
            k = k + 1;
        }
        self.levels.set(level, row);
        assert forall|index: nat, l: nat| l <= MT_HEIGHT implies #[trigger] self.node(index, l)
            == if l == level && lo <= index < lo + values@.len() {
                u256_nat(values@[index - lo])
            } else {
                before.node(index, l)
            } by {
            if l == level {
                assert(row_node(orig, index, l) == before.node(index, l));
            } else {
                assert(self.levels@[l as int] == before.levels@[l as int]);
            }
        }
    }
}

} // verus!
