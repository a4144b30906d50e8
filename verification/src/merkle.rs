//! A Merkle tree over field values whose combining function is field
//! addition. Addition binds nothing and hides nothing: the tree lays out
//! leaves, sibling paths and a root for circuits to be built from, and is
//! no commitment.

use vstd::prelude::*;
use vstd::arithmetic::div_mod::lemma_add_mod_noop;
use num_bigint::BigInt;
use crate::bigint::{big_clone, big_value, big_values, big_zero};
use crate::error::Error;
use crate::field::{field_add, FieldElement, Modulus};

verus! {

/// The parent of a left and a right node.
pub open spec fn combine(left: int, right: int, m: int) -> int {
    field_add(left, right, m)
}

/// The position of the node that `index` is combined with in a level of
/// `len` nodes: its neighbour in the pair, or itself for a last node
/// without one.
pub open spec fn sibling_of(index: int, len: int) -> int {
    if index % 2 == 1 {
        index - 1
    } else if index + 1 < len {
        index + 1
    } else {
        index
    }
}

/// The level above `level`: one parent for every pair of nodes.
pub open spec fn parent_level(level: Seq<int>, m: int) -> Seq<int> {
    Seq::new(
        ((level.len() + 1) / 2) as nat,
        |i: int| combine(level[2 * i], level[sibling_of(2 * i, level.len() as int)], m),
    )
}

/// The root over `level`: the single node that is left when levels are
/// combined again and again. The root over nothing is zero.
pub open spec fn root_of(level: Seq<int>, m: int) -> int
    decreases level.len(),
{
    if level.len() == 0 {
        0
    } else if level.len() == 1 {
        level[0]
    } else {
        root_of(parent_level(level, m), m)
    }
}

/// The path from the node at `index` of `level` to the root: on each level
/// the sibling, and whether it stands to the left.
pub open spec fn path_of(level: Seq<int>, index: int, m: int) -> Seq<(int, bool)>
    decreases level.len(),
{
    if level.len() <= 1 {
        Seq::empty()
    } else {
        seq![(level[sibling_of(index, level.len() as int)], index % 2 == 1)] + path_of(
            parent_level(level, m),
            index / 2,
            m,
        )
    }
}

/// The node that a path leads to from `node`: each step combines with the
/// sibling, on the side that the step names.
pub open spec fn climb(node: int, path: Seq<(int, bool)>, m: int) -> int
    decreases path.len(),
{
    if path.len() == 0 {
        node
    } else {
        let parent = if path[0].1 {
            combine(path[0].0, node, m)
        } else {
            combine(node, path[0].0, m)
        };
        climb(parent, path.drop_first(), m)
    }
}

/// The integers and sides of a path.
pub open spec fn path_values(path: Seq<(BigInt, bool)>) -> Seq<(int, bool)> {
    path.map_values(|step: (BigInt, bool)| (big_value(step.0), step.1))
}

/// The path of a leaf leads to the root.
pub proof fn law_path_leads_to_root(level: Seq<int>, index: int, m: int)
    requires
        0 <= index < level.len(),
    ensures
        climb(level[index], path_of(level, index, m), m) == root_of(level, m),
    decreases level.len(),
{
    if level.len() > 1 {
        let above = parent_level(level, m);
        let path = path_of(level, index, m);
        let rest = path_of(above, index / 2, m);
        assert(path.drop_first() =~= rest);
        assert(path[0] == (level[sibling_of(index, level.len() as int)], index % 2 == 1));
        law_path_leads_to_root(above, index / 2, m);
    }
}

/// A path that has not begun is the whole path.
proof fn lemma_path_extends(done: Seq<(int, bool)>, rest: Seq<(int, bool)>)
    requires
        done.len() == 0,
    ensures
        done + rest == rest,
{
    assert(done + rest =~= rest);
}

/// One step of a path: what is still to come from a level of two or more
/// nodes is the step on that level and what is to come from the level
/// above.
proof fn lemma_path_steps(done: Seq<(int, bool)>, level: Seq<int>, index: int, m: int)
    requires
        level.len() >= 2,
    ensures
        done + path_of(level, index, m) == done.push(
            (level[sibling_of(index, level.len() as int)], index % 2 == 1),
        ) + path_of(parent_level(level, m), index / 2, m),
{
    let step = (level[sibling_of(index, level.len() as int)], index % 2 == 1);
    let rest = path_of(parent_level(level, m), index / 2, m);
    assert(path_of(level, index, m) == seq![step] + rest);
    assert(done + (seq![step] + rest) =~= done.push(step) + rest);
}

/// From a level of one node or none, nothing is to come.
proof fn lemma_path_ends(done: Seq<(int, bool)>, level: Seq<int>, index: int, m: int)
    requires
        level.len() <= 1,
    ensures
        done + path_of(level, index, m) == done,
{
    assert(done + path_of(level, index, m) =~= done);
}

/// What a tree holds, as plain values.
pub struct MerkleView {
    pub leaves: Seq<int>,
    pub modulus: int,
}

/// A tree: its levels from the leaves up, of which the last holds the root.
pub struct MerkleTree {
    levels: Vec<Vec<BigInt>>,
    modulus: Modulus,
    root: BigInt,
}

impl View for MerkleTree {
    type V = MerkleView;

    closed spec fn view(&self) -> MerkleView {
        MerkleView { leaves: big_values(self.levels@[0]@), modulus: self.modulus@ }
    }
}

/// The level above `below`.
fn parents(below: &Vec<BigInt>, modulus: &Modulus) -> (above: Vec<BigInt>)
    ensures
        big_values(above@) == parent_level(big_values(below@), modulus@),
{
    proof {
        use_type_invariant(modulus);
    }
    let ghost level = big_values(below@);
    let ghost m = modulus@;
    let n = below.len();
    let count = n / 2 + n % 2;
    let mut above: Vec<BigInt> = Vec::new();
    let mut k: usize = 0;
    while k < count
        invariant
            k <= count,
            count == (n + 1) / 2,
            n == below@.len(),
            level == big_values(below@),
            m == modulus@,
            m > 0,
            above@.len() == k,
            forall|j: int|
                0 <= j < k ==> big_value(#[trigger] above@[j]) == parent_level(level, m)[j],
        decreases count - k,
    {
        let i = 2 * k;
        let j = if i + 1 < n {
            i + 1
        } else {
            i
        };
        let left = FieldElement::new(big_clone(&below[i]), modulus);
        let right = FieldElement::new(big_clone(&below[j]), modulus);
        let parent = left.add(&right, modulus).get_value();
        proof {
            lemma_add_mod_noop(level[i as int], level[j as int], m);
            assert(j == sibling_of(i as int, n as int));
        }
        above.push(parent);
        k += 1;
    }
    assert(big_values(above@) =~= parent_level(level, m));
    above
}

impl MerkleTree {
    #[verifier::type_invariant]
    closed spec fn wf(&self) -> bool {
        &&& self.levels@.len() >= 1
        &&& forall|d: int|
            0 <= d < self.levels@.len() - 1 ==> (#[trigger] self.levels@[d])@.len() >= 2
                && big_values(self.levels@[d + 1]@) == parent_level(
                big_values(self.levels@[d]@),
                self.modulus@,
            )
        &&& self.levels@[self.levels@.len() - 1]@.len() <= 1
        &&& big_value(self.root) == root_of(big_values(self.levels@[0]@), self.modulus@)
    }

    /// Builds the tree over `leaves` in the field of `modulus`.
    pub fn new(leaves: Vec<BigInt>, modulus: Modulus) -> (tree: MerkleTree)
        ensures
            tree@.leaves == big_values(leaves@),
            tree@.modulus == modulus@,
    {
        let ghost bottom = big_values(leaves@);
        let ghost m = modulus@;
        let mut levels: Vec<Vec<BigInt>> = Vec::new();
        levels.push(leaves);
        while levels[levels.len() - 1].len() > 1
            invariant
                levels@.len() >= 1,
                big_values(levels@[0]@) == bottom,
                m == modulus@,
                forall|d: int|
                    0 <= d < levels@.len() - 1 ==> (#[trigger] levels@[d])@.len() >= 2
                        && big_values(levels@[d + 1]@) == parent_level(big_values(levels@[d]@), m),
                root_of(big_values(levels@[levels@.len() - 1]@), m) == root_of(bottom, m),
            decreases levels@[levels@.len() - 1]@.len(),
        {
            let ghost before = levels@;
            let above = parents(&levels[levels.len() - 1], &modulus);
            levels.push(above);
            proof {
                let top = before.len() - 1;
                assert(levels@[top] == before[top]);
                assert forall|d: int| 0 <= d < levels@.len() - 1 implies (#[trigger] levels@[d])@.len()
                    >= 2 && big_values(levels@[d + 1]@) == parent_level(
                    big_values(levels@[d]@),
                    m,
                ) by {
                    if d < top {
                        assert(levels@[d] == before[d]);
                        assert(levels@[d + 1] == before[d + 1]);
                    }
                }
            }
        }
        let last = &levels[levels.len() - 1];
        let root = if last.len() == 1 {
            big_clone(&last[0])
        } else {
            big_zero()
        };
        MerkleTree { levels, modulus, root }
    }

    /// The root of the tree.
    pub fn root(&self) -> (r: BigInt)
        ensures
            big_value(r) == root_of(self@.leaves, self@.modulus),
    {
        proof {
            use_type_invariant(self);
        }
        big_clone(&self.root)
    }

    /// The number of leaves.
    pub fn leaf_count(&self) -> (n: usize)
        ensures
            n == self@.leaves.len(),
    {
        proof {
            use_type_invariant(self);
        }
        self.levels[0].len()
    }

    /// The path from the leaf at `index` to the root: on each level the
    /// sibling, and whether it stands to the left of the node. A position
    /// without a leaf is an error.
    pub fn merkle_path(&self, index: usize) -> (r: Result<Vec<(BigInt, bool)>, Error>)
        ensures
            match r {
                Ok(path) => index < self@.leaves.len() && path_values(path@) == path_of(
                    self@.leaves,
                    index as int,
                    self@.modulus,
                ),
                Err(e) => index >= self@.leaves.len() && e == Error::InvalidIndex,
            },
    {
        proof {
            use_type_invariant(self);
        }
        if index >= self.levels[0].len() {
            return Err(Error::InvalidIndex);
        }
        let ghost m = self.modulus@;
        let ghost whole = path_of(self@.leaves, index as int, m);
        let mut path: Vec<(BigInt, bool)> = Vec::new();
        let mut position = index;
        let mut depth: usize = 0;
        proof {
            assert(path_values(path@) =~= Seq::<(int, bool)>::empty());
            lemma_path_extends(path_values(path@), whole);
        }
        while depth < self.levels.len() - 1
            invariant
                m == self.modulus@,
                depth < self.levels@.len(),
                forall|d: int|
                    0 <= d < self.levels@.len() - 1 ==> (#[trigger] self.levels@[d])@.len() >= 2
                        && big_values(self.levels@[d + 1]@) == parent_level(
                        big_values(self.levels@[d]@),
                        m,
                    ),
                self.levels@[self.levels@.len() - 1]@.len() <= 1,
                position < self.levels@[depth as int]@.len(),
                whole == path_values(path@) + path_of(
                    big_values(self.levels@[depth as int]@),
                    position as int,
                    m,
                ),
            decreases self.levels@.len() - depth,
        {
            let level = &self.levels[depth];
            let is_left = position % 2 == 1;
            let sibling = if is_left {
                position - 1
            } else if position + 1 < level.len() {
                position + 1
            } else {
                position
            };
            let ghost before = path_values(path@);
            let ghost here = big_values(level@);
            path.push((big_clone(&level[sibling]), is_left));
            proof {
                let step = (here[sibling as int], is_left);
                assert(self.levels@[depth as int]@.len() >= 2);
                assert(sibling == sibling_of(position as int, here.len() as int));
                assert(path_values(path@) =~= before.push(step));
                lemma_path_steps(before, here, position as int, m);
            }
            position = position / 2;
            depth += 1;
        }
        proof {
            lemma_path_ends(
                path_values(path@),
                big_values(self.levels@[depth as int]@),
                position as int,
                m,
            );
        }
        Ok(path)
    }

    /// Combines a left and a right node into their parent.
    pub fn apply_hash(&self, left: &FieldElement, right: &FieldElement) -> (parent: FieldElement)
        ensures
            parent@ == combine(left@, right@, self@.modulus),
            parent.is_canonical(self@.modulus),
    {
        left.add(right, &self.modulus)
    }
}

} // verus!
