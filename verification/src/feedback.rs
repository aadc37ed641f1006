//! Coverage: the blocks and branches that some program has reached. Both
//! sets only ever grow.

use std::collections::HashSet;
use vstd::prelude::*;

verus! {

/// A basic block, by the number that the executor reports it under.
pub type Block = usize;

/// A branch, by the number that the executor reports it under.
pub type Branch = usize;

/// `x` is item `j` of list `i`.
pub open spec fn is_at(lists: Seq<Vec<usize>>, i: int, j: int, x: usize) -> bool {
    0 <= i < lists.len() && 0 <= j < lists[i]@.len() && lists[i]@[j] == x
}

/// What the lists hold before item `j` of list `i`.
pub open spec fn reached_before(lists: Seq<Vec<usize>>, i: int, j: int) -> Set<usize> {
    Set::new(
        |x: usize|
            exists|a: int, b: int| #[trigger] is_at(lists, a, b, x) && (a < i || (a == i && b < j)),
    )
}

/// Everything that the lists hold: what a run reached, call by call.
pub open spec fn reached(lists: Seq<Vec<usize>>) -> Set<usize> {
    Set::new(|x: usize| exists|a: int, b: int| #[trigger] is_at(lists, a, b, x))
}

proof fn lemma_reached_step(lists: Seq<Vec<usize>>, i: int, j: int)
    requires
        0 <= i < lists.len(),
        0 <= j <= lists[i]@.len(),
    ensures
        j < lists[i]@.len() ==> reached_before(lists, i, j + 1) == reached_before(lists, i, j).insert(
            lists[i]@[j],
        ),
        j == lists[i]@.len() ==> reached_before(lists, i + 1, 0) == reached_before(lists, i, j),
        i == 0 && j == 0 ==> reached_before(lists, i, j) == Set::<usize>::empty(),
{
    if j < lists[i]@.len() {
        let x0 = lists[i]@[j];
        let lhs = reached_before(lists, i, j + 1);
        let rhs = reached_before(lists, i, j).insert(x0);
        assert forall|x: usize| lhs.contains(x) == rhs.contains(x) by {
            if lhs.contains(x) {
                let (a, b) = choose|a: int, b: int| #[trigger]
                    is_at(lists, a, b, x) && (a < i || (a == i && b < j + 1));
                if a == i && b == j {
                } else {
                    assert(is_at(lists, a, b, x) && (a < i || (a == i && b < j)));
                }
            }
            if rhs.contains(x) {
                if x == x0 {
                    assert(is_at(lists, i, j, x));
                } else {
                    let (a, b) = choose|a: int, b: int| #[trigger]
                        is_at(lists, a, b, x) && (a < i || (a == i && b < j));
                    assert(is_at(lists, a, b, x) && (a < i || (a == i && b < j + 1)));
                }
            }
        }
        assert(lhs =~= rhs);
    } else {
        let lhs = reached_before(lists, i + 1, 0);
        let rhs = reached_before(lists, i, j);
        assert forall|x: usize| lhs.contains(x) == rhs.contains(x) by {
            if lhs.contains(x) {
                let (a, b) = choose|a: int, b: int| #[trigger]
                    is_at(lists, a, b, x) && (a < i + 1 || (a == i + 1 && b < 0));
                assert(is_at(lists, a, b, x) && (a < i || (a == i && b < j)));
            }
            if rhs.contains(x) {
                let (a, b) = choose|a: int, b: int| #[trigger]
                    is_at(lists, a, b, x) && (a < i || (a == i && b < j));
                assert(is_at(lists, a, b, x) && (a < i + 1 || (a == i + 1 && b < 0)));
            }
        }
        assert(lhs =~= rhs);
    }
    if i == 0 && j == 0 {
        assert(reached_before(lists, i, j) =~= Set::<usize>::empty());
    }
}

proof fn lemma_reached_all(lists: Seq<Vec<usize>>)
    ensures
        reached_before(lists, lists.len() as int, 0) == reached(lists),
        lists.len() == 0 ==> reached(lists) == Set::<usize>::empty(),
{
    let lhs = reached_before(lists, lists.len() as int, 0);
    let rhs = reached(lists);
    assert forall|x: usize| lhs.contains(x) == rhs.contains(x) by {
        if lhs.contains(x) {
            let (a, b) = choose|a: int, b: int| #[trigger]
                is_at(lists, a, b, x) && (a < lists.len() || (a == lists.len() && b < 0));
            assert(is_at(lists, a, b, x));
        }
        if rhs.contains(x) {
            let (a, b) = choose|a: int, b: int| #[trigger] is_at(lists, a, b, x);
            assert(is_at(lists, a, b, x) && (a < lists.len() || (a == lists.len() && b < 0)));
        }
    }
    assert(lhs =~= rhs);
    if lists.len() == 0 {
        assert(rhs =~= Set::<usize>::empty());
    }
}

/// What of `lists` is not in `known`.
pub fn diff(known: &HashSet<usize>, lists: &[Vec<usize>]) -> (new: HashSet<usize>)
    ensures
        new@ == reached(lists@).difference(known@),
        new@.finite(),
{
    let mut new: HashSet<usize> = HashSet::new();
    let mut i: usize = 0;
    proof {
        lemma_reached_all(lists@);
        if lists@.len() > 0 {
            lemma_reached_step(lists@, 0, 0);
        }
        assert(new@ =~= reached_before(lists@, 0, 0).difference(known@));
    }
    while i < lists.len()
        invariant
            0 <= i <= lists@.len(),
            new@ == reached_before(lists@, i as int, 0).difference(known@),
            new@.finite(),
        decreases lists@.len() - i,
    {
        let list = &lists[i];
        let mut j: usize = 0;
        while j < list.len()
            invariant
                0 <= i < lists@.len(),
                *list == lists@[i as int],
                0 <= j <= list@.len(),
                new@ == reached_before(lists@, i as int, j as int).difference(known@),
                new@.finite(),
            decreases list@.len() - j,
        {
            let x = list[j];
            proof {
                lemma_reached_step(lists@, i as int, j as int);
            }
            if !known.contains(&x) {
                new.insert(x);
            }
            j += 1;
            assert(new@ =~= reached_before(lists@, i as int, j as int).difference(known@));
        }
        proof {
            lemma_reached_step(lists@, i as int, j as int);
        }
        i += 1;
    }
    new
}

/// Adds everything that `lists` hold to `known`.
pub fn merge_into(known: &mut HashSet<usize>, lists: &[Vec<usize>])
    ensures
        final(known)@ == old(known)@.union(reached(lists@)),
        old(known)@.finite() ==> final(known)@.finite(),
{
    let mut i: usize = 0;
    proof {
        lemma_reached_all(lists@);
        if lists@.len() > 0 {
            lemma_reached_step(lists@, 0, 0);
        }
        assert(known@ =~= old(known)@.union(reached_before(lists@, 0, 0)));
    }
    while i < lists.len()
        invariant
            0 <= i <= lists@.len(),
            known@ == old(known)@.union(reached_before(lists@, i as int, 0)),
            old(known)@.finite() ==> known@.finite(),
        decreases lists@.len() - i,
    {
        let list = &lists[i];
        let mut j: usize = 0;
        while j < list.len()
            invariant
                0 <= i < lists@.len(),
                *list == lists@[i as int],
                0 <= j <= list@.len(),
                known@ == old(known)@.union(reached_before(lists@, i as int, j as int)),
                old(known)@.finite() ==> known@.finite(),
            decreases list@.len() - j,
        {
            proof {
                lemma_reached_step(lists@, i as int, j as int);
            }
            known.insert(list[j]);
            j += 1;
            assert(known@ =~= old(known)@.union(reached_before(lists@, i as int, j as int)));
        }
        proof {
            lemma_reached_step(lists@, i as int, j as int);
        }
        i += 1;
    }
}

/// The coverage of all programs run so far.
pub struct FeedBack {
    pub branches: HashSet<Branch>,
    pub blocks: HashSet<Block>,
}

impl FeedBack {
    /// Both sets are finite, so that their sizes mean something.
    pub open spec fn wf(&self) -> bool {
        self.branches@.finite() && self.blocks@.finite()
    }

    pub fn new() -> (f: Self)
        ensures
            f.wf(),
            f.branches@ == Set::<Branch>::empty(),
            f.blocks@ == Set::<Block>::empty(),
    {
        Self { branches: HashSet::new(), blocks: HashSet::new() }
    }

    /// The blocks among `blocks` that no program reached before.
    pub fn diff_block(&self, blocks: &[Vec<Block>]) -> (new: HashSet<Block>)
        ensures
            new@ == reached(blocks@).difference(self.blocks@),
            new@.finite(),
    {
        diff(&self.blocks, blocks)
    }

    /// The branches among `branches` that no program took before.
    pub fn diff_branch(&self, branches: &[Vec<Branch>]) -> (new: HashSet<Branch>)
        ensures
            new@ == reached(branches@).difference(self.branches@),
            new@.finite(),
    {
        diff(&self.branches, branches)
    }

    /// Takes in what a run reached.
    pub fn merge(&mut self, blocks: &[Vec<Block>], branches: &[Vec<Branch>])
        ensures
            final(self).blocks@ == old(self).blocks@.union(reached(blocks@)),
            final(self).branches@ == old(self).branches@.union(reached(branches@)),
            old(self).wf() ==> final(self).wf(),
    {
        merge_into(&mut self.blocks, blocks);
        merge_into(&mut self.branches, branches);
    }

    pub fn block_len(&self) -> (n: usize)
        ensures
            n == self.blocks@.len(),
    {
        self.blocks.len()
    }

    pub fn branch_len(&self) -> (n: usize)
        ensures
            n == self.branches@.len(),
    {
        self.branches.len()
    }
}

/// Taking in a run removes nothing, and taking in two runs gives the same
/// coverage in either order, and the same as taking in one of them twice
/// beside the other.
pub proof fn lemma_merge_grows(known: Set<usize>, first: Set<usize>, second: Set<usize>)
    ensures
        known.subset_of(known.union(first)),
        first.subset_of(known.union(first)),
        known.union(first).union(second) == known.union(second).union(first),
        known.union(first).union(first) == known.union(first),
        known.union(first.difference(known)) == known.union(first),
{
    assert(known.union(first).union(second) =~= known.union(second).union(first));
    assert(known.union(first).union(first) =~= known.union(first));
    assert(known.union(first.difference(known)) =~= known.union(first));
}

} // verus!
