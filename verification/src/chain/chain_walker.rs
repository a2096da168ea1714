//! Walkers: the traversal strategies over a chain.
//!
//! A walker promises its whole walk as a plan — the heights and blocks it
//! hands to its visitor, in order — so that any visitor's final state is a
//! fold of its step function over that plan.  The only search in scope
//! finds the deepest leaf: a depth-first descent over the children of each
//! block in insertion order, keeping the first deepest leaf it meets.

use vstd::prelude::*;

verus! {

use crate::chain::block::BlockView;
use crate::chain::chain::Chain;
use crate::chain::chain::ChainView;
use crate::chain::chain_visitor::ChainVisitor;

/// A visitor's state after a walk that hands it `plan`, in order.
pub open spec fn fold_plan<F: ChainVisitor>(v: F::V, plan: Seq<(int, BlockView)>) -> F::V
    decreases plan.len(),
{
    if plan.len() == 0 {
        v
    } else {
        fold_plan::<F>(F::stepped(v, plan[0].0, plan[0].1), plan.subrange(1, plan.len() as int))
    }
}

/// The visitor is ready for every invocation of the walk.
pub open spec fn plan_ready<F: ChainVisitor>(v: F::V, plan: Seq<(int, BlockView)>) -> bool
    decreases plan.len(),
{
    if plan.len() == 0 {
        true
    } else {
        F::ready(v, plan[0].0, plan[0].1) && plan_ready::<F>(
            F::stepped(v, plan[0].0, plan[0].1),
            plan.subrange(1, plan.len() as int),
        )
    }
}

/// A traversal strategy: it fixes which blocks a walk visits, at which
/// heights, in which order.
pub trait ChainWalker: Sized {
    /// The heights and blocks the walk hands to its visitor, in order.
    spec fn visit_plan(c: ChainView) -> Seq<(int, BlockView)>;

    /// Walk the chain, invoking the visitor as the plan says.
    fn walk_chain<F: ChainVisitor>(&self, chain: &Chain, visitor: &mut F)
        requires
            chain@.wf(),
            plan_ready::<F>(old(visitor)@, Self::visit_plan(chain@)),
        ensures
            final(visitor)@ == fold_plan::<F>(old(visitor)@, Self::visit_plan(chain@)),
    ;
}

/// The deepest leaf below block `i`, scanning the children of `i` whose
/// position lies in `j..`: the running best, bettered by each strictly
/// deeper subtree, children in insertion order.
pub open spec fn deep_scan(c: ChainView, level: int, i: int, j: int, best: (int, int)) -> (
    int,
    int,
)
    decreases c.len() - i, c.len() - j,
    when c.wf() && 0 <= i < c.len() && i < j
{
    if j >= c.len() {
        best
    } else {
        let b2 = if c.parent_index[j] == i {
            let r = deep_best(c, level + 1, j);
            if r.0 > best.0 {
                r
            } else {
                best
            }
        } else {
            best
        };
        deep_scan(c, level, i, j + 1, b2)
    }
}

/// The height and position of the deepest block in the subtree of block
/// `i`, standing itself at height `level`; among equally deep blocks, the
/// first one met depth-first.
pub open spec fn deep_best(c: ChainView, level: int, i: int) -> (int, int)
    decreases c.len() - i, c.len() - i,
    when c.wf() && 0 <= i < c.len()
{
    deep_scan(c, level, i, i + 1, (level, i))
}

/// The height and position of the heaviest block: the deepest leaf of the
/// whole tree, first in depth-first order among equally deep ones.
pub open spec fn heaviest(c: ChainView) -> (int, int) {
    deep_best(c, 0, 0)
}

/// The height of the heaviest block; the height of the chain.
pub open spec fn current_height(c: ChainView) -> int {
    heaviest(c).0
}

/// Block `i` lies on the parent path of block `k` (or is `k` itself).
pub open spec fn desc(c: ChainView, i: int, k: int) -> bool
    decreases k,
    when c.wf() && 0 <= i < c.len() && 0 <= k < c.len()
{
    if k == i {
        true
    } else if k <= i {
        false
    } else {
        desc(c, i, c.parent_index[k])
    }
}

/// The child of `i` through which the parent path of `k` passes.
pub open spec fn step_child(c: ChainView, i: int, k: int) -> int
    decreases k,
    when c.wf() && 0 <= i < c.len() && 0 <= k < c.len()
{
    if k <= i {
        i
    } else if c.parent_index[k] == i {
        k
    } else {
        step_child(c, i, c.parent_index[k])
    }
}

/// A block stands no deeper than its position: heights are bounded by the
/// store's length.
pub proof fn lemma_height_le_index(c: ChainView, i: int)
    requires
        c.wf(),
        0 <= i < c.len(),
    ensures
        0 <= c.height_of(i) <= i,
    decreases i,
{
    if i > 0 {
        lemma_height_le_index(c, c.parent_index[i]);
    }
}

/// Everything descends from the genesis block.
pub proof fn lemma_desc_all(c: ChainView, k: int)
    requires
        c.wf(),
        0 <= k < c.len(),
    ensures
        desc(c, 0, k),
    decreases k,
{
    if k > 0 {
        lemma_desc_all(c, c.parent_index[k]);
    }
}

/// Descent is transitive.
pub proof fn lemma_desc_trans(c: ChainView, i: int, j: int, k: int)
    requires
        c.wf(),
        0 <= i < c.len(),
        0 <= j < c.len(),
        0 <= k < c.len(),
        desc(c, i, j),
        desc(c, j, k),
    ensures
        desc(c, i, k),
    decreases k,
{
    if k != j {
        lemma_desc_trans(c, i, j, c.parent_index[k]);
    }
}

/// A descendant stands at least as deep as its ancestor.
pub proof fn lemma_desc_height(c: ChainView, i: int, k: int)
    requires
        c.wf(),
        0 <= i < c.len(),
        0 <= k < c.len(),
        desc(c, i, k),
    ensures
        c.height_of(i) <= c.height_of(k),
    decreases k,
{
    if k != i {
        lemma_desc_height(c, i, c.parent_index[k]);
    }
}

/// The parent path of a proper descendant of `i` passes through exactly
/// one child of `i`.
pub proof fn lemma_step_child(c: ChainView, i: int, k: int)
    requires
        c.wf(),
        0 <= i < c.len(),
        0 <= k < c.len(),
        desc(c, i, k),
        k != i,
    ensures
        ({
            let c0 = step_child(c, i, k);
            &&& i < c0 <= k
            &&& c.parent_index[c0] == i
            &&& desc(c, c0, k)
        }),
    decreases k,
{
    let c0 = step_child(c, i, k);
    if c.parent_index[k] == i {
        assert(c0 == k);
    } else {
        let p = c.parent_index[k];
        assert(desc(c, i, p));
        assert(p != i);
        lemma_step_child(c, i, p);
        assert(desc(c, c0, p));
        assert(desc(c, c0, k));
    }
}

/// What the depth-first search returns, scanned from `j` on with a running
/// best: a realizable height no lower than the best, at least as deep as
/// every descendant of `i`.
proof fn lemma_deep_scan(c: ChainView, level: int, i: int, j: int, best: (int, int))
    requires
        c.wf(),
        0 <= i < c.len(),
        i < j <= c.len(),
        level == c.height_of(i),
        0 <= best.1 < c.len(),
        desc(c, i, best.1),
        best.0 == c.height_of(best.1),
        best.0 >= level,
        forall|k: int|
            0 <= k < c.len() && desc(c, i, k) && k != i && step_child(c, i, k) < j
                ==> c.height_of(k) <= best.0,
    ensures
        ({
            let r = deep_scan(c, level, i, j, best);
            &&& 0 <= r.1 < c.len()
            &&& desc(c, i, r.1)
            &&& r.0 == c.height_of(r.1)
            &&& r.0 >= best.0
            &&& forall|k: int|
                0 <= k < c.len() && desc(c, i, k) ==> c.height_of(k) <= r.0
        }),
    decreases c.len() - i, c.len() - j,
{
    if j >= c.len() {
        assert forall|k: int|
            0 <= k < c.len() && desc(c, i, k) implies c.height_of(k) <= best.0 by {
            if k != i {
                lemma_step_child(c, i, k);
            }
        }
    } else {
        if c.parent_index[j] == i {
            assert(desc(c, i, i));
            assert(desc(c, i, j));
            assert(c.height_of(j) == level + 1);
            lemma_deep_best(c, level + 1, j);
            let r = deep_best(c, level + 1, j);
            let b2 = if r.0 > best.0 {
                r
            } else {
                best
            };
            lemma_desc_trans(c, i, j, r.1);
            assert forall|k: int|
                0 <= k < c.len() && desc(c, i, k) && k != i && step_child(c, i, k) < j + 1
                implies c.height_of(k) <= b2.0 by {
                lemma_step_child(c, i, k);
                let c0 = step_child(c, i, k);
                if c0 < j {
                } else {
                    assert(c0 == j);
                    assert(desc(c, j, k));
                    assert(c.height_of(k) <= r.0);
                }
            }
            lemma_deep_scan(c, level, i, j + 1, b2);
        } else {
            assert forall|k: int|
                0 <= k < c.len() && desc(c, i, k) && k != i && step_child(c, i, k) < j + 1
                implies c.height_of(k) <= best.0 by {
                lemma_step_child(c, i, k);
                let c0 = step_child(c, i, k);
                if c0 == j {
                    assert(c.parent_index[j] == i);
                }
            }
            lemma_deep_scan(c, level, i, j + 1, best);
        }
    }
}

/// What the depth-first search returns for the subtree of `i`: the height
/// of a block of that subtree, and no descendant of `i` stands deeper.
pub proof fn lemma_deep_best(c: ChainView, level: int, i: int)
    requires
        c.wf(),
        0 <= i < c.len(),
        level == c.height_of(i),
    ensures
        ({
            let r = deep_best(c, level, i);
            &&& 0 <= r.1 < c.len()
            &&& desc(c, i, r.1)
            &&& r.0 == c.height_of(r.1)
            &&& r.0 >= level
            &&& forall|k: int|
                0 <= k < c.len() && desc(c, i, k) ==> c.height_of(k) <= r.0
        }),
    decreases c.len() - i, c.len() - i,
{
    assert forall|k: int|
        0 <= k < c.len() && desc(c, i, k) && k != i && step_child(c, i, k) < i + 1
        implies c.height_of(k) <= level by {
        lemma_step_child(c, i, k);
    }
    lemma_deep_scan(c, level, i, i + 1, (level, i));
}

/// The heaviest block realizes the maximal height: no stored block stands
/// deeper, the returned height is the returned block's height, and the
/// returned block is a leaf.
pub proof fn lemma_heaviest_is_max(c: ChainView)
    requires
        c.wf(),
    ensures
        0 <= heaviest(c).1 < c.len(),
        heaviest(c).0 == c.height_of(heaviest(c).1),
        heaviest(c).0 >= 0,
        forall|k: int| 0 <= k < c.len() ==> c.height_of(k) <= heaviest(c).0,
        c.children_of_index(heaviest(c).1).len() == 0,
{
    lemma_deep_best(c, 0, 0);
    assert forall|k: int| 0 <= k < c.len() implies c.height_of(k) <= heaviest(c).0 by {
        lemma_desc_all(c, k);
    }
    let hv = heaviest(c);
    crate::chain::chain::lemma_children_upto(c, hv.1, c.len());
    if c.children_of_index(hv.1).len() > 0 {
        let j = c.children_of_index(hv.1)[0];
        assert(1 <= j < c.len() && c.parent_index[j] == hv.1);
        assert(c.height_of(j) == 1 + c.height_of(hv.1));
    }
}

/// The depth-first search itself: the deepest block in the subtree of
/// block `i`, which stands at height `level`; ties go to the first leaf
/// met, children taken in insertion order.
fn traverse_level(chain: &Chain, level: usize, i: usize) -> (r: (usize, usize))
    requires
        chain@.wf(),
        i < chain@.len(),
        level as int == chain@.height_of(i as int),
    ensures
        (r.0 as int, r.1 as int) == deep_best(chain@, level as int, i as int),
        r.1 < chain@.len(),
        r.0 as int == chain@.height_of(r.1 as int),
    decreases chain@.len() - i,
{
    proof {
        assert(chain@.blocks.len() == chain.blocks@.len());
        assert(chain@.parent_index.len() == chain.parent_index@.len());
        lemma_deep_best(chain@, level as int, i as int);
    }
    let mut best_h: usize = level;
    let mut best_i: usize = i;
    let n = chain.blocks.len();
    proof {
        assert(i < n);
    }
    let mut j: usize = i + 1;
    while j < chain.blocks.len()
        invariant
            chain@.wf(),
            i < chain@.len(),
            i < j <= chain@.len(),
            chain.blocks@.len() == chain@.len(),
            chain.parent_index@.len() == chain@.len(),
            level as int == chain@.height_of(i as int),
            best_i < chain@.len(),
            best_h as int == chain@.height_of(best_i as int),
            deep_scan(
                chain@,
                level as int,
                i as int,
                j as int,
                (best_h as int, best_i as int),
            ) == deep_best(chain@, level as int, i as int),
        decreases chain@.len() - j,
    {
        let ghost pre_best = (best_h as int, best_i as int);
        if chain.parent_index[j] == i {
            proof {
                assert(chain@.parent_index[j as int] == i as int);
                assert(chain@.height_of(j as int) == level + 1);
                lemma_height_le_index(chain@, j as int);
            }
            let r = traverse_level(chain, level + 1, j);
            if r.0 > best_h {
                best_h = r.0;
                best_i = r.1;
            }
            proof {
                assert(deep_scan(chain@, level as int, i as int, j as int, pre_best) == deep_scan(
                    chain@,
                    level as int,
                    i as int,
                    j + 1 as int,
                    (best_h as int, best_i as int),
                ));
            }
        } else {
            proof {
                assert(chain@.parent_index[j as int] != i as int);
                assert(deep_scan(chain@, level as int, i as int, j as int, pre_best) == deep_scan(
                    chain@,
                    level as int,
                    i as int,
                    j + 1 as int,
                    pre_best,
                ));
            }
        }
        j = j + 1;
    }
    (best_h, best_i)
}

/// The walker that hands its visitor the heaviest block, once.
pub struct HeaviestBlockWalker {}

impl HeaviestBlockWalker {
    pub fn new() -> (w: HeaviestBlockWalker) {
        HeaviestBlockWalker {  }
    }
}

impl ChainWalker for HeaviestBlockWalker {
    /// One visit: the heaviest block at its height.
    open spec fn visit_plan(c: ChainView) -> Seq<(int, BlockView)> {
        seq![(heaviest(c).0, c.blocks[heaviest(c).1])]
    }

    fn walk_chain<F: ChainVisitor>(&self, chain: &Chain, visitor: &mut F) {
        proof {
            assert(chain@.blocks.len() == chain.blocks@.len());
            assert(chain@.height_of(0) == 0);
            lemma_heaviest_is_max(chain@);
        }
        let (h, idx) = traverse_level(chain, 0, 0);
        let ghost plan = Self::visit_plan(chain@);
        let ghost v0 = old(visitor)@;
        proof {
            assert(chain@.blocks[idx as int] == chain.blocks@[idx as int]@);
            assert(plan.len() == 1);
            assert(plan[0] == (heaviest(chain@).0, chain@.blocks[heaviest(chain@).1]));
            assert(F::ready(v0, plan[0].0, plan[0].1));
        }
        visitor.visit_block(h, &chain.blocks[idx]);
        proof {
            assert(visitor@ == F::stepped(v0, plan[0].0, plan[0].1));
            assert(plan.subrange(1, 1) =~= Seq::<(int, BlockView)>::empty());
            assert(fold_plan::<F>(
                F::stepped(v0, plan[0].0, plan[0].1),
                Seq::<(int, BlockView)>::empty(),
            ) == F::stepped(v0, plan[0].0, plan[0].1));
            assert(fold_plan::<F>(v0, plan) == F::stepped(v0, plan[0].0, plan[0].1));
        }
    }
}

/// The path from block `i` up to (excluding) the genesis block.
pub open spec fn path_from(c: ChainView, i: int) -> Seq<int>
    decreases i,
    when c.wf() && 0 <= i < c.len()
{
    if i <= 0 {
        Seq::empty()
    } else {
        seq![i] + path_from(c, c.parent_index[i])
    }
}

/// The visits along the path from block `i` up to the genesis block: each
/// block at its height, leaf first.
pub open spec fn plan_of(c: ChainView, i: int) -> Seq<(int, BlockView)> {
    path_from(c, i).map_values(|j: int| (c.height_of(j), c.blocks[j]))
}

/// The walker that finds the deepest leaf and then hands its visitor every
/// block on the path from that leaf up to — excluding — the genesis block.
pub struct LongestPathWalker {}

impl LongestPathWalker {
    pub fn new() -> (w: LongestPathWalker) {
        LongestPathWalker {  }
    }
}

impl ChainWalker for LongestPathWalker {
    /// The heaviest branch, bottom up, without the genesis block.
    open spec fn visit_plan(c: ChainView) -> Seq<(int, BlockView)> {
        plan_of(c, heaviest(c).1)
    }

    fn walk_chain<F: ChainVisitor>(&self, chain: &Chain, visitor: &mut F) {
        proof {
            assert(chain@.blocks.len() == chain.blocks@.len());
            assert(chain@.parent_index.len() == chain.parent_index@.len());
            assert(chain@.height_of(0) == 0);
            lemma_heaviest_is_max(chain@);
        }
        let (h, leaf) = traverse_level(chain, 0, 0);
        let mut cur: usize = leaf;
        let mut ch: usize = h;
        let ghost c = chain@;
        let ghost start = visitor@;
        while cur != 0
            invariant
                c == chain@,
                c.wf(),
                chain.blocks@.len() == c.len(),
                chain.parent_index@.len() == c.len(),
                cur < c.len(),
                ch as int == c.height_of(cur as int),
                plan_ready::<F>(visitor@, plan_of(c, cur as int)),
                fold_plan::<F>(start, LongestPathWalker::visit_plan(c)) == fold_plan::<F>(
                    visitor@,
                    plan_of(c, cur as int),
                ),
            decreases cur,
        {
            let ghost plan = plan_of(c, cur as int);
            let ghost rest = plan_of(c, c.parent_index[cur as int]);
            proof {
                assert(path_from(c, cur as int) == seq![cur as int] + path_from(
                    c,
                    c.parent_index[cur as int],
                ));
                assert(plan[0] == (c.height_of(cur as int), c.blocks[cur as int]));
                assert(plan.subrange(1, plan.len() as int) =~= rest);
                assert(c.blocks[cur as int] == chain.blocks@[cur as int]@);
                assert(F::ready(visitor@, ch as int, chain.blocks@[cur as int]@));
            }
            let ghost pre = visitor@;
            visitor.visit_block(ch, &chain.blocks[cur]);
            proof {
                assert(fold_plan::<F>(pre, plan) == fold_plan::<F>(visitor@, rest));
                assert(plan_ready::<F>(visitor@, rest));
            }
            let parent = chain.parent_index[cur];
            proof {
                assert(c.parent_index[cur as int] == parent as int);
                assert(c.height_of(cur as int) == 1 + c.height_of(parent as int));
                lemma_height_le_index(c, parent as int);
            }
            cur = parent;
            ch = ch - 1;
        }
        proof {
            assert(path_from(c, 0) == Seq::<int>::empty());
            assert(plan_of(c, 0) =~= Seq::<(int, BlockView)>::empty());
            assert(fold_plan::<F>(visitor@, plan_of(c, 0)) == visitor@);
        }
    }
}

} // verus!
