//! The chain: a content-addressed tree of blocks rooted at the genesis
//! block.
//!
//! Blocks are stored in insertion order, each with the index of its parent;
//! a parent always precedes its children, so the store is a topological
//! order of the tree.  The parent-to-children adjacency of the tree is the
//! derived view `adjacency`: the children of a block are the later blocks
//! that name it as parent, in insertion order.

use vstd::prelude::*;

verus! {

use crate::chain::block::Block;
use crate::chain::block::BlockView;
use crate::chain::chain_visitor::ChainVisitor;
use crate::chain::chain_visitor::HeaviestBlockVisitor;
use crate::chain::chain_walker::current_height;
use crate::chain::chain_walker::fold_plan;
use crate::chain::chain_walker::heaviest;
use crate::chain::chain_walker::lemma_heaviest_is_max;
use crate::chain::chain_walker::plan_ready;
use crate::chain::chain_walker::ChainWalker;
use crate::chain::chain_walker::HeaviestBlockWalker;
use crate::chain::transaction::Transaction;

/// The block tree of one node.
#[derive(Debug, PartialEq, Eq)]
pub struct Chain {
    /// The hash of the genesis configuration; it distinguishes networks.
    pub genesis_configuration_hash: String,
    /// The identifier of the genesis block.
    pub genesis_identifier_hash: String,
    /// All known blocks, in insertion order; the genesis block is first.
    pub blocks: Vec<Block>,
    /// For each stored block, the position of its parent block; a parent
    /// always stands before its children.  The genesis block points at
    /// itself.
    pub parent_index: Vec<usize>,
}

#[verifier::ext_equal]
pub struct ChainView {
    pub genesis_configuration_hash: Seq<char>,
    pub genesis_identifier_hash: Seq<char>,
    pub blocks: Seq<BlockView>,
    pub parent_index: Seq<int>,
}

impl View for Chain {
    type V = ChainView;

    open spec fn view(&self) -> ChainView {
        ChainView {
            genesis_configuration_hash: self.genesis_configuration_hash@,
            genesis_identifier_hash: self.genesis_identifier_hash@,
            blocks: self.blocks.deep_view(),
            parent_index: self.parent_index@.map_values(|x: usize| x as int),
        }
    }
}

impl ChainView {
    pub open spec fn len(self) -> int {
        self.blocks.len() as int
    }

    /// The invariant of every reachable chain: one genesis block with the
    /// empty parent marker, every other block resolving its parent to an
    /// earlier block, and no two blocks sharing an identifier.
    pub open spec fn wf(self) -> bool {
        &&& self.blocks.len() >= 1
        &&& self.parent_index.len() == self.blocks.len()
        &&& self.genesis_identifier_hash == self.blocks[0].identifier
        &&& self.blocks[0].data.parent == Seq::<char>::empty()
        &&& self.parent_index[0] == 0
        &&& forall|i: int|
            0 <= i < self.len() ==> (#[trigger] self.blocks[i]).identifier.len() > 0
        &&& forall|i: int| 1 <= i < self.len() ==> 0 <= #[trigger] self.parent_index[i] < i
        &&& forall|i: int|
            1 <= i < self.len() ==> (#[trigger] self.blocks[i]).data.parent
                == self.blocks[self.parent_index[i]].identifier
        &&& forall|i: int, j: int|
            0 <= i < j < self.len() ==> (#[trigger] self.blocks[i]).identifier != (
            #[trigger] self.blocks[j]).identifier
    }

    /// A block with this identifier is stored.
    pub open spec fn has_block_id(self, id: Seq<char>) -> bool {
        exists|i: int| 0 <= i < self.len() && (#[trigger] self.blocks[i]).identifier == id
    }

    /// The position of the block with this identifier.
    pub open spec fn index_of(self, id: Seq<char>) -> int {
        choose|i: int| 0 <= i < self.len() && (#[trigger] self.blocks[i]).identifier == id
    }

    /// The parent identifier of the stored block with this identifier.
    pub open spec fn parent_of(self, id: Seq<char>) -> Seq<char> {
        self.blocks[self.index_of(id)].data.parent
    }

    /// The set of stored block identifiers.
    pub open spec fn block_id_set(self) -> Set<Seq<char>> {
        Set::new(|id: Seq<char>| self.has_block_id(id))
    }

    /// The number of edges between the genesis block and block `i`.
    pub open spec fn height_of(self, i: int) -> int
        decreases i,
        when self.wf() && 0 <= i < self.len()
    {
        if i <= 0 {
            0
        } else {
            1 + self.height_of(self.parent_index[i])
        }
    }

    /// The children of block `i` among the first `bound` blocks, in
    /// insertion order.
    pub open spec fn children_upto(self, i: int, bound: int) -> Seq<int>
        decreases bound,
    {
        if bound <= 1 {
            Seq::empty()
        } else {
            let s = self.children_upto(i, bound - 1);
            if self.parent_index[bound - 1] == i {
                s.push(bound - 1)
            } else {
                s
            }
        }
    }

    /// The children of block `i`, in insertion order.
    pub open spec fn children_of_index(self, i: int) -> Seq<int> {
        self.children_upto(i, self.len())
    }

    /// The identifiers of the children of block `i`, in insertion order.
    pub open spec fn child_ids(self, i: int) -> Seq<Seq<char>> {
        self.children_of_index(i).map_values(|j: int| self.blocks[j].identifier)
    }

    /// The parent-to-children adjacency of the tree: for each stored
    /// identifier, the identifiers of its children in insertion order.
    pub open spec fn adjacency(self) -> Map<Seq<char>, Seq<Seq<char>>> {
        Map::new(
            |id: Seq<char>| self.has_block_id(id),
            |id: Seq<char>| self.child_ids(self.index_of(id)),
        )
    }

    /// The block with this identifier is recorded as a child of the
    /// block's own parent: exactly the test `add_block` makes before it
    /// refuses a reinsertion.
    pub open spec fn contains_child(self, b: BlockView) -> bool {
        self.has_block_id(b.identifier) && self.parent_of(b.identifier) == b.data.parent
    }
}

/// What the store looks up: the unique position of a stored identifier.
pub proof fn lemma_index_of(c: ChainView, id: Seq<char>)
    requires
        c.wf(),
        c.has_block_id(id),
    ensures
        0 <= c.index_of(id) < c.len(),
        c.blocks[c.index_of(id)].identifier == id,
        forall|j: int| 0 <= j < c.len() && (#[trigger] c.blocks[j]).identifier == id ==> j
            == c.index_of(id),
{
    let i = c.index_of(id);
    assert(0 <= i < c.len() && c.blocks[i].identifier == id);
    assert forall|j: int|
        0 <= j < c.len() && (#[trigger] c.blocks[j]).identifier == id implies j == i by {
        if j < i {
            assert(c.blocks[j].identifier != c.blocks[i].identifier);
        } else if i < j {
            assert(c.blocks[i].identifier != c.blocks[j].identifier);
        }
    }
}

/// What one append does to a chain: nothing when the block is already
/// recorded under its parent, else the block joins the end of the store.
pub open spec fn spec_add_block(c: ChainView, b: BlockView) -> (ChainView, bool) {
    if c.contains_child(b) {
        (c, false)
    } else {
        (
            ChainView {
                blocks: c.blocks.push(b),
                parent_index: c.parent_index.push(c.index_of(b.data.parent)),
                ..c
            },
            true,
        )
    }
}

/// The inputs on which `add_block` is defined: the parent is stored, the
/// identifier is not the genesis-parent marker, and an already-stored
/// identifier sits under the same parent (anything else is a corrupted
/// store and fatal).
pub open spec fn add_block_ok(c: ChainView, b: BlockView) -> bool {
    &&& c.wf()
    &&& c.has_block_id(b.data.parent)
    &&& b.identifier.len() > 0
    &&& c.has_block_id(b.identifier) ==> c.parent_of(b.identifier) == b.data.parent
}

/// Appending keeps the chain invariant.
pub proof fn lemma_spec_add_block_wf(c: ChainView, b: BlockView)
    requires
        add_block_ok(c, b),
    ensures
        spec_add_block(c, b).0.wf(),
        spec_add_block(c, b).0.len() >= c.len(),
{
    lemma_index_of(c, b.data.parent);
    if !c.contains_child(b) {
        let c2 = spec_add_block(c, b).0;
        let n = c.len();
        assert(!c.has_block_id(b.identifier)) by {
            if c.has_block_id(b.identifier) {
                assert(c.parent_of(b.identifier) == b.data.parent);
            }
        }
        assert forall|i: int| 0 <= i < c2.len() implies (
        #[trigger] c2.blocks[i]).identifier.len() > 0 by {
            if i < n {
                assert(c2.blocks[i] == c.blocks[i]);
            }
        }
        assert forall|i: int| 1 <= i < c2.len() implies 0 <= #[trigger] c2.parent_index[i]
            < i by {
            if i < n {
                assert(c2.parent_index[i] == c.parent_index[i]);
            }
        }
        assert forall|i: int| 1 <= i < c2.len() implies (#[trigger] c2.blocks[i]).data.parent
            == c2.blocks[c2.parent_index[i]].identifier by {
            if i < n {
                assert(c2.blocks[i] == c.blocks[i]);
                assert(c2.parent_index[i] == c.parent_index[i]);
            } else {
                assert(c2.blocks[i] == b);
            }
        }
        assert forall|i: int, j: int|
            0 <= i < j < c2.len() implies (#[trigger] c2.blocks[i]).identifier != (
        #[trigger] c2.blocks[j]).identifier by {
            if j < n {
                assert(c2.blocks[i] == c.blocks[i]);
                assert(c2.blocks[j] == c.blocks[j]);
            } else {
                assert(c2.blocks[j] == b);
                assert(c2.blocks[i] == c.blocks[i]);
                if c.blocks[i].identifier == b.identifier {
                    assert(c.has_block_id(b.identifier));
                }
            }
        }
    }
}

/// A second append of the same block changes nothing: `add_block` is
/// idempotent.
pub proof fn lemma_add_block_idempotent(c: ChainView, b: BlockView)
    requires
        add_block_ok(c, b),
    ensures
        spec_add_block(spec_add_block(c, b).0, b) == (spec_add_block(c, b).0, false),
{
    let (c1, added) = spec_add_block(c, b);
    lemma_spec_add_block_wf(c, b);
    lemma_index_of(c, b.data.parent);
    if added {
        let n = c.len();
        assert(c1.blocks[n] == b);
        assert(c1.has_block_id(b.identifier));
        lemma_index_of(c1, b.identifier);
        assert(c1.index_of(b.identifier) == n);
        assert(c1.parent_of(b.identifier) == b.data.parent);
        assert(c1.contains_child(b));
    } else {
        assert(c1.contains_child(b));
    }
}

/// The children recorded for a block are later blocks that name it as
/// parent — each exactly once, in increasing order of position.
pub proof fn lemma_children_upto(c: ChainView, i: int, bound: int)
    requires
        bound <= c.len(),
    ensures
        forall|k: int|
            0 <= k < c.children_upto(i, bound).len() ==> {
                let j = #[trigger] c.children_upto(i, bound)[k];
                1 <= j < bound && c.parent_index[j] == i
            },
        forall|k1: int, k2: int|
            0 <= k1 < k2 < c.children_upto(i, bound).len() ==> #[trigger] c.children_upto(
                i,
                bound,
            )[k1] < #[trigger] c.children_upto(i, bound)[k2],
        forall|j: int|
            1 <= j < bound && c.parent_index[j] == i ==> c.children_upto(i, bound).contains(j),
    decreases bound,
{
    if bound > 1 {
        lemma_children_upto(c, i, bound - 1);
        let s = c.children_upto(i, bound - 1);
        let s2 = c.children_upto(i, bound);
        assert forall|j: int|
            1 <= j < bound && c.parent_index[j] == i implies s2.contains(j) by {
            if j < bound - 1 {
                assert(s.contains(j));
                let k = choose|k: int| 0 <= k < s.len() && s[k] == j;
                if c.parent_index[bound - 1] == i {
                    assert(s2[k] == j);
                } else {
                    assert(s2[k] == j);
                }
            } else {
                assert(c.parent_index[bound - 1] == i);
                assert(s2[s2.len() - 1] == j);
            }
        }
    }
}

impl Chain {
    /// Create a chain holding only the genesis block, which seals no
    /// transactions and carries the empty parent marker.  Its timestamp is
    /// zero so that every node of a network derives the same genesis
    /// identifier from the same configuration.
    pub fn new(genesis_hash: String) -> (c: Chain)
        ensures
            c@.wf(),
            c@.blocks.len() == 1,
            c@.genesis_configuration_hash == genesis_hash@,
            c@.blocks[0].data.transactions == Seq::<crate::chain::transaction::TransactionView>::empty(),
            c@.blocks[0].data.timestamp == 0,
            c@.blocks[0].identifier_valid(),
    {
        let trxs: Vec<Transaction> = Vec::new();
        let genesis_block: Block = Block::new(String::new(), trxs, 0);
        let genesis_id = genesis_block.identifier.clone();
        let mut blocks: Vec<Block> = Vec::new();
        blocks.push(genesis_block);
        let mut parent_index: Vec<usize> = Vec::new();
        parent_index.push(0);
        let c = Chain {
            genesis_configuration_hash: genesis_hash,
            genesis_identifier_hash: genesis_id,
            blocks,
            parent_index,
        };
        proof {
            assert(c@.blocks.len() == 1);
            assert(c@.parent_index =~= seq![0int]);
            assert(c@.blocks[0].data.parent =~= Seq::<char>::empty());
        }
        c
    }

    /// The position of the block with this identifier, if it is stored.
    pub fn find_block_index(&self, id: &String) -> (r: Option<usize>)
        ensures
            match r {
                Option::Some(i) => 0 <= i < self@.len() && self@.blocks[i as int].identifier
                    == id@ && self@.has_block_id(id@),
                Option::None => !self@.has_block_id(id@),
            },
    {
        let mut i: usize = 0;
        while i < self.blocks.len()
            invariant
                i <= self.blocks@.len(),
                self@.blocks.len() == self.blocks@.len(),
                forall|j: int| 0 <= j < i ==> (#[trigger] self@.blocks[j]).identifier != id@,
            decreases self.blocks@.len() - i,
        {
            assert(self@.blocks[i as int] == self.blocks@[i as int]@);
            if self.blocks[i].identifier.eq(id) {
                return Some(i);
            }
            i = i + 1;
        }
        None
    }

    /// Whether the parent of the given block is stored.  `add_block`
    /// demands it, so callers check here first.
    pub fn has_parent_of_block(&self, block: &Block) -> (r: bool)
        ensures
            r == self@.has_block_id(block@.data.parent),
    {
        self.find_block_index(&block.data.parent).is_some()
    }

    /// The block with this identifier, if it is stored.
    pub fn get_block(&self, id: &String) -> (r: Option<&Block>)
        requires
            self@.wf(),
        ensures
            match r {
                Option::Some(b) => self@.has_block_id(id@) && b@ == self@.blocks[self@.index_of(
                    id@,
                )] && b@.identifier == id@,
                Option::None => !self@.has_block_id(id@),
            },
    {
        match self.find_block_index(id) {
            Some(i) => {
                proof {
                    lemma_index_of(self@, id@);
                    assert(i as int == self@.index_of(id@));
                }
                Some(&self.blocks[i])
            },
            None => None,
        }
    }

    /// Append the block as a child of its stored parent.  Returns `false`
    /// and changes nothing when the block is already recorded under that
    /// parent; returns `true` and stores it otherwise.
    pub fn add_block(&mut self, block: Block) -> (added: bool)
        requires
            add_block_ok(old(self)@, block@),
        ensures
            final(self)@ == spec_add_block(old(self)@, block@).0,
            added == spec_add_block(old(self)@, block@).1,
            final(self)@.wf(),
            added == !old(self)@.contains_child(block@),
    {
        proof {
            lemma_spec_add_block_wf(old(self)@, block@);
            lemma_index_of(old(self)@, block@.data.parent);
        }
        let parent_idx = match self.find_block_index(&block.data.parent) {
            Some(i) => i,
            None => {
                proof {
                    assert(false);
                }
                0
            },
        };
        proof {
            lemma_index_of(self@, block@.data.parent);
            assert(parent_idx as int == self@.index_of(block@.data.parent));
        }
        match self.find_block_index(&block.identifier) {
            Some(_) => {
                proof {
                    assert(self@.contains_child(block@));
                }
                false
            },
            None => {
                proof {
                    assert(!self@.contains_child(block@));
                }
                let ghost before = self@;
                self.parent_index.push(parent_idx);
                self.blocks.push(block);
                proof {
                    assert(self@.blocks =~= before.blocks.push(block@));
                    assert(self@.parent_index =~= before.parent_index.push(
                        before.index_of(block@.data.parent),
                    ));
                    assert(self@ =~= spec_add_block(before, block@).0);
                }
                true
            },
        }
    }

    /// The height and the block of the heaviest (deepest) leaf, found by
    /// depth-first search; ties go to the first leaf encountered.  This is
    /// the single source of truth for the current block and the current
    /// height.  `lemma_heaviest_is_max` states that no stored block stands
    /// deeper than the returned height.
    pub fn get_current_block(&self) -> (r: (usize, Block))
        requires
            self@.wf(),
        ensures
            r.0 as int == current_height(self@),
            r.1@ == self@.blocks[heaviest(self@).1],
            r.0 as int == self@.height_of(heaviest(self@).1),
    {
        proof {
            lemma_heaviest_is_max(self@);
        }
        let mut heaviest_block_visitor = HeaviestBlockVisitor::new();
        let longest_path_walker = HeaviestBlockWalker::new();
        let ghost plan = <HeaviestBlockWalker as ChainWalker>::visit_plan(self@);
        let ghost v0 = heaviest_block_visitor@;
        let ghost stepped1 = <HeaviestBlockVisitor as ChainVisitor>::stepped(
            v0,
            plan[0].0,
            plan[0].1,
        );
        proof {
            assert(plan.len() == 1);
            assert(plan.subrange(1, 1) =~= Seq::<(int, BlockView)>::empty());
            assert(<HeaviestBlockVisitor as ChainVisitor>::ready(v0, plan[0].0, plan[0].1));
            assert(plan_ready::<HeaviestBlockVisitor>(stepped1, Seq::<(int, BlockView)>::empty()));
            assert(plan_ready::<HeaviestBlockVisitor>(v0, plan));
        }
        ChainWalker::walk_chain(&longest_path_walker, self, &mut heaviest_block_visitor);
        let ghost hv = heaviest(self@);
        proof {
            assert(fold_plan::<HeaviestBlockVisitor>(stepped1, Seq::<(int, BlockView)>::empty())
                == stepped1);
            assert(fold_plan::<HeaviestBlockVisitor>(v0, plan) == stepped1);
            assert(heaviest_block_visitor@ == stepped1);
            assert(plan[0].0 == hv.0);
            assert(plan[0].1 == self@.blocks[hv.1]);
            assert(heaviest_block_visitor@.height == Option::Some(hv.0));
            assert(heaviest_block_visitor@.heaviest_block == Option::Some(
                self@.blocks[hv.1].identifier,
            ));
        }
        let heaviest_block_height = match heaviest_block_visitor.height {
            Some(h) => h,
            None => {
                proof {
                    assert(false);
                }
                0
            },
        };
        let heaviest_block_reference = match heaviest_block_visitor.heaviest_block {
            Some(id) => id,
            None => {
                proof {
                    assert(false);
                }
                String::new()
            },
        };
        let block = match self.get_block(&heaviest_block_reference) {
            Some(b) => b.clone(),
            None => {
                proof {
                    assert(self@.has_block_id(self@.blocks[hv.1].identifier));
                    assert(false);
                }
                Block::new(String::new(), Vec::new(), 0)
            },
        };
        proof {
            lemma_index_of(self@, self@.blocks[hv.1].identifier);
            assert(self@.index_of(self@.blocks[hv.1].identifier) == hv.1);
        }
        (heaviest_block_height, block)
    }

    /// The height of the heaviest leaf: the current block number.
    pub fn get_current_block_number(&self) -> (r: usize)
        requires
            self@.wf(),
        ensures
            r as int == current_height(self@),
    {
        self.get_current_block().0
    }

    /// The timestamp of the heaviest leaf.
    pub fn get_current_block_timestamp(&self) -> (r: u64)
        requires
            self@.wf(),
        ensures
            r == self@.blocks[heaviest(self@).1].data.timestamp,
    {
        self.get_current_block().1.data.timestamp
    }

    /// The identifiers of the children of the stored block with this
    /// identifier, in insertion order; nothing when the identifier is not
    /// stored.
    pub fn children_of(&self, id: &String) -> (r: Option<Vec<String>>)
        requires
            self@.wf(),
        ensures
            match r {
                Option::Some(v) => self@.has_block_id(id@) && v.deep_view() == self@.child_ids(
                    self@.index_of(id@),
                ),
                Option::None => !self@.has_block_id(id@),
            },
    {
        let i = match self.find_block_index(id) {
            Some(i) => i,
            None => {
                return None;
            },
        };
        proof {
            lemma_index_of(self@, id@);
            assert(i as int == self@.index_of(id@));
        }
        let mut out: Vec<String> = Vec::new();
        let mut j: usize = 1;
        while j < self.blocks.len()
            invariant
                1 <= j <= self@.len(),
                i < self@.len(),
                self@.wf(),
                self.blocks@.len() == self@.len(),
                self.parent_index@.len() == self@.len(),
                out.deep_view() == self@.children_upto(i as int, j as int).map_values(
                    |k: int| self@.blocks[k].identifier,
                ),
            decreases self@.len() - j,
        {
            let ghost prev = self@.children_upto(i as int, j as int);
            let ghost ids = |k: int| self@.blocks[k].identifier;
            if self.parent_index[j] == i {
                out.push(self.blocks[j].identifier.clone());
                proof {
                    assert(self@.parent_index[j as int] == i as int);
                    assert(self@.children_upto(i as int, j + 1 as int) == prev.push(j as int));
                    assert(out.deep_view() =~= prev.map_values(ids).push(
                        self@.blocks[j as int].identifier,
                    ));
                    assert(prev.push(j as int).map_values(ids) =~= prev.map_values(ids).push(
                        ids(j as int),
                    ));
                }
            } else {
                proof {
                    assert(self@.parent_index[j as int] != i as int);
                    assert(self@.children_upto(i as int, j + 1 as int) == prev);
                }
            }
            j = j + 1;
        }
        Some(out)
    }
}

/// A block sequence that rebuilds into a chain: a first block with the
/// empty parent marker, no empty and no duplicate identifiers, every later
/// block naming an earlier one as parent.
pub open spec fn blocks_form_chain(bs: Seq<BlockView>) -> bool {
    &&& bs.len() >= 1
    &&& bs[0].data.parent == Seq::<char>::empty()
    &&& forall|i: int| 0 <= i < bs.len() ==> (#[trigger] bs[i]).identifier.len() > 0
    &&& forall|i: int, j: int|
        0 <= i < j < bs.len() ==> (#[trigger] bs[i]).identifier != (#[trigger] bs[j]).identifier
    &&& forall|i: int|
        1 <= i < bs.len() ==> exists|j: int|
            0 <= j < i && (#[trigger] bs[j]).identifier == (#[trigger] bs[i]).data.parent
}

/// A well-formed chain's store rebuilds into a chain.
pub proof fn lemma_wf_forms_chain(c: ChainView)
    requires
        c.wf(),
    ensures
        blocks_form_chain(c.blocks),
{
    assert forall|i: int|
        1 <= i < c.blocks.len() implies exists|j: int|
        0 <= j < i && (#[trigger] c.blocks[j]).identifier == (
    #[trigger] c.blocks[i]).data.parent by {
        let p = c.parent_index[i];
        assert(0 <= p < i && c.blocks[p].identifier == c.blocks[i].data.parent);
    }
}

/// Two well-formed chains over the same configuration hash and the same
/// block store are the same chain: the store determines the parent links.
pub proof fn lemma_chain_determined(c1: ChainView, c2: ChainView)
    requires
        c1.wf(),
        c2.wf(),
        c1.genesis_configuration_hash == c2.genesis_configuration_hash,
        c1.blocks == c2.blocks,
    ensures
        c1 == c2,
{
    assert forall|i: int|
        0 <= i < c1.parent_index.len() implies c1.parent_index[i] == c2.parent_index[i] by {
        if i >= 1 {
            let p1 = c1.parent_index[i];
            let p2 = c2.parent_index[i];
            assert(c1.blocks[p1].identifier == c1.blocks[i].data.parent);
            assert(c2.blocks[p2].identifier == c2.blocks[i].data.parent);
            if p1 < p2 {
                assert(c1.blocks[p1].identifier != c1.blocks[p2].identifier);
            } else if p2 < p1 {
                assert(c1.blocks[p2].identifier != c1.blocks[p1].identifier);
            }
        }
    }
    assert(c1.parent_index =~= c2.parent_index);
    assert(c1 =~= c2);
}

impl Chain {
    /// Rebuild a chain from a configuration hash and a block sequence in
    /// insertion order — the inverse of serializing a chain's store.
    /// Succeeds exactly when the sequence forms a chain; the result is the
    /// unique well-formed chain with that hash and store.
    pub fn from_blocks(genesis_hash: String, blocks: &Vec<Block>) -> (r: Option<Chain>)
        ensures
            match r {
                Option::Some(c) => {
                    &&& blocks_form_chain(blocks.deep_view())
                    &&& c@.wf()
                    &&& c@.blocks == blocks.deep_view()
                    &&& c@.genesis_configuration_hash == genesis_hash@
                },
                Option::None => !blocks_form_chain(blocks.deep_view()),
            },
    {
        let ghost bs = blocks.deep_view();
        proof {
            assert(bs.len() == blocks@.len());
        }
        if blocks.len() == 0 {
            return None;
        }
        let first = &blocks[0];
        proof {
            assert(first@ == bs[0]);
        }
        if first.data.parent.as_str().unicode_len() != 0 {
            proof {
                assert(bs[0].data.parent.len() != 0);
            }
            return None;
        }
        if first.identifier.as_str().unicode_len() == 0 {
            return None;
        }
        let mut c = Chain {
            genesis_configuration_hash: genesis_hash,
            genesis_identifier_hash: first.identifier.clone(),
            blocks: Vec::new(),
            parent_index: Vec::new(),
        };
        c.blocks.push(first.clone());
        c.parent_index.push(0);
        proof {
            assert(c@.blocks =~= bs.subrange(0, 1));
            assert(c@.parent_index =~= seq![0int]);
            assert(c@.blocks[0].data.parent =~= Seq::<char>::empty());
            assert(c@.wf());
        }
        let mut i: usize = 1;
        while i < blocks.len()
            invariant
                1 <= i <= bs.len(),
                bs == blocks.deep_view(),
                bs.len() == blocks@.len(),
                c@.wf(),
                c@.blocks == bs.subrange(0, i as int),
                c@.genesis_configuration_hash == genesis_hash@,
            decreases bs.len() - i,
        {
            let b = &blocks[i];
            proof {
                assert(b@ == bs[i as int]);
            }
            if b.identifier.as_str().unicode_len() == 0 {
                proof {
                    assert(bs[i as int].identifier.len() == 0);
                }
                return None;
            }
            if c.find_block_index(&b.identifier).is_some() {
                proof {
                    let j = c@.index_of(b@.identifier);
                    lemma_index_of(c@, b@.identifier);
                    assert(c@.blocks[j] == bs[j]);
                    assert(bs[j].identifier == bs[i as int].identifier);
                    assert(!blocks_form_chain(bs));
                }
                return None;
            }
            if !c.has_parent_of_block(b) {
                proof {
                    if blocks_form_chain(bs) {
                        let j = choose|j: int|
                            0 <= j < i && (#[trigger] bs[j]).identifier == bs[i as int].data.parent;
                        assert(c@.blocks[j] == bs[j]);
                        assert(c@.has_block_id(bs[i as int].data.parent));
                    }
                }
                return None;
            }
            let ghost pre = c@;
            let added = c.add_block(b.clone());
            proof {
                assert(added);
                assert(c@.blocks =~= bs.subrange(0, i + 1 as int));
            }
            i = i + 1;
        }
        proof {
            assert(bs.subrange(0, bs.len() as int) =~= bs);
            assert(blocks_form_chain(bs)) by {
                lemma_wf_forms_chain(c@);
            }
        }
        Some(c)
    }
}

impl Clone for Chain {
    fn clone(&self) -> (r: Self)
        ensures
            r@ == self@,
    {
        let mut blocks: Vec<Block> = Vec::new();
        let mut i: usize = 0;
        while i < self.blocks.len()
            invariant
                i <= self.blocks@.len(),
                blocks@.len() == i,
                self.blocks.deep_view().len() == self.blocks@.len(),
                blocks.deep_view() == self.blocks.deep_view().subrange(0, i as int),
            decreases self.blocks@.len() - i,
        {
            let ghost pre = blocks@;
            let ghost pre_deep = blocks.deep_view();
            let b2 = self.blocks[i].clone();
            proof {
                assert(b2@ == self.blocks@[i as int]@);
                assert(b2.deep_view() == self.blocks.deep_view()[i as int]);
            }
            blocks.push(b2);
            proof {
                assert(blocks@ == pre.push(b2));
                assert(blocks.deep_view().len() == i + 1);
                assert forall|k: int|
                    0 <= k <= i implies blocks.deep_view()[k] == self.blocks.deep_view()[k] by {
                    assert(blocks.deep_view()[k] == blocks@[k].deep_view());
                    if k < i {
                        assert(blocks@[k] == pre[k]);
                        assert(pre_deep[k] == pre[k].deep_view());
                        assert(pre_deep[k] == self.blocks.deep_view().subrange(0, i as int)[k]);
                    } else {
                        assert(blocks@[k] == b2);
                    }
                }
                assert(blocks.deep_view() =~= self.blocks.deep_view().subrange(0, i + 1 as int));
            }
            i = i + 1;
        }
        let mut parent_index: Vec<usize> = Vec::new();
        let mut j: usize = 0;
        while j < self.parent_index.len()
            invariant
                j <= self.parent_index@.len(),
                parent_index@ == self.parent_index@.subrange(0, j as int),
            decreases self.parent_index@.len() - j,
        {
            parent_index.push(self.parent_index[j]);
            proof {
                assert(parent_index@ =~= self.parent_index@.subrange(0, j + 1 as int));
            }
            j = j + 1;
        }
        proof {
            assert(blocks.deep_view() =~= self.blocks.deep_view());
            assert(parent_index@ =~= self.parent_index@);
        }
        let r = Chain {
            genesis_configuration_hash: self.genesis_configuration_hash.clone(),
            genesis_identifier_hash: self.genesis_identifier_hash.clone(),
            blocks,
            parent_index,
        };
        proof {
            assert(r@ =~= self@);
        }
        r
    }
}

/// Property of every reachable chain: the adjacency's keys are exactly the
/// stored identifiers; every child identifier recorded under a key names a
/// stored block whose parent is that key; every non-genesis block is
/// recorded under its parent; and no child is recorded twice.
pub proof fn lemma_adjacency_invariant(c: ChainView)
    requires
        c.wf(),
    ensures
        c.adjacency().dom() == c.block_id_set(),
        forall|id: Seq<char>, k: int|
            c.has_block_id(id) && 0 <= k < c.adjacency()[id].len() ==> {
                let child = #[trigger] c.adjacency()[id][k];
                c.has_block_id(child) && c.parent_of(child) == id
            },
        forall|i: int|
            1 <= i < c.len() ==> c.adjacency()[(#[trigger] c.blocks[i]).data.parent].contains(
                c.blocks[i].identifier,
            ),
        forall|id: Seq<char>, k1: int, k2: int|
            c.has_block_id(id) && 0 <= k1 < k2 < c.adjacency()[id].len()
                ==> #[trigger] c.adjacency()[id][k1] != #[trigger] c.adjacency()[id][k2],
{
    assert(c.adjacency().dom() =~= c.block_id_set());
    assert forall|id: Seq<char>, k: int|
        c.has_block_id(id) && 0 <= k < c.adjacency()[id].len() implies {
        let child = #[trigger] c.adjacency()[id][k];
        c.has_block_id(child) && c.parent_of(child) == id
    } by {
        lemma_index_of(c, id);
        let i = c.index_of(id);
        lemma_children_upto(c, i, c.len());
        let j = c.children_of_index(i)[k];
        assert(1 <= j < c.len() && c.parent_index[j] == i);
        let child = c.blocks[j].identifier;
        assert(c.adjacency()[id][k] == child);
        assert(c.has_block_id(child));
        lemma_index_of(c, child);
        assert(c.index_of(child) == j);
        assert(c.parent_of(child) == c.blocks[j].data.parent);
        assert(c.blocks[j].data.parent == c.blocks[i].identifier);
    }
    assert forall|i: int|
        1 <= i < c.len() implies c.adjacency()[(#[trigger] c.blocks[i]).data.parent].contains(
        c.blocks[i].identifier,
    ) by {
        let p = c.parent_index[i];
        let pid = c.blocks[p].identifier;
        assert(c.blocks[i].data.parent == pid);
        assert(c.has_block_id(pid));
        lemma_index_of(c, pid);
        assert(c.index_of(pid) == p);
        lemma_children_upto(c, p, c.len());
        assert(c.children_of_index(p).contains(i));
        let k = choose|k: int|
            0 <= k < c.children_of_index(p).len() && c.children_of_index(p)[k] == i;
        assert(c.child_ids(p)[k] == c.blocks[i].identifier);
        assert(c.adjacency()[pid][k] == c.blocks[i].identifier);
    }
    assert forall|id: Seq<char>, k1: int, k2: int|
        c.has_block_id(id) && 0 <= k1 < k2 < c.adjacency()[id].len()
        implies #[trigger] c.adjacency()[id][k1] != #[trigger] c.adjacency()[id][k2] by {
        lemma_index_of(c, id);
        let i = c.index_of(id);
        lemma_children_upto(c, i, c.len());
        let j1 = c.children_of_index(i)[k1];
        let j2 = c.children_of_index(i)[k2];
        assert(j1 < j2);
        assert(c.adjacency()[id][k1] == c.blocks[j1].identifier);
        assert(c.adjacency()[id][k2] == c.blocks[j2].identifier);
    }
}

} // verus!
