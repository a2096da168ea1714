//! The Clique-style proof-of-authority consensus driver.
//!
//! The protocol owns the chain and a buffer of pending transactions.  From
//! the height of the heaviest branch it computes who leads the current
//! epoch, takes transactions in while this node may mint, builds candidate
//! blocks once the block period has passed, and reconciles remote chains
//! by keeping the taller branch of the same network.

use vstd::prelude::*;

verus! {

use crate::chain::block::enc_content;
use crate::chain::block::Block;
use crate::chain::block::BlockContentView;
use crate::chain::block::BlockView;
use crate::chain::chain::add_block_ok;
use crate::chain::chain::spec_add_block;
use crate::chain::chain::Chain;
use crate::chain::chain::ChainView;
use crate::chain::chain_visitor::tally_outcome;
use crate::chain::chain_visitor::ChainVisitor;
use crate::chain::chain_visitor::FindTransactionVisitor;
use crate::chain::chain_visitor::FindTransactionVisitorView;
use crate::chain::chain_visitor::SumCipherTextVisitor;
use crate::chain::chain_visitor::SumCipherTextVisitorView;
use crate::chain::chain_walker::current_height;
use crate::chain::chain_walker::fold_plan;
use crate::chain::chain_walker::heaviest;
use crate::chain::chain_walker::lemma_heaviest_is_max;
use crate::chain::chain_walker::plan_ready;
use crate::chain::chain_walker::ChainWalker;
use crate::chain::chain_walker::LongestPathWalker;
use crate::chain::transaction::image_set_views;
use crate::chain::transaction::voting_closed_view;
use crate::chain::transaction::voting_opened_view;
use crate::chain::transaction::spec_tx_valid;
use crate::chain::transaction::Transaction;
use crate::chain::transaction::TransactionView;
use crate::config::genesis::Genesis;
use crate::config::genesis::GenesisView;
use crate::crypto::CipherText;
use crate::hashing::sha1_hex_of;
use crate::p2p::codec::Message;
use crate::p2p::codec::MessageView;
use vstd::arithmetic::div_mod::lemma_add_mod_noop;
use vstd::arithmetic::div_mod::lemma_mod_multiples_vanish;
use vstd::arithmetic::div_mod::lemma_small_mod;

/// The consensus driver of one node.
pub struct CliqueProtocol {
    transactions: Vec<Transaction>,
    signer_index: usize,
    signer_count: usize,
    genesis: Genesis,
    chain: Chain,
}

/// Holds the tally of the voting.
#[derive(Debug, PartialEq, Eq)]
pub struct Tally {
    pub total_votes: usize,
    pub cipher_text: CipherText,
}

pub struct TallyView {
    pub total_votes: int,
    pub cipher_text: Seq<u8>,
}

impl View for Tally {
    type V = TallyView;

    open spec fn view(&self) -> TallyView {
        TallyView { total_votes: self.total_votes as int, cipher_text: self.cipher_text@ }
    }
}

impl Clone for Tally {
    fn clone(&self) -> (r: Self)
        ensures
            r@ == self@,
    {
        Tally { total_votes: self.total_votes, cipher_text: self.cipher_text.clone() }
    }
}

pub struct ProtocolView {
    pub transactions: Seq<TransactionView>,
    pub signer_index: int,
    pub signer_count: int,
    pub genesis: GenesisView,
    pub chain: ChainView,
}

impl View for CliqueProtocol {
    type V = ProtocolView;

    closed spec fn view(&self) -> ProtocolView {
        ProtocolView {
            transactions: self.transactions.deep_view(),
            signer_index: self.signer_index as int,
            signer_count: self.signer_count as int,
            genesis: self.genesis@,
            chain: self.chain@,
        }
    }
}

impl ProtocolView {
    /// The invariant of every reachable protocol state: a well-formed
    /// chain, a sealer index into the configured sealer set, and a buffer
    /// free of duplicate identifiers.
    pub open spec fn wf(self) -> bool {
        &&& self.chain.wf()
        &&& self.signer_count == self.genesis.sealer.len()
        &&& 1 <= self.signer_count
        &&& 0 <= self.signer_index < self.signer_count
        &&& forall|i: int, j: int|
            0 <= i < j < self.transactions.len() ==> (#[trigger] self.transactions[i]).identifier
                != (#[trigger] self.transactions[j]).identifier
    }
}

/// The sealer expected to lead at height `h` among `n` sealers.
pub open spec fn leader_of(h: int, n: int) -> int {
    h % n
}

/// Whether sealer `idx` sits in the co-leader window at height `h`: the
/// `limit` positions after the leader, wrapping modulo `n`.
pub open spec fn in_co_window(idx: int, h: int, n: int, limit: int) -> bool {
    let lower = h % n + 1;
    let upper = (h + limit) % n;
    if upper < lower {
        idx >= lower || idx <= upper
    } else {
        lower <= idx <= upper
    }
}

/// This node leads the current epoch.
pub open spec fn spec_is_leader(p: ProtocolView) -> bool {
    p.signer_index == leader_of(current_height(p.chain), p.signer_count)
}

/// This node is a co-leader of the current epoch.
pub open spec fn spec_is_co_leader(p: ProtocolView) -> bool {
    in_co_window(p.signer_index, current_height(p.chain), p.signer_count, p.genesis.signer_limit)
}

/// The leader window at height `h`: the leader and the `limit` sealers
/// after it, wrapping modulo `n`.  The window holds `limit + 1` pairwise
/// distinct indices; its tail is exactly the co-leader window; and the
/// leader is never a co-leader.
pub proof fn lemma_leader_window(h: int, n: int, limit: int)
    requires
        0 <= h,
        1 <= limit < n,
    ensures
        ({
            let w = Seq::new((limit + 1) as nat, |k: int| (h % n + k) % n);
            &&& w.len() == limit + 1
            &&& w[0] == leader_of(h, n)
            &&& !in_co_window(leader_of(h, n), h, n, limit)
            &&& forall|k: int| 1 <= k <= limit ==> in_co_window(#[trigger] w[k], h, n, limit)
            &&& forall|idx: int|
                0 <= idx < n && #[trigger] in_co_window(idx, h, n, limit) ==> exists|k: int|
                    1 <= k <= limit && w[k] == idx
            &&& forall|k1: int, k2: int|
                0 <= k1 < k2 <= limit ==> #[trigger] w[k1] != #[trigger] w[k2]
        }),
{
    let a = h % n;
    let w = Seq::new((limit + 1) as nat, |k: int| (h % n + k) % n);
    assert(0 <= a < n);
    assert((h + limit) % n == (a + limit) % n) by {
        lemma_add_mod_noop(h, limit, n);
        lemma_small_mod(limit as nat, n as nat);
    }
    assert forall|k: int| 0 <= k <= limit implies #[trigger] w[k] == (if a + k < n {
        a + k
    } else {
        a + k - n
    }) by {
        if a + k < n {
            lemma_small_mod((a + k) as nat, n as nat);
        } else {
            lemma_mod_multiples_vanish(1, a + k - n, n);
            lemma_small_mod((a + k - n) as nat, n as nat);
        }
    }
    let upper = (h + limit) % n;
    if a + limit < n {
        lemma_small_mod((a + limit) as nat, n as nat);
        assert(upper == a + limit);
        assert forall|idx: int|
            0 <= idx < n && #[trigger] in_co_window(idx, h, n, limit) implies exists|k: int|
            1 <= k <= limit && w[k] == idx by {
            let k = idx - a;
            assert(1 <= k <= limit && w[k] == idx);
        }
    } else {
        lemma_mod_multiples_vanish(1, a + limit - n, n);
        lemma_small_mod((a + limit - n) as nat, n as nat);
        assert(upper == a + limit - n);
        assert(upper < a + 1);
        assert forall|idx: int|
            0 <= idx < n && #[trigger] in_co_window(idx, h, n, limit) implies exists|k: int|
            1 <= k <= limit && w[k] == idx by {
            if idx >= a + 1 {
                let k = idx - a;
                assert(a + k < n);
                assert(k <= limit);
                assert(1 <= k <= limit && w[k] == idx);
            } else {
                let k = idx + n - a;
                assert(a + k >= n);
                assert(k <= limit);
                assert(1 <= k <= limit && w[k] == idx);
            }
        }
    }
}

/// A leader is never at the same time a co-leader: the two roles are
/// mutually exclusive at every height, provided the co-leader window is
/// shorter than the sealer set.
pub proof fn lemma_leader_co_leader_exclusive(p: ProtocolView)
    requires
        p.wf(),
        1 <= p.genesis.signer_limit < p.signer_count,
    ensures
        spec_is_leader(p) ==> !spec_is_co_leader(p),
{
    lemma_heaviest_is_max(p.chain);
    lemma_leader_window(current_height(p.chain), p.signer_count, p.genesis.signer_limit);
}

/// Whether a transaction with this identifier sits in the buffer.
pub open spec fn buffer_contains_id(ts: Seq<TransactionView>, id: Seq<char>) -> bool {
    exists|i: int| 0 <= i < ts.len() && (#[trigger] ts[i]).identifier == id
}

/// What taking a transaction in does to the protocol: nothing when the
/// proofs do not attest it, nothing when it is already buffered, nothing
/// when this node has no minting role; otherwise it joins the buffer.
pub open spec fn spec_receive(p: ProtocolView, t: TransactionView) -> ProtocolView {
    if !spec_tx_valid(t, p.genesis.public_key, p.genesis.public_uciv) {
        p
    } else if buffer_contains_id(p.transactions, t.identifier) {
        p
    } else if spec_is_leader(p) || spec_is_co_leader(p) {
        ProtocolView { transactions: p.transactions.push(t), ..p }
    } else {
        p
    }
}

/// The candidate block this node would mint at `now`: sealing the buffer
/// on top of the heaviest block.
pub open spec fn spec_candidate(p: ProtocolView, now_seconds: u64) -> BlockView {
    let content = BlockContentView {
        parent: p.chain.blocks[heaviest(p.chain).1].identifier,
        timestamp: now_seconds,
        transactions: p.transactions,
    };
    BlockView { identifier: sha1_hex_of(enc_content(content)), data: content }
}

/// What signing a block does: nothing when the block is already stored
/// (we received it from the leader); otherwise it joins the chain and is
/// handed back for broadcast.
pub open spec fn spec_sign(p: ProtocolView, b: BlockView) -> (ProtocolView, Option<BlockView>) {
    if p.chain.has_block_id(b.identifier) {
        (p, Option::None)
    } else {
        (ProtocolView { chain: spec_add_block(p.chain, b).0, ..p }, Option::Some(b))
    }
}

/// What a remote chain does to ours: nothing when it comes from another
/// network or is not strictly taller; otherwise it replaces ours whole.
pub open spec fn spec_replace_chain(p: ProtocolView, other: ChainView) -> ProtocolView {
    if other.genesis_configuration_hash != p.chain.genesis_configuration_hash {
        p
    } else if current_height(p.chain) < current_height(other) {
        ProtocolView { chain: other, ..p }
    } else {
        p
    }
}

/// Replacing the chain never lowers its height, whatever the remote
/// offers.
pub proof fn lemma_replace_chain_monotone(p: ProtocolView, other: ChainView)
    requires
        p.chain.wf(),
        other.wf(),
    ensures
        current_height(spec_replace_chain(p, other).chain) >= current_height(p.chain),
        spec_replace_chain(p, other).chain.wf(),
{
}

/// The chains a node goes through under any sequence of replacements.
pub open spec fn spec_replace_all(p: ProtocolView, others: Seq<ChainView>) -> ProtocolView
    decreases others.len(),
{
    if others.len() == 0 {
        p
    } else {
        spec_replace_all(spec_replace_chain(p, others[0]), others.subrange(1, others.len() as int))
    }
}

/// Height is non-decreasing over any sequence of replacements.
pub proof fn lemma_replace_chain_monotone_seq(p: ProtocolView, others: Seq<ChainView>)
    requires
        p.chain.wf(),
        forall|i: int| 0 <= i < others.len() ==> (#[trigger] others[i]).wf(),
    ensures
        current_height(spec_replace_all(p, others).chain) >= current_height(p.chain),
        spec_replace_all(p, others).chain.wf(),
    decreases others.len(),
{
    if others.len() > 0 {
        lemma_replace_chain_monotone(p, others[0]);
        let tail = others.subrange(1, others.len() as int);
        assert(forall|i: int| 0 <= i < tail.len() ==> (#[trigger] tail[i]).wf());
        lemma_replace_chain_monotone_seq(spec_replace_chain(p, others[0]), tail);
    }
}

/// The tally state after walking the heaviest branch bottom-up.
pub open spec fn spec_tally_state(c: ChainView) -> SumCipherTextVisitorView {
    fold_plan::<SumCipherTextVisitor>(
        SumCipherTextVisitorView {
            sum: crate::crypto::zero_cipher_bytes(),
            zero: crate::crypto::zero_cipher_bytes(),
            opened: false,
            closed: false,
            seen: Seq::empty(),
        },
        <LongestPathWalker as ChainWalker>::visit_plan(c),
    )
}

/// The election result a node reports: votes counted and ciphertexts
/// combined along the heaviest branch, between the sentinels.
pub open spec fn spec_tally(p: ProtocolView) -> (int, Seq<u8>) {
    tally_outcome(spec_tally_state(p.chain))
}

/// The transaction a search along the heaviest branch finds: the first
/// hit walking from the leaf towards the genesis block.
pub open spec fn spec_find(c: ChainView, id: Seq<char>) -> Option<TransactionView> {
    fold_plan::<FindTransactionVisitor>(
        FindTransactionVisitorView { transaction_identifier: id, found_transaction: Option::None },
        <LongestPathWalker as ChainWalker>::visit_plan(c),
    ).found_transaction
}

/// Any walk leaves the tally ready: it accepts every invocation.
pub proof fn lemma_sum_plan_ready(v: SumCipherTextVisitorView, plan: Seq<(int, BlockView)>)
    ensures
        plan_ready::<SumCipherTextVisitor>(v, plan),
    decreases plan.len(),
{
    if plan.len() > 0 {
        lemma_sum_plan_ready(
            <SumCipherTextVisitor as ChainVisitor>::stepped(v, plan[0].0, plan[0].1),
            plan.subrange(1, plan.len() as int),
        );
    }
}

/// Any walk leaves the search ready: it accepts every invocation.
pub proof fn lemma_find_plan_ready(v: FindTransactionVisitorView, plan: Seq<(int, BlockView)>)
    ensures
        plan_ready::<FindTransactionVisitor>(v, plan),
    decreases plan.len(),
{
    if plan.len() > 0 {
        lemma_find_plan_ready(
            <FindTransactionVisitor as ChainVisitor>::stepped(v, plan[0].0, plan[0].1),
            plan.subrange(1, plan.len() as int),
        );
    }
}

impl CliqueProtocol {
    /// Create a protocol instance for the node listening on `own_address`,
    /// which must be one of the configured sealers.  The chain starts with
    /// the genesis block alone, under the configuration's hash.
    pub fn new(own_address: String, genesis: Genesis) -> (r: CliqueProtocol)
        requires
            exists|i: int|
                0 <= i < genesis@.sealer.len() && genesis@.sealer[i] == own_address@,
        ensures
            r@.wf(),
            r@.genesis == genesis@,
            r@.transactions == Seq::<TransactionView>::empty(),
            r@.signer_count == genesis@.sealer.len(),
            0 <= r@.signer_index < r@.signer_count,
            genesis@.sealer[r@.signer_index] == own_address@,
            forall|j: int|
                0 <= j < r@.signer_index ==> genesis@.sealer[j] != own_address@,
            r@.chain.wf(),
            r@.chain.blocks.len() == 1,
            r@.chain.genesis_configuration_hash == sha1_hex_of(
                crate::config::genesis::enc_genesis(genesis@),
            ),
    {
        let ghost gs = genesis@.sealer;
        proof {
            assert(gs.len() == genesis.sealer@.len());
        }
        let mut own_signer_index: usize = 0;
        let mut found: bool = false;
        let mut i: usize = 0;
        while i < genesis.sealer.len()
            invariant_except_break
                !found,
                i <= genesis.sealer@.len(),
            invariant
                gs == genesis@.sealer,
                gs.len() == genesis.sealer@.len(),
                !found ==> forall|j: int| 0 <= j < i ==> gs[j] != own_address@,
                found ==> own_signer_index < gs.len() && gs[own_signer_index as int]
                    == own_address@ && forall|j: int|
                    0 <= j < own_signer_index ==> gs[j] != own_address@,
            ensures
                found ==> own_signer_index < gs.len() && gs[own_signer_index as int]
                    == own_address@ && forall|j: int|
                    0 <= j < own_signer_index ==> gs[j] != own_address@,
                !found ==> forall|j: int| 0 <= j < gs.len() ==> gs[j] != own_address@,
            decreases genesis.sealer@.len() - i,
        {
            proof {
                assert(gs[i as int] == genesis.sealer@[i as int]@);
            }
            if genesis.sealer[i].eq(&own_address) {
                own_signer_index = i;
                found = true;
                break ;
            }
            i = i + 1;
        }
        if !found {
            proof {
                assert(false);
            }
        }
        let own_signer_count = genesis.sealer.len();
        let digest = genesis.configuration_hash();
        let chain = Chain::new(digest);
        let r = CliqueProtocol {
            transactions: Vec::new(),
            signer_index: own_signer_index,
            signer_count: own_signer_count,
            genesis,
            chain,
        };
        proof {
            assert(r@.transactions =~= Seq::<TransactionView>::empty());
        }
        r
    }

    /// The chain this node currently holds.
    pub fn chain(&self) -> (r: &Chain)
        ensures
            r@ == self@.chain,
    {
        &self.chain
    }

    /// The identifiers this node currently holds buffered.
    pub fn transaction_buffer(&self) -> (r: &Vec<Transaction>)
        ensures
            r.deep_view() == self@.transactions,
    {
        &self.transactions
    }

    /// Whether this node leads the current epoch and may mint at once.
    pub fn is_leader(&self) -> (r: bool)
        requires
            self@.wf(),
        ensures
            r == spec_is_leader(self@),
    {
        let current_block_number = self.chain.get_current_block_number();
        let expected_leader_index = current_block_number % self.signer_count;
        self.signer_index == expected_leader_index
    }

    /// Whether this node is a co-leader of the current epoch and may mint
    /// after the wiggle delay.
    pub fn is_co_leader(&self) -> (r: bool)
        requires
            self@.wf(),
        ensures
            r == spec_is_co_leader(self@),
    {
        proof {
            lemma_heaviest_is_max(self@.chain);
        }
        let current_block_number = self.chain.get_current_block_number();
        let n = self.signer_count;
        let lower_leader_index_bound = current_block_number % n + 1;
        let limit = self.genesis.clique.signer_limit;
        let wide: u128 = current_block_number as u128 + limit as u128;
        let upper_leader_index_bound: usize = (wide % (n as u128)) as usize;
        proof {
            assert(wide as int == current_block_number as int + limit as int);
            assert(upper_leader_index_bound as int == (current_block_number as int
                + limit as int) % (n as int));
        }
        if upper_leader_index_bound < lower_leader_index_bound {
            self.signer_index >= lower_leader_index_bound || self.signer_index
                <= upper_leader_index_bound
        } else {
            lower_leader_index_bound <= self.signer_index && self.signer_index
                <= upper_leader_index_bound
        }
    }

    /// Whether the block period has passed since the heaviest block, at
    /// the given wall-clock time in seconds since the epoch.
    pub fn is_block_period_over(&self, now_seconds: u64) -> (r: bool)
        requires
            self@.wf(),
        ensures
            r == (now_seconds as int >= self@.chain.blocks[heaviest(
                self@.chain,
            ).1].data.timestamp as int + self@.genesis.block_period as int),
    {
        let ts = self.chain.get_current_block_timestamp();
        let period = self.genesis.clique.block_period;
        if period > u64::MAX - ts {
            return false;
        }
        now_seconds >= ts + period
    }

    /// Take a received transaction in: drop it when its proofs do not
    /// attest it, when it is already buffered, or when this node holds no
    /// minting role; buffer it otherwise.
    pub fn on_transaction_receive(&mut self, transaction: Transaction)
        requires
            old(self)@.wf(),
        ensures
            final(self)@ == spec_receive(old(self)@, transaction@),
            final(self)@.wf(),
    {
        if !transaction.is_valid(&self.genesis.public_key, &self.genesis.public_uciv) {
            proof {
                assert(image_set_views(self.genesis.public_uciv@) == self@.genesis.public_uciv);
                assert(self@ == old(self)@);
                assert(self@.wf());
            }
            return ;
        }
        proof {
            assert(image_set_views(self.genesis.public_uciv@) == self@.genesis.public_uciv);
        }
        let mut i: usize = 0;
        let ghost buf = self@.transactions;
        proof {
            assert(buf.len() == self.transactions@.len());
        }
        while i < self.transactions.len()
            invariant
                i <= self.transactions@.len(),
                self@ == old(self)@,
                old(self)@.wf(),
                spec_tx_valid(
                    transaction@,
                    old(self)@.genesis.public_key,
                    old(self)@.genesis.public_uciv,
                ),
                buf == old(self)@.transactions,
                buf == self.transactions.deep_view(),
                buf.len() == self.transactions@.len(),
                forall|j: int| 0 <= j < i ==> (#[trigger] buf[j]).identifier != transaction@.identifier,
            decreases self.transactions@.len() - i,
        {
            proof {
                assert(buf[i as int] == self.transactions@[i as int]@);
            }
            if self.transactions[i].identifier.eq(&transaction.identifier) {
                proof {
                    assert(buffer_contains_id(buf, transaction@.identifier));
                }
                return ;
            }
            i = i + 1;
        }
        proof {
            assert(!buffer_contains_id(buf, transaction@.identifier));
        }
        if self.is_leader() || self.is_co_leader() {
            let ghost pre = self@;
            self.transactions.push(transaction);
            proof {
                assert(self@.transactions =~= pre.transactions.push(transaction@));
                assert(self@ == ProtocolView { transactions: pre.transactions.push(transaction@), ..pre });
            }
        }
    }

    /// The election result along the heaviest branch: the number of votes
    /// counted between the sentinels, each voter once, and their combined
    /// ciphertext.
    pub fn calculate_result(&self) -> (r: Tally)
        requires
            self@.wf(),
        ensures
            r@.total_votes == spec_tally(self@).0,
            r@.cipher_text == spec_tally(self@).1,
    {
        let mut sum_cipher_visitor = SumCipherTextVisitor::new(self.genesis.public_key.clone());
        let longest_path_walker = LongestPathWalker::new();
        let ghost v0 = sum_cipher_visitor@;
        proof {
            assert(v0 == SumCipherTextVisitorView {
                sum: crate::crypto::zero_cipher_bytes(),
                zero: crate::crypto::zero_cipher_bytes(),
                opened: false,
                closed: false,
                seen: Seq::<int>::empty(),
            });
            lemma_sum_plan_ready(v0, <LongestPathWalker as ChainWalker>::visit_plan(self@.chain));
        }
        ChainWalker::walk_chain(&longest_path_walker, &self.chain, &mut sum_cipher_visitor);
        let result = sum_cipher_visitor.get_votes();
        Tally { cipher_text: result.1, total_votes: result.0 }
    }

    /// The transaction with this identifier on the heaviest branch, if any
    /// block of that branch seals one.
    pub fn find_transaction(&self, trx_identifier: String) -> (r: Option<Transaction>)
        requires
            self@.wf(),
        ensures
            match r {
                Option::Some(t) => spec_find(self@.chain, trx_identifier@) == Option::Some(t@),
                Option::None => spec_find(self@.chain, trx_identifier@) is None,
            },
    {
        let ghost id = trx_identifier@;
        let mut find_trx_visitor = FindTransactionVisitor::new(trx_identifier);
        let longest_path_walker = LongestPathWalker::new();
        let ghost v0 = find_trx_visitor@;
        proof {
            assert(v0 == FindTransactionVisitorView {
                transaction_identifier: id,
                found_transaction: Option::<TransactionView>::None,
            });
            lemma_find_plan_ready(v0, <LongestPathWalker as ChainWalker>::visit_plan(self@.chain));
        }
        ChainWalker::walk_chain(&longest_path_walker, &self.chain, &mut find_trx_visitor);
        find_trx_visitor.get_found_transaction()
    }

    /// Build the candidate block this node would mint now — the buffered
    /// transactions sealed on top of the heaviest block — and clear the
    /// buffer.  The block is not yet added to the chain.
    pub fn create_current_block_and_reset_transaction_buffer(&mut self, now_seconds: u64) -> (b:
        Block)
        requires
            old(self)@.wf(),
        ensures
            b@ == spec_candidate(old(self)@, now_seconds),
            b@.identifier_valid(),
            final(self)@ == (ProtocolView {
                transactions: Seq::<TransactionView>::empty(),
                ..old(self)@
            }),
            final(self)@.wf(),
    {
        let current_block = self.chain.get_current_block();
        let mut buffer: Vec<Transaction> = Vec::new();
        core::mem::swap(&mut self.transactions, &mut buffer);
        let block = Block::new(current_block.1.identifier, buffer, now_seconds);
        proof {
            assert(self@.transactions =~= Seq::<TransactionView>::empty());
            assert(self@ == ProtocolView {
                transactions: Seq::<TransactionView>::empty(),
                ..old(self)@
            });
            assert(block@ == spec_candidate(old(self)@, now_seconds));
        }
        block
    }

    /// Clear the transaction buffer: a node that lost its minting role
    /// must not carry stale transactions into a future epoch.
    pub fn reset_transaction_buffer(&mut self)
        ensures
            final(self)@ == (ProtocolView {
                transactions: Seq::<TransactionView>::empty(),
                ..old(self)@
            }),
    {
        self.transactions.clear();
        proof {
            assert(self@.transactions =~= Seq::<TransactionView>::empty());
        }
    }

    /// Sign a block: append it to the own chain and hand it back for
    /// broadcast, or hand back nothing when the chain already stores a
    /// block with that identifier (we already received it, likely from
    /// the leader while we were a co-leader).
    pub fn sign(&mut self, block: Block) -> (r: Option<Block>)
        requires
            old(self)@.wf(),
            old(self)@.chain.has_block_id(block@.identifier) || add_block_ok(
                old(self)@.chain,
                block@,
            ),
        ensures
            final(self)@ == spec_sign(old(self)@, block@).0,
            match r {
                Option::Some(b) => spec_sign(old(self)@, block@).1 == Option::Some(b@),
                Option::None => spec_sign(old(self)@, block@).1 is None,
            },
            final(self)@.wf(),
    {
        if self.chain.find_block_index(&block.identifier).is_some() {
            return None;
        }
        let copy = block.clone();
        let ghost pre = self@;
        let is_added = self.chain.add_block(copy);
        proof {
            assert(is_added);
            assert(self@ == ProtocolView { chain: spec_add_block(pre.chain, block@).0, ..pre });
        }
        Some(block)
    }

    /// Replace the own chain with the given one when it belongs to the
    /// same network and is strictly taller; keep the own chain otherwise.
    pub fn replace_chain(&mut self, chain: Chain)
        requires
            old(self)@.wf(),
            chain@.wf(),
        ensures
            final(self)@ == spec_replace_chain(old(self)@, chain@),
            final(self)@.wf(),
    {
        let own_chain_height = self.chain.get_current_block_number();
        let other_chain_height = chain.get_current_block_number();
        if !chain.genesis_configuration_hash.eq(&self.chain.genesis_configuration_hash) {
            return ;
        }
        if own_chain_height < other_chain_height {
            let ghost pre = self@;
            self.chain = chain;
            proof {
                assert(self@ == ProtocolView { chain: chain@, ..pre });
            }
        }
    }
}

/// What one tick of the minter decides.
pub enum MinterStep {
    /// No minting role at this height: the buffer was cleared, wait.
    StandBy,
    /// A minting role, but the block period has not yet passed: wait.
    AwaitPeriod,
    /// Mint: the candidate block, and whether to wait the wiggle delay
    /// first because this node is only a co-leader.
    Propose(Block, bool),
}

impl CliqueProtocol {
    /// One decision of the minter loop at the given wall-clock time: clear
    /// the buffer and stand by without a role; wait while the block period
    /// runs; else build the candidate block, to be signed after an optional
    /// wiggle delay and broadcast if signing accepts it.
    pub fn minter_step(&mut self, now_seconds: u64) -> (r: MinterStep)
        requires
            old(self)@.wf(),
        ensures
            final(self)@.wf(),
            match r {
                MinterStep::StandBy => !spec_is_leader(old(self)@) && !spec_is_co_leader(
                    old(self)@,
                ) && final(self)@ == (ProtocolView {
                    transactions: Seq::<TransactionView>::empty(),
                    ..old(self)@
                }),
                MinterStep::AwaitPeriod => (spec_is_leader(old(self)@) || spec_is_co_leader(
                    old(self)@,
                )) && !(now_seconds as int >= old(self)@.chain.blocks[heaviest(
                    old(self)@.chain,
                ).1].data.timestamp as int + old(self)@.genesis.block_period as int) && final(self)@
                    == old(self)@,
                MinterStep::Propose(b, wiggle) => {
                    &&& spec_is_leader(old(self)@) || spec_is_co_leader(old(self)@)
                    &&& now_seconds as int >= old(self)@.chain.blocks[heaviest(
                        old(self)@.chain,
                    ).1].data.timestamp as int + old(self)@.genesis.block_period as int
                    &&& b@ == spec_candidate(old(self)@, now_seconds)
                    &&& wiggle == spec_is_co_leader(old(self)@)
                    &&& final(self)@ == (ProtocolView {
                        transactions: Seq::<TransactionView>::empty(),
                        ..old(self)@
                    })
                },
            },
    {
        let is_leader = self.is_leader();
        let is_co_leader = self.is_co_leader();
        if !is_leader && !is_co_leader {
            self.reset_transaction_buffer();
            return MinterStep::StandBy;
        }
        if !self.is_block_period_over(now_seconds) {
            return MinterStep::AwaitPeriod;
        }
        let block = self.create_current_block_and_reset_transaction_buffer(now_seconds);
        MinterStep::Propose(block, is_co_leader)
    }
}


/// The buffer with every transaction removed whose identifier appears in
/// the arriving block's transactions: a co-leader must not re-mint what
/// the leader has just sealed.
pub open spec fn purge_buffer(
    buf: Seq<TransactionView>,
    arriving: Seq<TransactionView>,
) -> Seq<TransactionView>
    decreases buf.len(),
{
    if buf.len() == 0 {
        Seq::empty()
    } else {
        let rest = purge_buffer(buf.subrange(1, buf.len() as int), arriving);
        if buffer_contains_id(arriving, buf[0].identifier) {
            rest
        } else {
            seq![buf[0]] + rest
        }
    }
}

pub proof fn lemma_purge_snoc(
    buf: Seq<TransactionView>,
    t: TransactionView,
    arriving: Seq<TransactionView>,
)
    ensures
        purge_buffer(buf.push(t), arriving) == purge_buffer(buf, arriving) + (
        if buffer_contains_id(arriving, t.identifier) {
            Seq::<TransactionView>::empty()
        } else {
            seq![t]
        }),
    decreases buf.len(),
{
    let tailed = if buffer_contains_id(arriving, t.identifier) {
        Seq::<TransactionView>::empty()
    } else {
        seq![t]
    };
    if buf.len() == 0 {
        assert(buf.push(t).subrange(1, 1) =~= Seq::<TransactionView>::empty());
        assert(purge_buffer(Seq::<TransactionView>::empty(), arriving)
            == Seq::<TransactionView>::empty());
        assert(buf =~= Seq::<TransactionView>::empty());
        assert(purge_buffer(buf.push(t), arriving) =~= purge_buffer(buf, arriving) + tailed);
    } else {
        let tail = buf.subrange(1, buf.len() as int);
        let all = buf.push(t);
        assert(all[0] == buf[0]);
        assert(all.subrange(1, all.len() as int) =~= tail.push(t));
        lemma_purge_snoc(tail, t, arriving);
        if buffer_contains_id(arriving, buf[0].identifier) {
            assert(purge_buffer(all, arriving) == purge_buffer(tail, arriving) + tailed);
            assert(purge_buffer(buf, arriving) == purge_buffer(tail, arriving));
        } else {
            assert(purge_buffer(all, arriving) == seq![buf[0]] + (purge_buffer(tail, arriving)
                + tailed));
            assert(seq![buf[0]] + (purge_buffer(tail, arriving) + tailed) =~= (seq![buf[0]]
                + purge_buffer(tail, arriving)) + tailed);
            assert(purge_buffer(buf, arriving) == seq![buf[0]] + purge_buffer(tail, arriving));
        }
    }
}

/// What stays after a purge was there before, and no identifier appears
/// twice if none did before.
pub proof fn lemma_purge_keeps(buf: Seq<TransactionView>, arriving: Seq<TransactionView>)
    ensures
        forall|id: Seq<char>|
            #[trigger] buffer_contains_id(purge_buffer(buf, arriving), id) ==> buffer_contains_id(
                buf,
                id,
            ),
        (forall|i: int, j: int|
            0 <= i < j < buf.len() ==> (#[trigger] buf[i]).identifier != (
            #[trigger] buf[j]).identifier) ==> (forall|i: int, j: int|
            0 <= i < j < purge_buffer(buf, arriving).len() ==> (#[trigger] purge_buffer(
                buf,
                arriving,
            )[i]).identifier != (#[trigger] purge_buffer(buf, arriving)[j]).identifier),
    decreases buf.len(),
{
    if buf.len() > 0 {
        let tail = buf.subrange(1, buf.len() as int);
        lemma_purge_keeps(tail, arriving);
        let rest = purge_buffer(tail, arriving);
        assert forall|id: Seq<char>|
            #[trigger] buffer_contains_id(purge_buffer(buf, arriving), id) implies
            buffer_contains_id(buf, id) by {
            let p = purge_buffer(buf, arriving);
            let i = choose|i: int| 0 <= i < p.len() && (#[trigger] p[i]).identifier == id;
            if buffer_contains_id(arriving, buf[0].identifier) {
                assert(buffer_contains_id(rest, id));
                let j = choose|j: int| 0 <= j < tail.len() && (#[trigger] tail[j]).identifier == id;
                assert(buf[j + 1].identifier == id);
            } else {
                if i == 0 {
                    assert(buf[0].identifier == id);
                } else {
                    assert(rest[i - 1].identifier == id);
                    assert(buffer_contains_id(rest, id));
                    let j = choose|j: int|
                        0 <= j < tail.len() && (#[trigger] tail[j]).identifier == id;
                    assert(buf[j + 1].identifier == id);
                }
            }
        }
        if forall|i: int, j: int|
            0 <= i < j < buf.len() ==> (#[trigger] buf[i]).identifier != (
        #[trigger] buf[j]).identifier {
            assert(forall|i: int, j: int|
                0 <= i < j < tail.len() ==> (#[trigger] tail[i]).identifier != (
            #[trigger] tail[j]).identifier);
            let p = purge_buffer(buf, arriving);
            if buffer_contains_id(arriving, buf[0].identifier) {
            } else {
                assert forall|i: int, j: int|
                    0 <= i < j < p.len() implies (#[trigger] p[i]).identifier != (
                #[trigger] p[j]).identifier by {
                    if i == 0 {
                        assert(p[j] == rest[j - 1]);
                        assert(buffer_contains_id(rest, rest[j - 1].identifier));
                        if buf[0].identifier == rest[j - 1].identifier {
                            let k = choose|k: int|
                                0 <= k < tail.len() && (#[trigger] tail[k]).identifier == buf[0].identifier;
                            assert(buf[k + 1].identifier == buf[0].identifier);
                        }
                    } else {
                        assert(p[i] == rest[i - 1]);
                        assert(p[j] == rest[j - 1]);
                    }
                }
            }
        }
    }
}

/// Whether a transaction list holds this identifier.
fn tx_list_contains_id(ts: &Vec<Transaction>, id: &String) -> (r: bool)
    ensures
        r == buffer_contains_id(ts.deep_view(), id@),
{
    let ghost tl = ts.deep_view();
    proof {
        assert(tl.len() == ts@.len());
    }
    let mut i: usize = 0;
    while i < ts.len()
        invariant
            i <= ts@.len(),
            tl == ts.deep_view(),
            tl.len() == ts@.len(),
            forall|j: int| 0 <= j < i ==> (#[trigger] tl[j]).identifier != id@,
        decreases ts@.len() - i,
    {
        proof {
            assert(tl[i as int] == ts@[i as int]@);
        }
        if ts[i].identifier.eq(id) {
            return true;
        }
        i = i + 1;
    }
    false
}

/// What a peer message does to the protocol, and the direct reply it
/// earns.  Accept messages and unknown text are no-ops.
pub open spec fn spec_handle(p: ProtocolView, m: MessageView) -> (ProtocolView, MessageView) {
    match m {
        MessageView::Nothing => (p, MessageView::Nothing),
        MessageView::Ping => (p, MessageView::Pong),
        MessageView::Pong => (p, MessageView::Nothing),
        MessageView::TransactionPayload(t) => (
            spec_receive(p, t),
            MessageView::TransactionAccept(t.identifier),
        ),
        MessageView::TransactionAccept(_) => (p, MessageView::Nothing),
        MessageView::BlockRequest(_) => (p, MessageView::Nothing),
        MessageView::BlockPayload(b) => {
            let purged = purge_buffer(p.transactions, b.data.transactions);
            let (c2, added) = spec_add_block(p.chain, b);
            (
                ProtocolView { transactions: purged, chain: c2, ..p },
                if added {
                    MessageView::BlockAccept
                } else {
                    MessageView::BlockDuplicated
                },
            )
        },
        MessageView::BlockAccept => (p, MessageView::Nothing),
        MessageView::BlockDuplicated => (p, MessageView::Nothing),
        MessageView::ChainRequest => (p, MessageView::ChainResponse(p.chain)),
        MessageView::ChainResponse(c) => (spec_replace_chain(p, c), MessageView::ChainAccept),
        MessageView::ChainAccept => (p, MessageView::Nothing),
        MessageView::OpenVote => (
            spec_receive(p, voting_opened_view()),
            MessageView::OpenVoteAccept,
        ),
        MessageView::OpenVoteAccept => (p, MessageView::Nothing),
        MessageView::CloseVote => (
            spec_receive(p, voting_closed_view()),
            MessageView::CloseVoteAccept,
        ),
        MessageView::CloseVoteAccept => (p, MessageView::Nothing),
        MessageView::RequestTally => (p, MessageView::Nothing),
        MessageView::RequestTallyPayload(_) => (p, MessageView::Nothing),
        MessageView::FindTransaction(id) => (
            p,
            MessageView::FindTransactionResponse(spec_find(p.chain, id)),
        ),
        MessageView::FindTransactionResponse(_) => (p, MessageView::Nothing),
    }
}

/// The inputs on which a peer message can be handled.  A block request is
/// not part of the protocol yet; an arriving block must seal onto a stored
/// parent (the node is expected to have checked, anything else is fatal);
/// a remote chain must be well-formed, as every decoded chain is.
pub open spec fn handle_ok(p: ProtocolView, m: MessageView) -> bool {
    match m {
        MessageView::BlockRequest(_) => false,
        MessageView::BlockPayload(b) => {
            &&& p.chain.has_block_id(b.data.parent)
            &&& b.identifier.len() > 0
            &&& p.chain.has_block_id(b.identifier) ==> p.chain.parent_of(b.identifier)
                == b.data.parent
        },
        MessageView::ChainResponse(c) => c.wf(),
        _ => true,
    }
}

/// What a client message does to the protocol: the reply to the client,
/// and what to broadcast to the peers afterwards.
pub open spec fn spec_handle_rpc(p: ProtocolView, m: MessageView) -> (
    ProtocolView,
    Option<(MessageView, MessageView)>,
) {
    match m {
        MessageView::TransactionPayload(t) => (
            spec_receive(p, t),
            Option::Some(
                (MessageView::TransactionAccept(t.identifier), MessageView::TransactionPayload(t)),
            ),
        ),
        MessageView::ChainRequest => (
            p,
            Option::Some((MessageView::ChainResponse(p.chain), MessageView::Nothing)),
        ),
        MessageView::OpenVote => (
            spec_receive(p, voting_opened_view()),
            Option::Some((MessageView::OpenVoteAccept, MessageView::OpenVote)),
        ),
        MessageView::CloseVote => (
            spec_receive(p, voting_closed_view()),
            Option::Some((MessageView::CloseVoteAccept, MessageView::CloseVote)),
        ),
        MessageView::RequestTally => (
            p,
            Option::Some(
                (
                    MessageView::RequestTallyPayload(
                        TallyView {
                            total_votes: spec_tally(p).0,
                            cipher_text: spec_tally(p).1,
                        },
                    ),
                    MessageView::Nothing,
                ),
            ),
        ),
        _ => (p, Option::None),
    }
}

impl CliqueProtocol {
    /// Handle a message received from another peer: mutate the protocol as
    /// the message demands and return the direct reply for that peer.
    pub fn handle(&mut self, message: Message) -> (r: Message)
        requires
            old(self)@.wf(),
            handle_ok(old(self)@, message@),
        ensures
            final(self)@ == spec_handle(old(self)@, message@).0,
            r@ == spec_handle(old(self)@, message@).1,
            final(self)@.wf(),
    {
        match message {
            Message::Nothing => Message::Nothing,
            Message::Ping => Message::Pong,
            Message::Pong => Message::Nothing,
            Message::TransactionPayload(transaction) => {
                let identifier = transaction.identifier.clone();
                self.on_transaction_receive(transaction);
                Message::TransactionAccept(identifier)
            },
            Message::TransactionAccept(_) => Message::Nothing,
            Message::BlockRequest(_) => {
                proof {
                    assert(false);
                }
                Message::Nothing
            },
            Message::BlockPayload(block) => {
                let ghost pre = self@;
                let mut kept: Vec<Transaction> = Vec::new();
                let mut i: usize = 0;
                proof {
                    assert(pre.transactions.subrange(0, 0) =~= Seq::<TransactionView>::empty());
                    assert(purge_buffer(
                        pre.transactions.subrange(0, 0),
                        block@.data.transactions,
                    ) == Seq::<TransactionView>::empty());
                    assert(kept.deep_view() =~= Seq::<TransactionView>::empty());
                }
                while i < self.transactions.len()
                    invariant
                        i <= self.transactions@.len(),
                        self@ == pre,
                        pre.transactions.len() == self.transactions@.len(),
                        kept.deep_view() == purge_buffer(
                            pre.transactions.subrange(0, i as int),
                            block@.data.transactions,
                        ),
                    decreases self.transactions@.len() - i,
                {
                    let ghost done = pre.transactions.subrange(0, i as int);
                    let t = &self.transactions[i];
                    proof {
                        assert(t@ == pre.transactions[i as int]);
                        assert(pre.transactions.subrange(0, i + 1 as int) =~= done.push(t@));
                        lemma_purge_snoc(done, t@, block@.data.transactions);
                    }
                    if !tx_list_contains_id(&block.data.transactions, &t.identifier) {
                        let ghost kd = kept.deep_view();
                        let t2 = t.clone();
                        proof {
                            assert(t2.deep_view() == t@);
                        }
                        kept.push(t2);
                        proof {
                            assert(kept.deep_view() =~= kd.push(t@));
                            assert(kd.push(t@) =~= kd + seq![t@]);
                        }
                    } else {
                        proof {
                            assert(kept.deep_view() =~= purge_buffer(
                                pre.transactions.subrange(0, i + 1 as int),
                                block@.data.transactions,
                            ));
                        }
                    }
                    i = i + 1;
                }
                proof {
                    assert(pre.transactions.subrange(0, pre.transactions.len() as int)
                        =~= pre.transactions);
                }
                self.transactions = kept;
                proof {
                    lemma_purge_keeps(pre.transactions, block@.data.transactions);
                }
                let is_added = self.chain.add_block(block);
                if is_added {
                    Message::BlockAccept
                } else {
                    Message::BlockDuplicated
                }
            },
            Message::BlockAccept => Message::Nothing,
            Message::BlockDuplicated => Message::Nothing,
            Message::ChainRequest => Message::ChainResponse(self.chain.clone()),
            Message::ChainResponse(chain) => {
                self.replace_chain(chain);
                Message::ChainAccept
            },
            Message::ChainAccept => Message::Nothing,
            Message::OpenVote => {
                self.on_transaction_receive(Transaction::new_voting_opened());
                Message::OpenVoteAccept
            },
            Message::OpenVoteAccept => Message::Nothing,
            Message::CloseVote => {
                self.on_transaction_receive(Transaction::new_voting_closed());
                Message::CloseVoteAccept
            },
            Message::CloseVoteAccept => Message::Nothing,
            Message::RequestTally => Message::Nothing,
            Message::RequestTallyPayload(_) => Message::Nothing,
            Message::FindTransaction(identifier) => {
                let found_trx = self.find_transaction(identifier);
                Message::FindTransactionResponse(found_trx)
            },
            Message::FindTransactionResponse(_) => Message::Nothing,
        }
    }

    /// Handle a message received on the RPC interface: the first returned
    /// message is the reply to the client, the second is to be broadcast
    /// to all other known peers.
    pub fn handle_rpc(&mut self, message: Message) -> (r: Option<(Message, Message)>)
        requires
            old(self)@.wf(),
        ensures
            final(self)@ == spec_handle_rpc(old(self)@, message@).0,
            match r {
                Option::Some((reply, broadcast)) => spec_handle_rpc(old(self)@, message@).1
                    == Option::Some((reply@, broadcast@)),
                Option::None => spec_handle_rpc(old(self)@, message@).1 is None,
            },
            final(self)@.wf(),
    {
        match message {
            Message::TransactionPayload(transaction) => {
                let identifier = transaction.identifier.clone();
                let copy = transaction.clone();
                self.on_transaction_receive(transaction);
                Some(
                    (Message::TransactionAccept(identifier), Message::TransactionPayload(copy)),
                )
            },
            Message::ChainRequest => Some(
                (Message::ChainResponse(self.chain.clone()), Message::Nothing),
            ),
            Message::OpenVote => {
                self.on_transaction_receive(Transaction::new_voting_opened());
                Some((Message::OpenVoteAccept, Message::OpenVote))
            },
            Message::CloseVote => {
                self.on_transaction_receive(Transaction::new_voting_closed());
                Some((Message::CloseVoteAccept, Message::CloseVote))
            },
            Message::RequestTally => {
                let final_tally = self.calculate_result();
                Some((Message::RequestTallyPayload(final_tally), Message::Nothing))
            },
            _ => None,
        }
    }
}

} // verus!
