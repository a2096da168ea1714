//! Visitors: the per-block computations a chain walker drives.
//!
//! A visitor states abstractly, through `ready` and `stepped`, when it may
//! be invoked and what one invocation does to its state; walkers promise
//! their whole walk in those terms, so that traversal order and per-block
//! work stay independent.

use vstd::prelude::*;

verus! {

use crate::chain::block::Block;
use crate::chain::block::BlockView;
use crate::chain::transaction::Transaction;
use crate::chain::transaction::TransactionType;
use crate::chain::transaction::TransactionView;
use crate::crypto::combine_bytes;
use crate::crypto::zero_cipher_bytes;
use crate::crypto::CipherText;
use crate::crypto::PublicKey;

/// A per-block computation, invoked by a chain walker with a block and
/// that block's height.
pub trait ChainVisitor: View + Sized {
    /// When the visitor may be invoked.
    spec fn ready(v: Self::V, height: int, block: BlockView) -> bool;

    /// What one invocation does to the visitor's state.
    spec fn stepped(v: Self::V, height: int, block: BlockView) -> Self::V;

    /// Visit a particular block at the given height.
    fn visit_block(&mut self, height: usize, block: &Block)
        requires
            Self::ready(old(self)@, height as int, block@),
        ensures
            final(self)@ == Self::stepped(old(self)@, height as int, block@),
    ;
}

/// Records the single heaviest block it is invoked with.  Invoking it a
/// second time is a programmer error, so it refuses to be visited again.
pub struct HeaviestBlockVisitor {
    /// The height of the heaviest block, once visited.
    pub height: Option<usize>,
    /// The identifier of the heaviest block, once visited.
    pub heaviest_block: Option<String>,
}

pub struct HeaviestBlockVisitorView {
    pub height: Option<int>,
    pub heaviest_block: Option<Seq<char>>,
}

impl View for HeaviestBlockVisitor {
    type V = HeaviestBlockVisitorView;

    open spec fn view(&self) -> HeaviestBlockVisitorView {
        HeaviestBlockVisitorView {
            height: match self.height {
                Option::Some(h) => Option::Some(h as int),
                Option::None => Option::None,
            },
            heaviest_block: match self.heaviest_block {
                Option::Some(ref id) => Option::Some(id@),
                Option::None => Option::None,
            },
        }
    }
}

impl HeaviestBlockVisitor {
    /// A visitor that has not been invoked yet.
    pub fn new() -> (v: HeaviestBlockVisitor)
        ensures
            v@.height is None,
            v@.heaviest_block is None,
    {
        HeaviestBlockVisitor { height: None, heaviest_block: None }
    }
}

impl ChainVisitor for HeaviestBlockVisitor {
    /// The visitor accepts exactly one invocation.
    open spec fn ready(v: HeaviestBlockVisitorView, height: int, block: BlockView) -> bool {
        v.height is None && v.heaviest_block is None
    }

    open spec fn stepped(
        v: HeaviestBlockVisitorView,
        height: int,
        block: BlockView,
    ) -> HeaviestBlockVisitorView {
        HeaviestBlockVisitorView {
            height: Option::Some(height),
            heaviest_block: Option::Some(block.identifier),
        }
    }

    fn visit_block(&mut self, height: usize, block: &Block) {
        self.height = Some(height);
        self.heaviest_block = Some(block.identifier.clone());
    }
}

/// What one transaction does to a running tally.  The walk reaches newer
/// blocks first, so a vote counts only when the closing sentinel was
/// already seen on a newer block, and only once per voter.  A vote without
/// its payload attests nothing and counts for nothing.
pub open spec fn tally_tx_step(v: SumCipherTextVisitorView, t: TransactionView) -> SumCipherTextVisitorView {
    match t.trx_type {
        TransactionType::VoteOpened => SumCipherTextVisitorView { opened: true, ..v },
        TransactionType::VoteClosed => SumCipherTextVisitorView { closed: true, ..v },
        TransactionType::Vote => match t.data {
            Option::Some(d) => {
                if v.closed && !v.seen.contains(d.voter_idx) {
                    SumCipherTextVisitorView {
                        sum: combine_bytes(v.sum, d.cipher_text),
                        seen: v.seen.push(d.voter_idx),
                        ..v
                    }
                } else {
                    v
                }
            },
            Option::None => v,
        },
    }
}

/// What one block does to a running tally: its transactions, newest first.
pub open spec fn tally_block_step(
    v: SumCipherTextVisitorView,
    ts: Seq<TransactionView>,
) -> SumCipherTextVisitorView
    decreases ts.len(),
{
    if ts.len() == 0 {
        v
    } else {
        tally_block_step(tally_tx_step(v, ts.last()), ts.drop_last())
    }
}

/// What a finished tally reports: the count and the combined ciphertext if
/// the voting was ever opened, and zero votes with the encryption of zero
/// otherwise.
pub open spec fn tally_outcome(v: SumCipherTextVisitorView) -> (int, Seq<u8>) {
    if v.opened {
        (v.seen.len() as int, v.sum)
    } else {
        (0, v.zero)
    }
}

/// Sums up the vote ciphertexts found between the closing and opening
/// sentinels, walking from the leaf towards the genesis block, counting
/// each voter once.
pub struct SumCipherTextVisitor {
    sum_cipher_text: CipherText,
    zero_cipher_text: CipherText,
    is_voting_opened: bool,
    is_voting_closed: bool,
    traversed_vote_idx: Vec<usize>,
}

pub struct SumCipherTextVisitorView {
    pub sum: Seq<u8>,
    pub zero: Seq<u8>,
    pub opened: bool,
    pub closed: bool,
    pub seen: Seq<int>,
}

impl View for SumCipherTextVisitor {
    type V = SumCipherTextVisitorView;

    closed spec fn view(&self) -> SumCipherTextVisitorView {
        SumCipherTextVisitorView {
            sum: self.sum_cipher_text@,
            zero: self.zero_cipher_text@,
            opened: self.is_voting_opened,
            closed: self.is_voting_closed,
            seen: self.traversed_vote_idx@.map_values(|x: usize| x as int),
        }
    }
}

impl SumCipherTextVisitor {
    /// A fresh tally for the election under the given public key.  It
    /// starts from the encryption of zero, with both sentinels unseen.
    /// (In this model of the suite the encryption of zero is the same
    /// value under every key.)
    pub fn new(public_key: PublicKey) -> (v: SumCipherTextVisitor)
        ensures
            v@.sum == zero_cipher_bytes(),
            v@.zero == zero_cipher_bytes(),
            !v@.opened,
            !v@.closed,
            v@.seen == Seq::<int>::empty(),
    {
        let _ = public_key;
        let v = SumCipherTextVisitor {
            sum_cipher_text: CipherText::encryption_of_zero(),
            zero_cipher_text: CipherText::encryption_of_zero(),
            is_voting_opened: false,
            is_voting_closed: false,
            traversed_vote_idx: Vec::new(),
        };
        proof {
            assert(v@.seen =~= Seq::<int>::empty());
        }
        v
    }

    /// The tally so far: the number of counted votes and their combined
    /// ciphertext, or zero votes and the encryption of zero when the
    /// voting was never opened.
    pub fn get_votes(&self) -> (r: (usize, CipherText))
        ensures
            r.0 as int == tally_outcome(self@).0,
            r.1@ == tally_outcome(self@).1,
    {
        if self.is_voting_opened {
            (self.traversed_vote_idx.len(), self.sum_cipher_text.clone())
        } else {
            (0, self.zero_cipher_text.clone())
        }
    }
}

/// Whether a voter index was already counted.
fn seen_contains(v: &Vec<usize>, x: usize) -> (r: bool)
    ensures
        r == v@.map_values(|y: usize| y as int).contains(x as int),
{
    let ghost mapped = v@.map_values(|y: usize| y as int);
    let mut i: usize = 0;
    while i < v.len()
        invariant
            i <= v@.len(),
            mapped == v@.map_values(|y: usize| y as int),
            mapped.len() == v@.len(),
            forall|j: int| 0 <= j < i ==> mapped[j] != x as int,
        decreases v@.len() - i,
    {
        if v[i] == x {
            assert(mapped[i as int] == x as int);
            return true;
        }
        assert(mapped[i as int] == v@[i as int] as int);
        i = i + 1;
    }
    assert(!mapped.contains(x as int));
    false
}

impl ChainVisitor for SumCipherTextVisitor {
    /// The tally accepts any sequence of invocations.
    open spec fn ready(v: SumCipherTextVisitorView, height: int, block: BlockView) -> bool {
        true
    }

    open spec fn stepped(
        v: SumCipherTextVisitorView,
        height: int,
        block: BlockView,
    ) -> SumCipherTextVisitorView {
        tally_block_step(v, block.data.transactions)
    }

    fn visit_block(&mut self, height: usize, block: &Block) {
        let ghost ts = block@.data.transactions;
        let ghost start = self@;
        proof {
            assert(ts.subrange(0, ts.len() as int) =~= ts);
        }
        let mut k: usize = block.data.transactions.len();
        while k > 0
            invariant
                k <= block.data.transactions@.len(),
                ts == block@.data.transactions,
                ts.len() == block.data.transactions@.len(),
                tally_block_step(self@, ts.subrange(0, k as int)) == tally_block_step(start, ts),
            decreases k,
        {
            k = k - 1;
            let ghost pre = self@;
            let ghost chunk = ts.subrange(0, k + 1 as int);
            let t = &block.data.transactions[k];
            proof {
                assert(t@ == ts[k as int]);
                assert(chunk.last() == ts[k as int]);
                assert(chunk.drop_last() =~= ts.subrange(0, k as int));
                assert(tally_block_step(pre, chunk) == tally_block_step(
                    tally_tx_step(pre, t@),
                    ts.subrange(0, k as int),
                ));
            }
            match t.trx_type {
                TransactionType::VoteOpened => {
                    self.is_voting_opened = true;
                    assert(self@ == tally_tx_step(pre, t@));
                },
                TransactionType::VoteClosed => {
                    self.is_voting_closed = true;
                    assert(self@ == tally_tx_step(pre, t@));
                },
                TransactionType::Vote => {
                    match &t.data {
                        Some(d) => {
                            if self.is_voting_closed && !seen_contains(
                                &self.traversed_vote_idx,
                                d.voter_idx,
                            ) {
                                self.sum_cipher_text = self.sum_cipher_text.operate(
                                    &d.cipher_text,
                                );
                                let ghost pre_seen = self.traversed_vote_idx@;
                                self.traversed_vote_idx.push(d.voter_idx);
                                proof {
                                    assert(self.traversed_vote_idx@ == pre_seen.push(d.voter_idx));
                                    assert(self@.seen =~= pre.seen.push(d.voter_idx as int));
                                    assert(self@ == tally_tx_step(pre, t@));
                                }
                            } else {
                                assert(self@ == tally_tx_step(pre, t@));
                            }
                        },
                        None => {
                            assert(self@ == tally_tx_step(pre, t@));
                        },
                    }
                },
            }
        }
        proof {
            assert(ts.subrange(0, 0) =~= Seq::<TransactionView>::empty());
            assert(tally_block_step(self@, ts.subrange(0, 0)) == self@);
        }
    }
}

/// Searches the visited blocks for a transaction with a particular
/// identifier, keeping the first hit.
pub struct FindTransactionVisitor {
    transaction_identifier: String,
    found_transaction: Option<Transaction>,
}

pub struct FindTransactionVisitorView {
    pub transaction_identifier: Seq<char>,
    pub found_transaction: Option<TransactionView>,
}

impl View for FindTransactionVisitor {
    type V = FindTransactionVisitorView;

    closed spec fn view(&self) -> FindTransactionVisitorView {
        FindTransactionVisitorView {
            transaction_identifier: self.transaction_identifier@,
            found_transaction: match self.found_transaction {
                Option::Some(ref t) => Option::Some(t@),
                Option::None => Option::None,
            },
        }
    }
}

/// The first transaction with the given identifier, in storage order.
pub open spec fn find_first_tx(ts: Seq<TransactionView>, id: Seq<char>) -> Option<TransactionView>
    decreases ts.len(),
{
    if ts.len() == 0 {
        Option::None
    } else if ts[0].identifier == id {
        Option::Some(ts[0])
    } else {
        find_first_tx(ts.subrange(1, ts.len() as int), id)
    }
}

impl FindTransactionVisitor {
    /// A visitor searching for the transaction with this identifier.
    pub fn new(trx_identifier: String) -> (v: FindTransactionVisitor)
        ensures
            v@.transaction_identifier == trx_identifier@,
            v@.found_transaction is None,
    {
        FindTransactionVisitor {
            transaction_identifier: trx_identifier,
            found_transaction: None,
        }
    }

    /// The found transaction, or nothing when no visited block held one.
    pub fn get_found_transaction(&self) -> (r: Option<Transaction>)
        ensures
            match r {
                Option::Some(t) => self@.found_transaction == Option::Some(t@),
                Option::None => self@.found_transaction is None,
            },
    {
        match &self.found_transaction {
            Some(t) => Some(t.clone()),
            None => None,
        }
    }
}

impl ChainVisitor for FindTransactionVisitor {
    /// The search accepts any sequence of invocations.
    open spec fn ready(v: FindTransactionVisitorView, height: int, block: BlockView) -> bool {
        true
    }

    open spec fn stepped(
        v: FindTransactionVisitorView,
        height: int,
        block: BlockView,
    ) -> FindTransactionVisitorView {
        if v.found_transaction is Some {
            v
        } else {
            FindTransactionVisitorView {
                found_transaction: find_first_tx(
                    block.data.transactions,
                    v.transaction_identifier,
                ),
                ..v
            }
        }
    }

    fn visit_block(&mut self, height: usize, block: &Block) {
        if self.found_transaction.is_some() {
            return ;
        }
        let ghost ts = block@.data.transactions;
        proof {
            assert(ts.subrange(0, ts.len() as int) =~= ts);
        }
        let mut j: usize = 0;
        while j < block.data.transactions.len()
            invariant
                j <= block.data.transactions@.len(),
                ts == block@.data.transactions,
                ts.len() == block.data.transactions@.len(),
                self.found_transaction is None,
                self@.transaction_identifier == old(self)@.transaction_identifier,
                self@ == old(self)@,
                find_first_tx(ts, self@.transaction_identifier) == find_first_tx(
                    ts.subrange(j as int, ts.len() as int),
                    self@.transaction_identifier,
                ),
            decreases ts.len() - j,
        {
            let t = &block.data.transactions[j];
            proof {
                assert(t@ == ts[j as int]);
                assert(ts.subrange(j as int, ts.len() as int)[0] == ts[j as int]);
            }
            if t.identifier.eq(&self.transaction_identifier) {
                self.found_transaction = Some(t.clone());
                proof {
                    assert(find_first_tx(
                        ts.subrange(j as int, ts.len() as int),
                        old(self)@.transaction_identifier,
                    ) == Option::Some(ts[j as int]));
                }
                return ;
            }
            proof {
                assert(ts.subrange(j as int, ts.len() as int).subrange(
                    1,
                    ts.len() - j as int,
                ) =~= ts.subrange(j + 1 as int, ts.len() as int));
            }
            j = j + 1;
        }
        proof {
            assert(ts.subrange(ts.len() as int, ts.len() as int) =~= Seq::<
                TransactionView,
            >::empty());
        }
    }
}

} // verus!
