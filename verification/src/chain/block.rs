//! A block of the blockchain: its content — parent identifier, timestamp
//! and transactions — and the identifier built as the digest of that
//! content.  Blocks are value objects: produced once, never mutated.

use vstd::prelude::*;

verus! {

use crate::chain::transaction::enc_txdata;
use crate::chain::transaction::ttype_tag;
use crate::chain::transaction::Transaction;
use crate::chain::transaction::TransactionView;
use crate::encoding::enc_str;
use crate::encoding::enc_u64;
use crate::encoding::write_str;
use crate::encoding::write_u64;
use crate::hashing::sha1_hex;
use crate::hashing::sha1_hex_of;

/// The content of a block.  All contained fields are hashed and make up
/// the identifier of the block.
#[derive(Debug, PartialEq, Eq)]
pub struct BlockContent {
    pub parent: String,
    pub timestamp: u64,
    pub transactions: Vec<Transaction>,
}

/// A block: its identifier and the content the identifier is built from.
#[derive(Debug, PartialEq, Eq)]
pub struct Block {
    pub identifier: String,
    pub data: BlockContent,
}

pub struct BlockContentView {
    pub parent: Seq<char>,
    pub timestamp: u64,
    pub transactions: Seq<TransactionView>,
}

pub struct BlockView {
    pub identifier: Seq<char>,
    pub data: BlockContentView,
}

impl View for BlockContent {
    type V = BlockContentView;

    open spec fn view(&self) -> BlockContentView {
        BlockContentView {
            parent: self.parent@,
            timestamp: self.timestamp,
            transactions: self.transactions.deep_view(),
        }
    }
}

impl View for Block {
    type V = BlockView;

    open spec fn view(&self) -> BlockView {
        BlockView { identifier: self.identifier@, data: self.data@ }
    }
}

impl DeepView for Block {
    type V = BlockView;

    open spec fn deep_view(&self) -> BlockView {
        self@
    }
}

/// The canonical text of one transaction.
pub open spec fn enc_transaction(t: TransactionView) -> Seq<char> {
    enc_str(t.identifier) + enc_u64(ttype_tag(t.trx_type)) + match t.data {
        Option::Some(d) => enc_u64(1) + enc_txdata(d),
        Option::None => enc_u64(0),
    }
}

/// The canonical text of a row of transactions.
pub open spec fn enc_tx_run(ts: Seq<TransactionView>) -> Seq<char>
    decreases ts.len(),
{
    if ts.len() == 0 {
        Seq::empty()
    } else {
        enc_transaction(ts[0]) + enc_tx_run(ts.subrange(1, ts.len() as int))
    }
}

/// The canonical text of a transaction list: its length, then its entries.
pub open spec fn enc_tx_list(ts: Seq<TransactionView>) -> Seq<char> {
    enc_u64(ts.len() as int) + enc_tx_run(ts)
}

/// The canonical text of a block's content: the text a block's identifier
/// is the digest of.
pub open spec fn enc_content(c: BlockContentView) -> Seq<char> {
    enc_str(c.parent) + enc_u64(c.timestamp as int) + enc_tx_list(c.transactions)
}

pub proof fn lemma_enc_tx_run_snoc(ts: Seq<TransactionView>, t: TransactionView)
    ensures
        enc_tx_run(ts.push(t)) == enc_tx_run(ts) + enc_transaction(t),
    decreases ts.len(),
{
    if ts.len() == 0 {
        assert(ts.push(t).subrange(1, 1) =~= Seq::<TransactionView>::empty());
        assert(enc_tx_run(Seq::<TransactionView>::empty()) == Seq::<char>::empty());
        assert(ts =~= Seq::<TransactionView>::empty());
        assert(enc_tx_run(ts.push(t)) == enc_transaction(t) + Seq::<char>::empty());
        assert(enc_tx_run(ts.push(t)) =~= enc_tx_run(ts) + enc_transaction(t));
    } else {
        let tail = ts.subrange(1, ts.len() as int);
        let all = ts.push(t);
        assert(all[0] == ts[0]);
        assert(all.subrange(1, all.len() as int) =~= tail.push(t));
        lemma_enc_tx_run_snoc(tail, t);
        assert(enc_tx_run(all) == enc_transaction(ts[0]) + (enc_tx_run(tail) + enc_transaction(t)));
        assert(enc_transaction(ts[0]) + (enc_tx_run(tail) + enc_transaction(t)) =~= (enc_transaction(
            ts[0],
        ) + enc_tx_run(tail)) + enc_transaction(t));
        assert(enc_tx_run(ts) == enc_transaction(ts[0]) + enc_tx_run(tail));
    }
}

/// Append one transaction in its canonical text form.
pub(crate) fn write_transaction(out: &mut String, t: &Transaction)
    ensures
        final(out)@ == old(out)@ + enc_transaction(t@),
{
    write_str(out, t.identifier.as_str());
    let tag: u64 = match t.trx_type {
        crate::chain::transaction::TransactionType::Vote => 0,
        crate::chain::transaction::TransactionType::VoteOpened => 1,
        crate::chain::transaction::TransactionType::VoteClosed => 2,
    };
    write_u64(out, tag);
    match &t.data {
        Some(d) => {
            write_u64(out, 1);
            crate::chain::transaction::write_txdata(out, d);
        },
        None => {
            write_u64(out, 0);
        },
    }
    assert(out@ =~= old(out)@ + enc_transaction(t@));
}

/// Append a transaction list in its canonical text form.
pub(crate) fn write_tx_list(out: &mut String, ts: &Vec<Transaction>)
    ensures
        final(out)@ == old(out)@ + enc_tx_list(ts.deep_view()),
{
    write_u64(out, ts.len() as u64);
    let ghost start = out@;
    let ghost dl = ts.deep_view();
    proof {
        assert(dl.len() == ts@.len());
    }
    let mut i: usize = 0;
    while i < ts.len()
        invariant
            i <= ts@.len(),
            dl == ts.deep_view(),
            dl.len() == ts@.len(),
            out@ == start + enc_tx_run(dl.subrange(0, i as int)),
        decreases ts@.len() - i,
    {
        write_transaction(out, &ts[i]);
        proof {
            assert(dl[i as int] == ts@[i as int]@);
            assert(dl.subrange(0, i + 1 as int) =~= dl.subrange(0, i as int).push(dl[i as int]));
            lemma_enc_tx_run_snoc(dl.subrange(0, i as int), dl[i as int]);
            assert(out@ =~= start + enc_tx_run(dl.subrange(0, i + 1 as int)));
        }
        i = i + 1;
    }
    proof {
        assert(dl.subrange(0, dl.len() as int) =~= dl);
        assert(out@ =~= old(out)@ + enc_tx_list(dl));
    }
}

impl BlockView {
    /// The identifier is the digest of the canonical text of the content.
    pub open spec fn identifier_valid(self) -> bool {
        self.identifier == sha1_hex_of(enc_content(self.data))
    }
}

impl Block {
    /// Create a new block from the hash of the previous block, the
    /// transactions it seals, and the time of its creation in seconds
    /// since the epoch.  The identifier is the digest of exactly these
    /// three fields, so a block re-built from its own content gets its
    /// own identifier back.
    pub fn new(previous_hash: String, transactions: Vec<Transaction>, timestamp: u64) -> (b: Block)
        ensures
            b@.data.parent == previous_hash@,
            b@.data.timestamp == timestamp,
            b@.data.transactions == transactions.deep_view(),
            b@.identifier_valid(),
            b@.identifier.len() == 40,
    {
        let content = BlockContent { parent: previous_hash, timestamp, transactions };
        let mut preimage = String::new();
        write_str(&mut preimage, content.parent.as_str());
        write_u64(&mut preimage, content.timestamp);
        write_tx_list(&mut preimage, &content.transactions);
        assert(preimage@ =~= enc_content(content@));
        let digest = sha1_hex(preimage.as_str());
        Block { identifier: digest, data: content }
    }

    /// Recompute the digest of this block's content.  For a block built by
    /// `Block::new` this returns the block's own identifier.
    pub fn content_digest(&self) -> (r: String)
        ensures
            r@ == sha1_hex_of(enc_content(self@.data)),
    {
        let mut preimage = String::new();
        write_str(&mut preimage, self.data.parent.as_str());
        write_u64(&mut preimage, self.data.timestamp);
        write_tx_list(&mut preimage, &self.data.transactions);
        assert(preimage@ =~= enc_content(self@.data));
        sha1_hex(preimage.as_str())
    }
}

impl Clone for BlockContent {
    fn clone(&self) -> (r: Self)
        ensures
            r@ == self@,
    {
        let mut txs: Vec<Transaction> = Vec::new();
        let mut i: usize = 0;
        while i < self.transactions.len()
            invariant
                i <= self.transactions@.len(),
                txs@.len() == i,
                self.transactions.deep_view().len() == self.transactions@.len(),
                txs.deep_view() == self.transactions.deep_view().subrange(0, i as int),
            decreases self.transactions@.len() - i,
        {
            let ghost pre = txs@;
            let ghost pre_deep = txs.deep_view();
            let t2 = self.transactions[i].clone();
            proof {
                assert(t2@ == self.transactions@[i as int]@);
                assert(t2.deep_view() == self.transactions.deep_view()[i as int]);
            }
            txs.push(t2);
            proof {
                assert(txs@ == pre.push(t2));
                assert(txs.deep_view().len() == i + 1);
                assert forall|k: int|
                    0 <= k <= i implies txs.deep_view()[k] == self.transactions.deep_view()[k] by {
                    assert(txs.deep_view()[k] == txs@[k].deep_view());
                    if k < i {
                        assert(txs@[k] == pre[k]);
                        assert(pre_deep[k] == pre[k].deep_view());
                        assert(pre_deep[k] == self.transactions.deep_view().subrange(
                            0,
                            i as int,
                        )[k]);
                    } else {
                        assert(txs@[k] == t2);
                    }
                }
                assert(txs.deep_view() =~= self.transactions.deep_view().subrange(
                    0,
                    i + 1 as int,
                ));
            }
            i = i + 1;
        }
        proof {
            assert(self.transactions.deep_view().subrange(
                0,
                self.transactions.deep_view().len() as int,
            ) =~= self.transactions.deep_view());
        }
        let r = BlockContent {
            parent: self.parent.clone(),
            timestamp: self.timestamp,
            transactions: txs,
        };
        assert(r@ == self@);
        r
    }
}

impl Clone for Block {
    fn clone(&self) -> (r: Self)
        ensures
            r@ == self@,
    {
        Block { identifier: self.identifier.clone(), data: self.data.clone() }
    }
}

} // verus!
