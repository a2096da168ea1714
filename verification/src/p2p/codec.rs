//! The wire codec: the tagged union of peer messages and its symmetric
//! text form.
//!
//! A message encodes as its tag followed by its payload in the canonical
//! text form of `encoding`.  The reader is strict: it accepts exactly what
//! the writer produces — whole, with nothing trailing — and collapses
//! anything else to `Message::Nothing`, which every handler treats as a
//! no-op.

use vstd::prelude::*;

verus! {

use crate::chain::block::enc_content;
use crate::chain::block::enc_transaction;
use crate::chain::block::enc_tx_run;
use crate::chain::block::write_transaction;
use crate::chain::block::Block;
use crate::chain::block::BlockContent;
use crate::chain::block::BlockContentView;
use crate::chain::block::BlockView;
use crate::chain::chain::blocks_form_chain;
use crate::chain::chain::lemma_chain_determined;
use crate::chain::chain::lemma_wf_forms_chain;
use crate::chain::chain::Chain;
use crate::chain::chain::ChainView;
use crate::chain::transaction::enc_txdata;
use crate::chain::transaction::Transaction;
use crate::chain::transaction::TransactionData;
use crate::chain::transaction::TransactionDataView;
use crate::chain::transaction::TransactionType;
use crate::chain::transaction::TransactionView;
use crate::crypto::CaiProof;
use crate::crypto::CaiProofView;
use crate::crypto::CipherText;
use crate::crypto::MembershipProof;
use crate::crypto::MembershipProofView;
use crate::encoding::enc_byte_lists;
use crate::encoding::enc_bytes;
use crate::encoding::enc_str;
use crate::encoding::enc_u64;
use crate::encoding::lemma_sdec_enc_byte_lists;
use crate::encoding::lemma_sdec_enc_bytes;
use crate::encoding::lemma_sdec_enc_str;
use crate::encoding::lemma_sdec_enc_u64;
use crate::encoding::lemma_seg_split;
use crate::encoding::read_byte_lists;
use crate::encoding::read_bytes;
use crate::encoding::read_str;
use crate::encoding::read_u64;
use crate::encoding::sdec_byte_lists;
use crate::encoding::sdec_bytes;
use crate::encoding::sdec_str;
use crate::encoding::sdec_u64;
use crate::encoding::seg;
use crate::encoding::write_bytes;
use crate::encoding::write_str;
use crate::encoding::write_u64;
use crate::protocol::clique::Tally;
use crate::protocol::clique::TallyView;
use vstd::string::StrSliceExecFns;

/// Messages used to communicate information between nodes.
#[derive(Debug, PartialEq, Eq)]
pub enum Message {
    Ping,
    Pong,
    TransactionPayload(Transaction),
    TransactionAccept(String),
    BlockRequest(String),
    BlockPayload(Block),
    BlockAccept,
    BlockDuplicated,
    ChainRequest,
    ChainResponse(Chain),
    ChainAccept,
    OpenVote,
    OpenVoteAccept,
    CloseVote,
    CloseVoteAccept,
    RequestTally,
    RequestTallyPayload(Tally),
    FindTransaction(String),
    FindTransactionResponse(Option<Transaction>),
    Nothing,
}

pub enum MessageView {
    Ping,
    Pong,
    TransactionPayload(TransactionView),
    TransactionAccept(Seq<char>),
    BlockRequest(Seq<char>),
    BlockPayload(BlockView),
    BlockAccept,
    BlockDuplicated,
    ChainRequest,
    ChainResponse(ChainView),
    ChainAccept,
    OpenVote,
    OpenVoteAccept,
    CloseVote,
    CloseVoteAccept,
    RequestTally,
    RequestTallyPayload(TallyView),
    FindTransaction(Seq<char>),
    FindTransactionResponse(Option<TransactionView>),
    Nothing,
}

impl View for Message {
    type V = MessageView;

    open spec fn view(&self) -> MessageView {
        match self {
            Message::Ping => MessageView::Ping,
            Message::Pong => MessageView::Pong,
            Message::TransactionPayload(t) => MessageView::TransactionPayload(t@),
            Message::TransactionAccept(id) => MessageView::TransactionAccept(id@),
            Message::BlockRequest(id) => MessageView::BlockRequest(id@),
            Message::BlockPayload(b) => MessageView::BlockPayload(b@),
            Message::BlockAccept => MessageView::BlockAccept,
            Message::BlockDuplicated => MessageView::BlockDuplicated,
            Message::ChainRequest => MessageView::ChainRequest,
            Message::ChainResponse(c) => MessageView::ChainResponse(c@),
            Message::ChainAccept => MessageView::ChainAccept,
            Message::OpenVote => MessageView::OpenVote,
            Message::OpenVoteAccept => MessageView::OpenVoteAccept,
            Message::CloseVote => MessageView::CloseVote,
            Message::CloseVoteAccept => MessageView::CloseVoteAccept,
            Message::RequestTally => MessageView::RequestTally,
            Message::RequestTallyPayload(t) => MessageView::RequestTallyPayload(t@),
            Message::FindTransaction(id) => MessageView::FindTransaction(id@),
            Message::FindTransactionResponse(o) => MessageView::FindTransactionResponse(
                match o {
                    Option::Some(t) => Option::Some(t@),
                    Option::None => Option::None,
                },
            ),
            Message::Nothing => MessageView::Nothing,
        }
    }
}

/// The bounds within which a vote payload travels the wire.
pub open spec fn txdata_ok(d: TransactionDataView) -> bool {
    &&& 0 <= d.voter_idx <= usize::MAX as int
    &&& d.cipher_text.len() <= u64::MAX as int
    &&& d.membership_proof.key.len() <= u64::MAX as int
    &&& d.membership_proof.cipher_text.len() <= u64::MAX as int
    &&& d.cai_proof.key.len() <= u64::MAX as int
    &&& d.cai_proof.cipher_text.len() <= u64::MAX as int
    &&& d.cai_proof.images.len() <= u64::MAX as int
    &&& forall|i: int|
        0 <= i < d.cai_proof.images.len() ==> (#[trigger] d.cai_proof.images[i]).len()
            <= u64::MAX as int
}

/// The transactions that travel the wire: payload exactly on votes, and
/// everything within the wire's bounds.
pub open spec fn tx_ok(t: TransactionView) -> bool {
    &&& t.wf()
    &&& t.identifier.len() <= u64::MAX as int
    &&& match t.data {
        Option::Some(d) => txdata_ok(d),
        Option::None => true,
    }
}

/// The blocks that travel the wire.
pub open spec fn block_ok(b: BlockView) -> bool {
    &&& b.identifier.len() <= u64::MAX as int
    &&& b.data.parent.len() <= u64::MAX as int
    &&& b.data.transactions.len() <= u64::MAX as int
    &&& forall|i: int| 0 <= i < b.data.transactions.len() ==> tx_ok(#[trigger] b.data.transactions[i])
}

/// The chains that travel the wire: well-formed, within the wire's bounds.
pub open spec fn chain_ok(c: ChainView) -> bool {
    &&& c.wf()
    &&& c.genesis_configuration_hash.len() <= u64::MAX as int
    &&& c.blocks.len() <= u64::MAX as int
    &&& forall|i: int| 0 <= i < c.blocks.len() ==> block_ok(#[trigger] c.blocks[i])
}

/// The tallies that travel the wire.
pub open spec fn tally_ok(t: TallyView) -> bool {
    &&& 0 <= t.total_votes <= usize::MAX as int
    &&& t.cipher_text.len() <= u64::MAX as int
}

/// The messages that travel the wire: every embedded value well-formed
/// and within the wire's bounds.
pub open spec fn msg_ok(m: MessageView) -> bool {
    match m {
        MessageView::TransactionPayload(t) => tx_ok(t),
        MessageView::TransactionAccept(id) => id.len() <= u64::MAX as int,
        MessageView::BlockRequest(id) => id.len() <= u64::MAX as int,
        MessageView::BlockPayload(b) => block_ok(b),
        MessageView::ChainResponse(c) => chain_ok(c),
        MessageView::RequestTallyPayload(t) => tally_ok(t),
        MessageView::FindTransaction(id) => id.len() <= u64::MAX as int,
        MessageView::FindTransactionResponse(o) => match o {
            Option::Some(t) => tx_ok(t),
            Option::None => true,
        },
        _ => true,
    }
}

/// The number standing for a message's variant on the wire.
pub open spec fn msg_tag(m: MessageView) -> int {
    match m {
        MessageView::Ping => 0,
        MessageView::Pong => 1,
        MessageView::TransactionPayload(_) => 2,
        MessageView::TransactionAccept(_) => 3,
        MessageView::BlockRequest(_) => 4,
        MessageView::BlockPayload(_) => 5,
        MessageView::BlockAccept => 6,
        MessageView::BlockDuplicated => 7,
        MessageView::ChainRequest => 8,
        MessageView::ChainResponse(_) => 9,
        MessageView::ChainAccept => 10,
        MessageView::OpenVote => 11,
        MessageView::OpenVoteAccept => 12,
        MessageView::CloseVote => 13,
        MessageView::CloseVoteAccept => 14,
        MessageView::RequestTally => 15,
        MessageView::RequestTallyPayload(_) => 16,
        MessageView::FindTransaction(_) => 17,
        MessageView::FindTransactionResponse(_) => 18,
        MessageView::Nothing => 19,
    }
}

/// The canonical text of a tally.
pub open spec fn enc_tally(t: TallyView) -> Seq<char> {
    enc_u64(t.total_votes) + enc_bytes(t.cipher_text)
}

/// The canonical text of a block: its identifier, then its content.
pub open spec fn enc_block(b: BlockView) -> Seq<char> {
    enc_str(b.identifier) + enc_content(b.data)
}

/// The canonical text of a row of blocks.
pub open spec fn enc_block_run(bs: Seq<BlockView>) -> Seq<char>
    decreases bs.len(),
{
    if bs.len() == 0 {
        Seq::empty()
    } else {
        enc_block(bs[0]) + enc_block_run(bs.subrange(1, bs.len() as int))
    }
}

/// The canonical text of a chain: its configuration hash and its block
/// store in insertion order.  The parent links are not carried: the store
/// determines them.
pub open spec fn enc_chain(c: ChainView) -> Seq<char> {
    enc_str(c.genesis_configuration_hash) + enc_u64(c.blocks.len() as int) + enc_block_run(c.blocks)
}

/// The canonical text of an optional transaction.
pub open spec fn enc_opt_transaction(o: Option<TransactionView>) -> Seq<char> {
    match o {
        Option::Some(t) => enc_u64(1) + enc_transaction(t),
        Option::None => enc_u64(0),
    }
}

/// The canonical text of a message: its tag, then its payload.
pub open spec fn enc_message(m: MessageView) -> Seq<char> {
    enc_u64(msg_tag(m)) + match m {
        MessageView::TransactionPayload(t) => enc_transaction(t),
        MessageView::TransactionAccept(id) => enc_str(id),
        MessageView::BlockRequest(id) => enc_str(id),
        MessageView::BlockPayload(b) => enc_block(b),
        MessageView::ChainResponse(c) => enc_chain(c),
        MessageView::RequestTallyPayload(t) => enc_tally(t),
        MessageView::FindTransaction(id) => enc_str(id),
        MessageView::FindTransactionResponse(o) => enc_opt_transaction(o),
        _ => Seq::empty(),
    }
}

/// What the strict reader yields for a vote payload.
pub open spec fn sdec_txdata(s: Seq<char>, pos: int) -> Option<(TransactionDataView, int)> {
    match sdec_u64(s, pos) {
        Option::None => Option::None,
        Option::Some((v, p1)) => if v > usize::MAX as int {
            Option::None
        } else {
            match sdec_bytes(s, p1) {
                Option::None => Option::None,
                Option::Some((ct, p2)) => match sdec_bytes(s, p2) {
                    Option::None => Option::None,
                    Option::Some((mk, p3)) => match sdec_bytes(s, p3) {
                        Option::None => Option::None,
                        Option::Some((mc, p4)) => match sdec_bytes(s, p4) {
                            Option::None => Option::None,
                            Option::Some((ck, p5)) => match sdec_bytes(s, p5) {
                                Option::None => Option::None,
                                Option::Some((cc, p6)) => match sdec_byte_lists(s, p6) {
                                    Option::None => Option::None,
                                    Option::Some((im, p7)) => Option::Some(
                                        (
                                            TransactionDataView {
                                                voter_idx: v,
                                                cipher_text: ct,
                                                membership_proof: MembershipProofView {
                                                    key: mk,
                                                    cipher_text: mc,
                                                },
                                                cai_proof: CaiProofView {
                                                    key: ck,
                                                    cipher_text: cc,
                                                    images: im,
                                                },
                                            },
                                            p7,
                                        ),
                                    ),
                                },
                            },
                        },
                    },
                },
            }
        },
    }
}

/// What the strict reader yields for a transaction: its payload flag must
/// match its kind.
pub open spec fn sdec_transaction(s: Seq<char>, pos: int) -> Option<(TransactionView, int)> {
    match sdec_str(s, pos) {
        Option::None => Option::None,
        Option::Some((id, p1)) => match sdec_u64(s, p1) {
            Option::None => Option::None,
            Option::Some((tag, p2)) => match sdec_u64(s, p2) {
                Option::None => Option::None,
                Option::Some((flag, p3)) => {
                    if tag == 0 && flag == 1 {
                        match sdec_txdata(s, p3) {
                            Option::None => Option::None,
                            Option::Some((d, p4)) => Option::Some(
                                (
                                    TransactionView {
                                        identifier: id,
                                        trx_type: TransactionType::Vote,
                                        data: Option::Some(d),
                                    },
                                    p4,
                                ),
                            ),
                        }
                    } else if tag == 1 && flag == 0 {
                        Option::Some(
                            (
                                TransactionView {
                                    identifier: id,
                                    trx_type: TransactionType::VoteOpened,
                                    data: Option::None,
                                },
                                p3,
                            ),
                        )
                    } else if tag == 2 && flag == 0 {
                        Option::Some(
                            (
                                TransactionView {
                                    identifier: id,
                                    trx_type: TransactionType::VoteClosed,
                                    data: Option::None,
                                },
                                p3,
                            ),
                        )
                    } else {
                        Option::None
                    }
                },
            },
        },
    }
}

/// What the strict reader yields for `n` transactions in a row.
pub open spec fn sdec_tx_run(s: Seq<char>, pos: int, n: int) -> Option<(Seq<TransactionView>, int)>
    decreases n,
{
    if n <= 0 {
        Some((Seq::empty(), pos))
    } else {
        match sdec_transaction(s, pos) {
            Option::None => Option::None,
            Option::Some((t, p)) => match sdec_tx_run(s, p, n - 1) {
                Option::None => Option::None,
                Option::Some((rest, p2)) => Option::Some((seq![t] + rest, p2)),
            },
        }
    }
}

/// What the strict reader yields for a block.
pub open spec fn sdec_block(s: Seq<char>, pos: int) -> Option<(BlockView, int)> {
    match sdec_str(s, pos) {
        Option::None => Option::None,
        Option::Some((id, p1)) => match sdec_str(s, p1) {
            Option::None => Option::None,
            Option::Some((parent, p2)) => match sdec_u64(s, p2) {
                Option::None => Option::None,
                Option::Some((ts, p3)) => match sdec_u64(s, p3) {
                    Option::None => Option::None,
                    Option::Some((n, p4)) => match sdec_tx_run(s, p4, n) {
                        Option::None => Option::None,
                        Option::Some((txs, p5)) => Option::Some(
                            (
                                BlockView {
                                    identifier: id,
                                    data: BlockContentView {
                                        parent: parent,
                                        timestamp: ts as u64,
                                        transactions: txs,
                                    },
                                },
                                p5,
                            ),
                        ),
                    },
                },
            },
        },
    }
}

/// What the strict reader yields for `n` blocks in a row.
pub open spec fn sdec_block_run(s: Seq<char>, pos: int, n: int) -> Option<(Seq<BlockView>, int)>
    decreases n,
{
    if n <= 0 {
        Some((Seq::empty(), pos))
    } else {
        match sdec_block(s, pos) {
            Option::None => Option::None,
            Option::Some((b, p)) => match sdec_block_run(s, p, n - 1) {
                Option::None => Option::None,
                Option::Some((rest, p2)) => Option::Some((seq![b] + rest, p2)),
            },
        }
    }
}

/// The position of the parent of block `i` within a block sequence.
pub open spec fn spec_parent_idx(bs: Seq<BlockView>, i: int) -> int {
    if i == 0 {
        0
    } else {
        choose|j: int| 0 <= j < i && (#[trigger] bs[j]).identifier == bs[i].data.parent
    }
}

/// The unique chain a block sequence rebuilds into.
pub open spec fn spec_chain_of(hash: Seq<char>, bs: Seq<BlockView>) -> ChainView {
    ChainView {
        genesis_configuration_hash: hash,
        genesis_identifier_hash: bs[0].identifier,
        blocks: bs,
        parent_index: Seq::new(bs.len(), |i: int| spec_parent_idx(bs, i)),
    }
}

/// A rebuilt chain is well-formed.
pub proof fn lemma_spec_chain_of_wf(hash: Seq<char>, bs: Seq<BlockView>)
    requires
        blocks_form_chain(bs),
    ensures
        spec_chain_of(hash, bs).wf(),
{
    let c = spec_chain_of(hash, bs);
    assert forall|i: int| 1 <= i < c.len() implies 0 <= #[trigger] c.parent_index[i] < i by {
        assert(exists|j: int|
            0 <= j < i && (#[trigger] bs[j]).identifier == (#[trigger] bs[i]).data.parent);
    }
    assert forall|i: int|
        1 <= i < c.len() implies (#[trigger] c.blocks[i]).data.parent
        == c.blocks[c.parent_index[i]].identifier by {
        assert(exists|j: int|
            0 <= j < i && (#[trigger] bs[j]).identifier == (#[trigger] bs[i]).data.parent);
    }
}

/// What the strict reader yields for a chain: the rebuilt store, refused
/// unless it forms a chain.
pub open spec fn sdec_chain(s: Seq<char>, pos: int) -> Option<(ChainView, int)> {
    match sdec_str(s, pos) {
        Option::None => Option::None,
        Option::Some((hash, p1)) => match sdec_u64(s, p1) {
            Option::None => Option::None,
            Option::Some((n, p2)) => match sdec_block_run(s, p2, n) {
                Option::None => Option::None,
                Option::Some((bs, p3)) => if blocks_form_chain(bs) {
                    Option::Some((spec_chain_of(hash, bs), p3))
                } else {
                    Option::None
                },
            },
        },
    }
}

/// What the strict reader yields for a tally.
pub open spec fn sdec_tally(s: Seq<char>, pos: int) -> Option<(TallyView, int)> {
    match sdec_u64(s, pos) {
        Option::None => Option::None,
        Option::Some((v, p1)) => if v > usize::MAX as int {
            Option::None
        } else {
            match sdec_bytes(s, p1) {
                Option::None => Option::None,
                Option::Some((ct, p2)) => Option::Some(
                    (TallyView { total_votes: v, cipher_text: ct }, p2),
                ),
            }
        },
    }
}

/// What the strict reader yields for an optional transaction.
pub open spec fn sdec_opt_transaction(s: Seq<char>, pos: int) -> Option<
    (Option<TransactionView>, int),
> {
    match sdec_u64(s, pos) {
        Option::None => Option::None,
        Option::Some((flag, p1)) => if flag == 0 {
            Option::Some((Option::None, p1))
        } else if flag == 1 {
            match sdec_transaction(s, p1) {
                Option::None => Option::None,
                Option::Some((t, p2)) => Option::Some((Option::Some(t), p2)),
            }
        } else {
            Option::None
        },
    }
}

/// What the strict reader yields for a message at `pos`.
pub open spec fn sdec_message(s: Seq<char>, pos: int) -> Option<(MessageView, int)> {
    match sdec_u64(s, pos) {
        Option::None => Option::None,
        Option::Some((tag, p)) => {
            if tag == 0 {
                Option::Some((MessageView::Ping, p))
            } else if tag == 1 {
                Option::Some((MessageView::Pong, p))
            } else if tag == 2 {
                match sdec_transaction(s, p) {
                    Option::None => Option::None,
                    Option::Some((t, p2)) => Option::Some((MessageView::TransactionPayload(t), p2)),
                }
            } else if tag == 3 {
                match sdec_str(s, p) {
                    Option::None => Option::None,
                    Option::Some((id, p2)) => Option::Some((MessageView::TransactionAccept(id), p2)),
                }
            } else if tag == 4 {
                match sdec_str(s, p) {
                    Option::None => Option::None,
                    Option::Some((id, p2)) => Option::Some((MessageView::BlockRequest(id), p2)),
                }
            } else if tag == 5 {
                match sdec_block(s, p) {
                    Option::None => Option::None,
                    Option::Some((b, p2)) => Option::Some((MessageView::BlockPayload(b), p2)),
                }
            } else if tag == 6 {
                Option::Some((MessageView::BlockAccept, p))
            } else if tag == 7 {
                Option::Some((MessageView::BlockDuplicated, p))
            } else if tag == 8 {
                Option::Some((MessageView::ChainRequest, p))
            } else if tag == 9 {
                match sdec_chain(s, p) {
                    Option::None => Option::None,
                    Option::Some((c, p2)) => Option::Some((MessageView::ChainResponse(c), p2)),
                }
            } else if tag == 10 {
                Option::Some((MessageView::ChainAccept, p))
            } else if tag == 11 {
                Option::Some((MessageView::OpenVote, p))
            } else if tag == 12 {
                Option::Some((MessageView::OpenVoteAccept, p))
            } else if tag == 13 {
                Option::Some((MessageView::CloseVote, p))
            } else if tag == 14 {
                Option::Some((MessageView::CloseVoteAccept, p))
            } else if tag == 15 {
                Option::Some((MessageView::RequestTally, p))
            } else if tag == 16 {
                match sdec_tally(s, p) {
                    Option::None => Option::None,
                    Option::Some((t, p2)) => Option::Some((MessageView::RequestTallyPayload(t), p2)),
                }
            } else if tag == 17 {
                match sdec_str(s, p) {
                    Option::None => Option::None,
                    Option::Some((id, p2)) => Option::Some((MessageView::FindTransaction(id), p2)),
                }
            } else if tag == 18 {
                match sdec_opt_transaction(s, p) {
                    Option::None => Option::None,
                    Option::Some((o, p2)) => Option::Some(
                        (MessageView::FindTransactionResponse(o), p2),
                    ),
                }
            } else if tag == 19 {
                Option::Some((MessageView::Nothing, p))
            } else {
                Option::None
            }
        },
    }
}

/// What decoding a whole text yields: the one message it spells, or
/// `Nothing` when it spells anything else.
pub open spec fn spec_decode(s: Seq<char>) -> MessageView {
    match sdec_message(s, 0) {
        Option::None => MessageView::Nothing,
        Option::Some((m, p)) => if p == s.len() {
            m
        } else {
            MessageView::Nothing
        },
    }
}

/// Append a tally in its wire form.
fn write_tally(out: &mut String, t: &Tally)
    ensures
        final(out)@ == old(out)@ + enc_tally(t@),
{
    write_u64(out, t.total_votes as u64);
    write_bytes(out, &t.cipher_text.bytes);
    assert(out@ =~= old(out)@ + enc_tally(t@));
}

/// Append a block in its wire form.
fn write_block(out: &mut String, b: &Block)
    ensures
        final(out)@ == old(out)@ + enc_block(b@),
{
    write_str(out, b.identifier.as_str());
    write_str(out, b.data.parent.as_str());
    write_u64(out, b.data.timestamp);
    crate::chain::block::write_tx_list(out, &b.data.transactions);
    assert(out@ =~= old(out)@ + enc_block(b@));
}

pub proof fn lemma_enc_block_run_snoc(bs: Seq<BlockView>, b: BlockView)
    ensures
        enc_block_run(bs.push(b)) == enc_block_run(bs) + enc_block(b),
    decreases bs.len(),
{
    if bs.len() == 0 {
        assert(bs.push(b).subrange(1, 1) =~= Seq::<BlockView>::empty());
        assert(enc_block_run(Seq::<BlockView>::empty()) == Seq::<char>::empty());
        assert(bs =~= Seq::<BlockView>::empty());
        assert(enc_block_run(bs.push(b)) == enc_block(b) + Seq::<char>::empty());
        assert(enc_block_run(bs.push(b)) =~= enc_block_run(bs) + enc_block(b));
    } else {
        let tail = bs.subrange(1, bs.len() as int);
        let all = bs.push(b);
        assert(all[0] == bs[0]);
        assert(all.subrange(1, all.len() as int) =~= tail.push(b));
        lemma_enc_block_run_snoc(tail, b);
        assert(enc_block_run(all) == enc_block(bs[0]) + (enc_block_run(tail) + enc_block(b)));
        assert(enc_block(bs[0]) + (enc_block_run(tail) + enc_block(b)) =~= (enc_block(bs[0])
            + enc_block_run(tail)) + enc_block(b));
        assert(enc_block_run(bs) == enc_block(bs[0]) + enc_block_run(tail));
    }
}

/// Append a chain in its wire form.
fn write_chain(out: &mut String, c: &Chain)
    ensures
        final(out)@ == old(out)@ + enc_chain(c@),
{
    write_str(out, c.genesis_configuration_hash.as_str());
    write_u64(out, c.blocks.len() as u64);
    let ghost head = out@;
    let ghost bs = c.blocks.deep_view();
    proof {
        assert(bs.len() == c.blocks@.len());
    }
    let mut i: usize = 0;
    while i < c.blocks.len()
        invariant
            i <= c.blocks@.len(),
            bs == c.blocks.deep_view(),
            bs.len() == c.blocks@.len(),
            out@ == head + enc_block_run(bs.subrange(0, i as int)),
        decreases c.blocks@.len() - i,
    {
        write_block(out, &c.blocks[i]);
        proof {
            assert(bs[i as int] == c.blocks@[i as int]@);
            assert(bs.subrange(0, i + 1 as int) =~= bs.subrange(0, i as int).push(bs[i as int]));
            lemma_enc_block_run_snoc(bs.subrange(0, i as int), bs[i as int]);
            assert(out@ =~= head + enc_block_run(bs.subrange(0, i + 1 as int)));
        }
        i = i + 1;
    }
    proof {
        assert(bs.subrange(0, bs.len() as int) =~= bs);
        assert(out@ =~= old(out)@ + enc_chain(c@));
    }
}

/// Append an optional transaction in its wire form.
fn write_opt_transaction(out: &mut String, o: &Option<Transaction>)
    ensures
        final(out)@ == old(out)@ + enc_opt_transaction(
            match o {
                Option::Some(t) => Option::Some(t@),
                Option::None => Option::None,
            },
        ),
{
    match o {
        Some(t) => {
            write_u64(out, 1);
            write_transaction(out, t);
        },
        None => {
            write_u64(out, 0);
        },
    }
    assert(out@ =~= old(out)@ + enc_opt_transaction(
        match o {
            Option::Some(t) => Option::Some(t@),
            Option::None => Option::None,
        },
    ));
}

/// The codec of the wire: it turns a message into its one text form and
/// that text back into the message.
pub struct JsonCodec;

impl JsonCodec {
    /// Encode the given message into its text form.
    pub fn encode(message: Message) -> (r: String)
        ensures
            r@ == enc_message(message@),
    {
        let mut out = String::new();
        match &message {
            Message::Ping => {
                write_u64(&mut out, 0);
            },
            Message::Pong => {
                write_u64(&mut out, 1);
            },
            Message::TransactionPayload(t) => {
                write_u64(&mut out, 2);
                write_transaction(&mut out, t);
            },
            Message::TransactionAccept(id) => {
                write_u64(&mut out, 3);
                write_str(&mut out, id.as_str());
            },
            Message::BlockRequest(id) => {
                write_u64(&mut out, 4);
                write_str(&mut out, id.as_str());
            },
            Message::BlockPayload(b) => {
                write_u64(&mut out, 5);
                write_block(&mut out, b);
            },
            Message::BlockAccept => {
                write_u64(&mut out, 6);
            },
            Message::BlockDuplicated => {
                write_u64(&mut out, 7);
            },
            Message::ChainRequest => {
                write_u64(&mut out, 8);
            },
            Message::ChainResponse(c) => {
                write_u64(&mut out, 9);
                write_chain(&mut out, c);
            },
            Message::ChainAccept => {
                write_u64(&mut out, 10);
            },
            Message::OpenVote => {
                write_u64(&mut out, 11);
            },
            Message::OpenVoteAccept => {
                write_u64(&mut out, 12);
            },
            Message::CloseVote => {
                write_u64(&mut out, 13);
            },
            Message::CloseVoteAccept => {
                write_u64(&mut out, 14);
            },
            Message::RequestTally => {
                write_u64(&mut out, 15);
            },
            Message::RequestTallyPayload(t) => {
                write_u64(&mut out, 16);
                write_tally(&mut out, t);
            },
            Message::FindTransaction(id) => {
                write_u64(&mut out, 17);
                write_str(&mut out, id.as_str());
            },
            Message::FindTransactionResponse(o) => {
                write_u64(&mut out, 18);
                write_opt_transaction(&mut out, o);
            },
            Message::Nothing => {
                write_u64(&mut out, 19);
            },
        }
        proof {
            assert(out@ =~= enc_message(message@));
        }
        out
    }
}

/// Read a vote payload, strictly.
fn read_txdata(s: &str, pos: usize) -> (r: Option<(TransactionData, usize)>)
    ensures
        match r {
            None => sdec_txdata(s@, pos as int) == None::<(TransactionDataView, int)>,
            Some((d, p)) => sdec_txdata(s@, pos as int) == Some((d@, p as int)) && p <= s@.len()
                && pos < p,
        },
{
    let (v, p1) = match read_u64(s, pos) {
        None => {
            return None;
        },
        Some(x) => x,
    };
    if v > usize::MAX as u64 {
        return None;
    }
    let (ct, p2) = match read_bytes(s, p1) {
        None => {
            return None;
        },
        Some(x) => x,
    };
    let (mk, p3) = match read_bytes(s, p2) {
        None => {
            return None;
        },
        Some(x) => x,
    };
    let (mc, p4) = match read_bytes(s, p3) {
        None => {
            return None;
        },
        Some(x) => x,
    };
    let (ck, p5) = match read_bytes(s, p4) {
        None => {
            return None;
        },
        Some(x) => x,
    };
    let (cc, p6) = match read_bytes(s, p5) {
        None => {
            return None;
        },
        Some(x) => x,
    };
    let (im, p7) = match read_byte_lists(s, p6) {
        None => {
            return None;
        },
        Some(x) => x,
    };
    let d = TransactionData {
        voter_idx: v as usize,
        cipher_text: CipherText { bytes: ct },
        membership_proof: MembershipProof { key: mk, cipher_text: mc },
        cai_proof: CaiProof { key: ck, cipher_text: cc, images: im },
    };
    Some((d, p7))
}

/// Read a transaction, strictly: the payload flag must match the kind.
fn read_transaction(s: &str, pos: usize) -> (r: Option<(Transaction, usize)>)
    ensures
        match r {
            None => sdec_transaction(s@, pos as int) == None::<(TransactionView, int)>,
            Some((t, p)) => sdec_transaction(s@, pos as int) == Some((t@, p as int)) && p
                <= s@.len() && pos < p,
        },
{
    let (id, p1) = match read_str(s, pos) {
        None => {
            return None;
        },
        Some(x) => x,
    };
    let (tag, p2) = match read_u64(s, p1) {
        None => {
            return None;
        },
        Some(x) => x,
    };
    let (flag, p3) = match read_u64(s, p2) {
        None => {
            return None;
        },
        Some(x) => x,
    };
    if tag == 0 && flag == 1 {
        let (d, p4) = match read_txdata(s, p3) {
            None => {
                return None;
            },
            Some(x) => x,
        };
        Some(
            (
                Transaction {
                    identifier: id,
                    trx_type: TransactionType::Vote,
                    data: Some(d),
                },
                p4,
            ),
        )
    } else if tag == 1 && flag == 0 {
        Some(
            (
                Transaction { identifier: id, trx_type: TransactionType::VoteOpened, data: None },
                p3,
            ),
        )
    } else if tag == 2 && flag == 0 {
        Some(
            (
                Transaction { identifier: id, trx_type: TransactionType::VoteClosed, data: None },
                p3,
            ),
        )
    } else {
        None
    }
}

/// Read a block, strictly.
fn read_block(s: &str, pos: usize) -> (r: Option<(Block, usize)>)
    ensures
        match r {
            None => sdec_block(s@, pos as int) == None::<(BlockView, int)>,
            Some((b, p)) => sdec_block(s@, pos as int) == Some((b@, p as int)) && p <= s@.len()
                && pos < p,
        },
{
    let (id, p1) = match read_str(s, pos) {
        None => {
            return None;
        },
        Some(x) => x,
    };
    let (parent, p2) = match read_str(s, p1) {
        None => {
            return None;
        },
        Some(x) => x,
    };
    let (ts, p3) = match read_u64(s, p2) {
        None => {
            return None;
        },
        Some(x) => x,
    };
    let (n, p0) = match read_u64(s, p3) {
        None => {
            return None;
        },
        Some(x) => x,
    };
    let mut acc: Vec<Transaction> = Vec::new();
    let mut p: usize = p0;
    let mut k: u64 = 0;
    while k < n
        invariant
            k <= n,
            p <= s@.len(),
            pos < p,
            acc.deep_view().len() == acc@.len(),
            sdec_str(s@, pos as int) == Some((id@, p1 as int)),
            sdec_str(s@, p1 as int) == Some((parent@, p2 as int)),
            sdec_u64(s@, p2 as int) == Some((ts as int, p3 as int)),
            sdec_u64(s@, p3 as int) == Some((n as int, p0 as int)),
            sdec_tx_run(s@, p0 as int, n as int) == match sdec_tx_run(s@, p as int, n - k as int) {
                Option::None => Option::None::<(Seq<TransactionView>, int)>,
                Option::Some((rest, pp)) => Option::Some((acc.deep_view() + rest, pp)),
            },
        decreases n - k,
    {
        let ghost old_acc = acc.deep_view();
        let ghost old_p = p as int;
        let ghost rem = n - k as int;
        match read_transaction(s, p) {
            None => {
                assert(sdec_tx_run(s@, old_p, rem) == None::<(Seq<TransactionView>, int)>);
                return None;
            },
            Some((t, p2b)) => {
                let ghost tv = t@;
                proof {
                    assert(sdec_tx_run(s@, old_p, rem) == match sdec_tx_run(
                        s@,
                        p2b as int,
                        rem - 1,
                    ) {
                        Option::None => Option::None::<(Seq<TransactionView>, int)>,
                        Option::Some((rest, pp)) => Option::Some((seq![tv] + rest, pp)),
                    });
                    assert(t.deep_view() == tv);
                }
                acc.push(t);
                p = p2b;
                k = k + 1;
                proof {
                    assert(acc.deep_view() =~= old_acc.push(tv));
                    match sdec_tx_run(s@, p as int, n - k as int) {
                        Option::None => {},
                        Option::Some((rest, pp)) => {
                            assert(old_acc + (seq![tv] + rest) =~= acc.deep_view() + rest);
                        },
                    }
                }
            },
        }
    }
    proof {
        assert(sdec_tx_run(s@, p as int, 0) == Some((Seq::<TransactionView>::empty(), p as int)));
        assert(acc.deep_view() + Seq::<TransactionView>::empty() =~= acc.deep_view());
    }
    let b = Block {
        identifier: id,
        data: BlockContent { parent, timestamp: ts, transactions: acc },
    };
    Some((b, p))
}

/// Read a chain, strictly: the store must rebuild into a chain.
fn read_chain(s: &str, pos: usize) -> (r: Option<(Chain, usize)>)
    ensures
        match r {
            None => sdec_chain(s@, pos as int) == None::<(ChainView, int)>,
            Some((c, p)) => sdec_chain(s@, pos as int) == Some((c@, p as int)) && p <= s@.len()
                && pos < p,
        },
{
    let (hash, p1) = match read_str(s, pos) {
        None => {
            return None;
        },
        Some(x) => x,
    };
    let (n, p0) = match read_u64(s, p1) {
        None => {
            return None;
        },
        Some(x) => x,
    };
    let mut acc: Vec<Block> = Vec::new();
    let mut p: usize = p0;
    let mut k: u64 = 0;
    while k < n
        invariant
            k <= n,
            p <= s@.len(),
            pos < p,
            acc.deep_view().len() == acc@.len(),
            sdec_str(s@, pos as int) == Some((hash@, p1 as int)),
            sdec_u64(s@, p1 as int) == Some((n as int, p0 as int)),
            sdec_block_run(s@, p0 as int, n as int) == match sdec_block_run(
                s@,
                p as int,
                n - k as int,
            ) {
                Option::None => Option::None::<(Seq<BlockView>, int)>,
                Option::Some((rest, pp)) => Option::Some((acc.deep_view() + rest, pp)),
            },
        decreases n - k,
    {
        let ghost old_acc = acc.deep_view();
        let ghost old_p = p as int;
        let ghost rem = n - k as int;
        match read_block(s, p) {
            None => {
                assert(sdec_block_run(s@, old_p, rem) == None::<(Seq<BlockView>, int)>);
                return None;
            },
            Some((b, p2b)) => {
                let ghost bv = b@;
                proof {
                    assert(sdec_block_run(s@, old_p, rem) == match sdec_block_run(
                        s@,
                        p2b as int,
                        rem - 1,
                    ) {
                        Option::None => Option::None::<(Seq<BlockView>, int)>,
                        Option::Some((rest, pp)) => Option::Some((seq![bv] + rest, pp)),
                    });
                    assert(b.deep_view() == bv);
                }
                acc.push(b);
                p = p2b;
                k = k + 1;
                proof {
                    assert(acc.deep_view() =~= old_acc.push(bv));
                    match sdec_block_run(s@, p as int, n - k as int) {
                        Option::None => {},
                        Option::Some((rest, pp)) => {
                            assert(old_acc + (seq![bv] + rest) =~= acc.deep_view() + rest);
                        },
                    }
                }
            },
        }
    }
    proof {
        assert(sdec_block_run(s@, p as int, 0) == Some((Seq::<BlockView>::empty(), p as int)));
        assert(acc.deep_view() + Seq::<BlockView>::empty() =~= acc.deep_view());
    }
    let c = match Chain::from_blocks(hash, &acc) {
        Some(c) => c,
        None => {
            return None;
        },
    };
    proof {
        lemma_spec_chain_of_wf(c@.genesis_configuration_hash, acc.deep_view());
        lemma_chain_determined(
            c@,
            spec_chain_of(c@.genesis_configuration_hash, acc.deep_view()),
        );
    }
    Some((c, p))
}

/// Read a tally, strictly.
fn read_tally(s: &str, pos: usize) -> (r: Option<(Tally, usize)>)
    ensures
        match r {
            None => sdec_tally(s@, pos as int) == None::<(TallyView, int)>,
            Some((t, p)) => sdec_tally(s@, pos as int) == Some((t@, p as int)) && p <= s@.len()
                && pos < p,
        },
{
    let (v, p1) = match read_u64(s, pos) {
        None => {
            return None;
        },
        Some(x) => x,
    };
    if v > usize::MAX as u64 {
        return None;
    }
    let (ct, p2) = match read_bytes(s, p1) {
        None => {
            return None;
        },
        Some(x) => x,
    };
    Some((Tally { total_votes: v as usize, cipher_text: CipherText { bytes: ct } }, p2))
}

/// Read an optional transaction, strictly.
fn read_opt_transaction(s: &str, pos: usize) -> (r: Option<(Option<Transaction>, usize)>)
    ensures
        match r {
            None => sdec_opt_transaction(s@, pos as int) == None::<
                (Option<TransactionView>, int),
            >,
            Some((o, p)) => sdec_opt_transaction(s@, pos as int) == Some(
                (
                    match o {
                        Option::Some(t) => Option::Some(t@),
                        Option::None => Option::None,
                    },
                    p as int,
                ),
            ) && p <= s@.len() && pos < p,
        },
{
    let (flag, p1) = match read_u64(s, pos) {
        None => {
            return None;
        },
        Some(x) => x,
    };
    if flag == 0 {
        Some((None, p1))
    } else if flag == 1 {
        let (t, p2) = match read_transaction(s, p1) {
            None => {
                return None;
            },
            Some(x) => x,
        };
        Some((Some(t), p2))
    } else {
        None
    }
}

/// Read a message, strictly.
fn read_message(s: &str, pos: usize) -> (r: Option<(Message, usize)>)
    ensures
        match r {
            None => sdec_message(s@, pos as int) == None::<(MessageView, int)>,
            Some((m, p)) => sdec_message(s@, pos as int) == Some((m@, p as int)) && p <= s@.len(),
        },
{
    let (tag, p) = match read_u64(s, pos) {
        None => {
            return None;
        },
        Some(x) => x,
    };
    if tag == 0 {
        Some((Message::Ping, p))
    } else if tag == 1 {
        Some((Message::Pong, p))
    } else if tag == 2 {
        match read_transaction(s, p) {
            None => None,
            Some((t, p2)) => Some((Message::TransactionPayload(t), p2)),
        }
    } else if tag == 3 {
        match read_str(s, p) {
            None => None,
            Some((id, p2)) => Some((Message::TransactionAccept(id), p2)),
        }
    } else if tag == 4 {
        match read_str(s, p) {
            None => None,
            Some((id, p2)) => Some((Message::BlockRequest(id), p2)),
        }
    } else if tag == 5 {
        match read_block(s, p) {
            None => None,
            Some((b, p2)) => Some((Message::BlockPayload(b), p2)),
        }
    } else if tag == 6 {
        Some((Message::BlockAccept, p))
    } else if tag == 7 {
        Some((Message::BlockDuplicated, p))
    } else if tag == 8 {
        Some((Message::ChainRequest, p))
    } else if tag == 9 {
        match read_chain(s, p) {
            None => None,
            Some((c, p2)) => Some((Message::ChainResponse(c), p2)),
        }
    } else if tag == 10 {
        Some((Message::ChainAccept, p))
    } else if tag == 11 {
        Some((Message::OpenVote, p))
    } else if tag == 12 {
        Some((Message::OpenVoteAccept, p))
    } else if tag == 13 {
        Some((Message::CloseVote, p))
    } else if tag == 14 {
        Some((Message::CloseVoteAccept, p))
    } else if tag == 15 {
        Some((Message::RequestTally, p))
    } else if tag == 16 {
        match read_tally(s, p) {
            None => None,
            Some((t, p2)) => Some((Message::RequestTallyPayload(t), p2)),
        }
    } else if tag == 17 {
        match read_str(s, p) {
            None => None,
            Some((id, p2)) => Some((Message::FindTransaction(id), p2)),
        }
    } else if tag == 18 {
        match read_opt_transaction(s, p) {
            None => None,
            Some((o, p2)) => Some((Message::FindTransactionResponse(o), p2)),
        }
    } else if tag == 19 {
        Some((Message::Nothing, p))
    } else {
        None
    }
}

proof fn lemma_sdec_enc_txdata(s: Seq<char>, pos: int, d: TransactionDataView)
    requires
        txdata_ok(d),
        seg(s, pos, enc_txdata(d)),
    ensures
        sdec_txdata(s, pos) == Some((d, pos + enc_txdata(d).len() as int)),
{
    let e1 = enc_u64(d.voter_idx);
    let e2 = enc_bytes(d.cipher_text);
    let em = crate::chain::transaction::enc_membership(d.membership_proof);
    let ec = crate::chain::transaction::enc_cai(d.cai_proof);
    assert(enc_txdata(d) == ((e1 + e2) + em) + ec);
    lemma_seg_split(s, pos, (e1 + e2) + em, ec);
    lemma_seg_split(s, pos, e1 + e2, em);
    lemma_seg_split(s, pos, e1, e2);
    lemma_sdec_enc_u64(s, pos, d.voter_idx);
    let q1 = pos + e1.len();
    lemma_sdec_enc_bytes(s, q1, d.cipher_text);
    let q2 = q1 + e2.len();
    let emk = enc_bytes(d.membership_proof.key);
    let emc = enc_bytes(d.membership_proof.cipher_text);
    assert(em == emk + emc);
    lemma_seg_split(s, q2, emk, emc);
    lemma_sdec_enc_bytes(s, q2, d.membership_proof.key);
    let q3 = q2 + emk.len();
    lemma_sdec_enc_bytes(s, q3, d.membership_proof.cipher_text);
    let q4 = q3 + emc.len();
    let eck = enc_bytes(d.cai_proof.key);
    let ecc = enc_bytes(d.cai_proof.cipher_text);
    let eil = enc_byte_lists(d.cai_proof.images);
    assert(ec == (eck + ecc) + eil);
    lemma_seg_split(s, q4, eck + ecc, eil);
    lemma_seg_split(s, q4, eck, ecc);
    lemma_sdec_enc_bytes(s, q4, d.cai_proof.key);
    let q5 = q4 + eck.len();
    lemma_sdec_enc_bytes(s, q5, d.cai_proof.cipher_text);
    let q6 = q5 + ecc.len();
    lemma_sdec_enc_byte_lists(s, q6, d.cai_proof.images);
    let q7 = q6 + eil.len();
    assert(d == TransactionDataView {
        voter_idx: d.voter_idx,
        cipher_text: d.cipher_text,
        membership_proof: MembershipProofView {
            key: d.membership_proof.key,
            cipher_text: d.membership_proof.cipher_text,
        },
        cai_proof: CaiProofView {
            key: d.cai_proof.key,
            cipher_text: d.cai_proof.cipher_text,
            images: d.cai_proof.images,
        },
    });
    assert(q7 == pos + enc_txdata(d).len());
}

proof fn lemma_sdec_enc_transaction(s: Seq<char>, pos: int, t: TransactionView)
    requires
        tx_ok(t),
        seg(s, pos, enc_transaction(t)),
    ensures
        sdec_transaction(s, pos) == Some((t, pos + enc_transaction(t).len() as int)),
{
    let ei = enc_str(t.identifier);
    let et = enc_u64(crate::chain::transaction::ttype_tag(t.trx_type));
    match t.data {
        Option::Some(d) => {
            let ep = enc_u64(1) + enc_txdata(d);
            assert(enc_transaction(t) == (ei + et) + ep);
            lemma_seg_split(s, pos, ei + et, ep);
            lemma_seg_split(s, pos, ei, et);
            lemma_sdec_enc_str(s, pos, t.identifier);
            let q1 = pos + ei.len();
            lemma_sdec_enc_u64(s, q1, 0);
            let q2 = q1 + et.len();
            lemma_seg_split(s, q2, enc_u64(1), enc_txdata(d));
            lemma_sdec_enc_u64(s, q2, 1);
            let q3 = q2 + enc_u64(1).len();
            lemma_sdec_enc_txdata(s, q3, d);
            assert(t == TransactionView {
                identifier: t.identifier,
                trx_type: TransactionType::Vote,
                data: Option::Some(d),
            });
        },
        Option::None => {
            let ep = enc_u64(0);
            assert(enc_transaction(t) == (ei + et) + ep);
            lemma_seg_split(s, pos, ei + et, ep);
            lemma_seg_split(s, pos, ei, et);
            lemma_sdec_enc_str(s, pos, t.identifier);
            let q1 = pos + ei.len();
            lemma_sdec_enc_u64(s, q1, crate::chain::transaction::ttype_tag(t.trx_type));
            let q2 = q1 + et.len();
            lemma_sdec_enc_u64(s, q2, 0);
            if t.trx_type is VoteOpened {
                assert(t == TransactionView {
                    identifier: t.identifier,
                    trx_type: TransactionType::VoteOpened,
                    data: Option::None,
                });
            } else {
                assert(t == TransactionView {
                    identifier: t.identifier,
                    trx_type: TransactionType::VoteClosed,
                    data: Option::None,
                });
            }
        },
    }
}

proof fn lemma_sdec_enc_tx_run(s: Seq<char>, pos: int, ts: Seq<TransactionView>)
    requires
        forall|i: int| 0 <= i < ts.len() ==> tx_ok(#[trigger] ts[i]),
        seg(s, pos, enc_tx_run(ts)),
    ensures
        sdec_tx_run(s, pos, ts.len() as int) == Some((ts, pos + enc_tx_run(ts).len() as int)),
    decreases ts.len(),
{
    if ts.len() == 0 {
        assert(ts =~= Seq::<TransactionView>::empty());
    } else {
        let tail = ts.subrange(1, ts.len() as int);
        assert(enc_tx_run(ts) == enc_transaction(ts[0]) + enc_tx_run(tail));
        lemma_seg_split(s, pos, enc_transaction(ts[0]), enc_tx_run(tail));
        lemma_sdec_enc_transaction(s, pos, ts[0]);
        let p = pos + enc_transaction(ts[0]).len();
        assert(forall|i: int| 0 <= i < tail.len() ==> tx_ok(#[trigger] tail[i]));
        lemma_sdec_enc_tx_run(s, p, tail);
        assert(seq![ts[0]] + tail =~= ts);
    }
}

proof fn lemma_sdec_enc_block(s: Seq<char>, pos: int, b: BlockView)
    requires
        block_ok(b),
        seg(s, pos, enc_block(b)),
    ensures
        sdec_block(s, pos) == Some((b, pos + enc_block(b).len() as int)),
{
    let ei = enc_str(b.identifier);
    let ep = enc_str(b.data.parent);
    let et = enc_u64(b.data.timestamp as int);
    let en = enc_u64(b.data.transactions.len() as int);
    let er = enc_tx_run(b.data.transactions);
    assert(enc_content(b.data) == (ep + et) + (en + er));
    assert(enc_block(b) == ei + ((ep + et) + (en + er)));
    lemma_seg_split(s, pos, ei, (ep + et) + (en + er));
    lemma_sdec_enc_str(s, pos, b.identifier);
    let q1 = pos + ei.len();
    lemma_seg_split(s, q1, ep + et, en + er);
    lemma_seg_split(s, q1, ep, et);
    lemma_sdec_enc_str(s, q1, b.data.parent);
    let q2 = q1 + ep.len();
    lemma_sdec_enc_u64(s, q2, b.data.timestamp as int);
    let q3 = q2 + et.len();
    lemma_seg_split(s, q3, en, er);
    lemma_sdec_enc_u64(s, q3, b.data.transactions.len() as int);
    let q4 = q3 + en.len();
    lemma_sdec_enc_tx_run(s, q4, b.data.transactions);
    assert(b == BlockView {
        identifier: b.identifier,
        data: BlockContentView {
            parent: b.data.parent,
            timestamp: b.data.timestamp,
            transactions: b.data.transactions,
        },
    });
}

proof fn lemma_sdec_enc_block_run(s: Seq<char>, pos: int, bs: Seq<BlockView>)
    requires
        forall|i: int| 0 <= i < bs.len() ==> block_ok(#[trigger] bs[i]),
        seg(s, pos, enc_block_run(bs)),
    ensures
        sdec_block_run(s, pos, bs.len() as int) == Some((bs, pos + enc_block_run(bs).len() as int)),
    decreases bs.len(),
{
    if bs.len() == 0 {
        assert(bs =~= Seq::<BlockView>::empty());
    } else {
        let tail = bs.subrange(1, bs.len() as int);
        assert(enc_block_run(bs) == enc_block(bs[0]) + enc_block_run(tail));
        lemma_seg_split(s, pos, enc_block(bs[0]), enc_block_run(tail));
        lemma_sdec_enc_block(s, pos, bs[0]);
        let p = pos + enc_block(bs[0]).len();
        assert(forall|i: int| 0 <= i < tail.len() ==> block_ok(#[trigger] tail[i]));
        lemma_sdec_enc_block_run(s, p, tail);
        assert(seq![bs[0]] + tail =~= bs);
    }
}

proof fn lemma_sdec_enc_chain(s: Seq<char>, pos: int, c: ChainView)
    requires
        chain_ok(c),
        seg(s, pos, enc_chain(c)),
    ensures
        sdec_chain(s, pos) == Some((c, pos + enc_chain(c).len() as int)),
{
    let eh = enc_str(c.genesis_configuration_hash);
    let en = enc_u64(c.blocks.len() as int);
    let er = enc_block_run(c.blocks);
    assert(enc_chain(c) == (eh + en) + er);
    lemma_seg_split(s, pos, eh + en, er);
    lemma_seg_split(s, pos, eh, en);
    lemma_sdec_enc_str(s, pos, c.genesis_configuration_hash);
    let q1 = pos + eh.len();
    lemma_sdec_enc_u64(s, q1, c.blocks.len() as int);
    let q2 = q1 + en.len();
    lemma_sdec_enc_block_run(s, q2, c.blocks);
    lemma_wf_forms_chain(c);
    lemma_spec_chain_of_wf(c.genesis_configuration_hash, c.blocks);
    lemma_chain_determined(c, spec_chain_of(c.genesis_configuration_hash, c.blocks));
}

proof fn lemma_sdec_enc_tally(s: Seq<char>, pos: int, t: TallyView)
    requires
        tally_ok(t),
        seg(s, pos, enc_tally(t)),
    ensures
        sdec_tally(s, pos) == Some((t, pos + enc_tally(t).len() as int)),
{
    lemma_seg_split(s, pos, enc_u64(t.total_votes), enc_bytes(t.cipher_text));
    lemma_sdec_enc_u64(s, pos, t.total_votes);
    lemma_sdec_enc_bytes(s, pos + enc_u64(t.total_votes).len(), t.cipher_text);
    assert(t == TallyView { total_votes: t.total_votes, cipher_text: t.cipher_text });
}

proof fn lemma_sdec_enc_opt_transaction(s: Seq<char>, pos: int, o: Option<TransactionView>)
    requires
        match o {
            Option::Some(t) => tx_ok(t),
            Option::None => true,
        },
        seg(s, pos, enc_opt_transaction(o)),
    ensures
        sdec_opt_transaction(s, pos) == Some((o, pos + enc_opt_transaction(o).len() as int)),
{
    match o {
        Option::Some(t) => {
            lemma_seg_split(s, pos, enc_u64(1), enc_transaction(t));
            lemma_sdec_enc_u64(s, pos, 1);
            lemma_sdec_enc_transaction(s, pos + enc_u64(1).len(), t);
        },
        Option::None => {
            lemma_sdec_enc_u64(s, pos, 0);
        },
    }
}

/// Decoding undoes encoding: for every well-formed message of every
/// variant, the text the codec writes reads back as exactly that message.
#[verifier::rlimit(100)]
pub proof fn lemma_codec_round_trip(m: MessageView)
    requires
        msg_ok(m),
    ensures
        spec_decode(enc_message(m)) == m,
{
    let s = enc_message(m);
    let et = enc_u64(msg_tag(m));
    assert(s.subrange(0, s.len() as int) =~= s);
    assert(seg(s, 0, et + (match m {
        MessageView::TransactionPayload(t) => enc_transaction(t),
        MessageView::TransactionAccept(id) => enc_str(id),
        MessageView::BlockRequest(id) => enc_str(id),
        MessageView::BlockPayload(b) => enc_block(b),
        MessageView::ChainResponse(c) => enc_chain(c),
        MessageView::RequestTallyPayload(t) => enc_tally(t),
        MessageView::FindTransaction(id) => enc_str(id),
        MessageView::FindTransactionResponse(o) => enc_opt_transaction(o),
        _ => Seq::<char>::empty(),
    })));
    lemma_seg_split(s, 0, et, match m {
        MessageView::TransactionPayload(t) => enc_transaction(t),
        MessageView::TransactionAccept(id) => enc_str(id),
        MessageView::BlockRequest(id) => enc_str(id),
        MessageView::BlockPayload(b) => enc_block(b),
        MessageView::ChainResponse(c) => enc_chain(c),
        MessageView::RequestTallyPayload(t) => enc_tally(t),
        MessageView::FindTransaction(id) => enc_str(id),
        MessageView::FindTransactionResponse(o) => enc_opt_transaction(o),
        _ => Seq::<char>::empty(),
    });
    lemma_sdec_enc_u64(s, 0, msg_tag(m));
    let q = et.len() as int;
    match m {
        MessageView::TransactionPayload(t) => {
            lemma_sdec_enc_transaction(s, q, t);
        },
        MessageView::TransactionAccept(id) => {
            lemma_sdec_enc_str(s, q, id);
        },
        MessageView::BlockRequest(id) => {
            lemma_sdec_enc_str(s, q, id);
        },
        MessageView::BlockPayload(b) => {
            lemma_sdec_enc_block(s, q, b);
        },
        MessageView::ChainResponse(c) => {
            lemma_sdec_enc_chain(s, q, c);
        },
        MessageView::RequestTallyPayload(t) => {
            lemma_sdec_enc_tally(s, q, t);
        },
        MessageView::FindTransaction(id) => {
            lemma_sdec_enc_str(s, q, id);
        },
        MessageView::FindTransactionResponse(o) => {
            lemma_sdec_enc_opt_transaction(s, q, o);
        },
        _ => {},
    }
}

impl JsonCodec {
    /// Decode the given text into the message it spells; any text that is
    /// not exactly one encoded message collapses to `Message::Nothing`.
    pub fn decode(message: String) -> (r: Message)
        ensures
            r@ == spec_decode(message@),
    {
        let slen = message.as_str().unicode_len();
        match read_message(message.as_str(), 0) {
            None => Message::Nothing,
            Some((m, p)) => {
                if p == slen {
                    m
                } else {
                    Message::Nothing
                }
            },
        }
    }
}


} // verus!
