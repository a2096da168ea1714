//! A transaction of the blockchain: a vote, or one of the two sentinels
//! that open and close the voting window.  A transaction identifies itself
//! by the digest of its variant and payload; two transactions with equal
//! identifier are equal.

use vstd::prelude::*;

verus! {

use crate::crypto::CaiProof;
use crate::crypto::CaiProofView;
use crate::crypto::CipherText;
use crate::crypto::ImageSet;
use crate::crypto::MembershipProof;
use crate::crypto::MembershipProofView;
use crate::crypto::PublicKey;
use crate::encoding::enc_byte_lists;
use crate::encoding::enc_bytes;
use crate::encoding::enc_u64;
use crate::encoding::write_byte_lists;
use crate::encoding::write_bytes;
use crate::encoding::write_u64;
use crate::hashing::sha1_hex;
use crate::hashing::sha1_hex_of;

/// The three kinds of transaction.
#[derive(Debug, Clone, Copy, PartialEq, Eq, Structural)]
pub enum TransactionType {
    Vote,
    VoteOpened,
    VoteClosed,
}

/// The payload of a vote: who cast it, the encrypted choice, and the two
/// proofs that accompany it.
#[derive(Debug, PartialEq, Eq)]
pub struct TransactionData {
    pub voter_idx: usize,
    pub cipher_text: CipherText,
    pub membership_proof: MembershipProof,
    pub cai_proof: CaiProof,
}

/// An immutable transaction.  Once constructed, the identifier never
/// changes.
#[derive(Debug, PartialEq, Eq)]
pub struct Transaction {
    pub identifier: String,
    pub trx_type: TransactionType,
    pub data: Option<TransactionData>,
}

pub struct TransactionDataView {
    pub voter_idx: int,
    pub cipher_text: Seq<u8>,
    pub membership_proof: MembershipProofView,
    pub cai_proof: CaiProofView,
}

pub struct TransactionView {
    pub identifier: Seq<char>,
    pub trx_type: TransactionType,
    pub data: Option<TransactionDataView>,
}

impl View for TransactionData {
    type V = TransactionDataView;

    open spec fn view(&self) -> TransactionDataView {
        TransactionDataView {
            voter_idx: self.voter_idx as int,
            cipher_text: self.cipher_text@,
            membership_proof: self.membership_proof@,
            cai_proof: self.cai_proof@,
        }
    }
}

impl View for Transaction {
    type V = TransactionView;

    open spec fn view(&self) -> TransactionView {
        TransactionView {
            identifier: self.identifier@,
            trx_type: self.trx_type,
            data: match self.data {
                Option::Some(d) => Option::Some(d@),
                Option::None => Option::None,
            },
        }
    }
}

impl DeepView for Transaction {
    type V = TransactionView;

    open spec fn deep_view(&self) -> TransactionView {
        self@
    }
}

impl TransactionView {
    /// A vote carries its payload; a sentinel carries none.
    pub open spec fn wf(self) -> bool {
        self.trx_type is Vote <==> self.data is Some
    }
}

/// The number standing for a transaction kind in the canonical text form.
pub open spec fn ttype_tag(t: TransactionType) -> int {
    match t {
        TransactionType::Vote => 0,
        TransactionType::VoteOpened => 1,
        TransactionType::VoteClosed => 2,
    }
}

/// The canonical text of a membership proof.
pub open spec fn enc_membership(m: MembershipProofView) -> Seq<char> {
    enc_bytes(m.key) + enc_bytes(m.cipher_text)
}

/// The canonical text of a cast-as-intended proof.
pub open spec fn enc_cai(c: CaiProofView) -> Seq<char> {
    enc_bytes(c.key) + enc_bytes(c.cipher_text) + enc_byte_lists(c.images)
}

/// The canonical text of a vote payload.
pub open spec fn enc_txdata(d: TransactionDataView) -> Seq<char> {
    enc_u64(d.voter_idx) + enc_bytes(d.cipher_text) + enc_membership(d.membership_proof) + enc_cai(
        d.cai_proof,
    )
}

/// The text a transaction's identifier is the digest of: its variant,
/// then its payload if it has one.
pub open spec fn tx_preimage(t: TransactionType, data: Option<TransactionDataView>) -> Seq<char> {
    enc_u64(ttype_tag(t)) + match data {
        Option::Some(d) => enc_txdata(d),
        Option::None => Seq::empty(),
    }
}

impl TransactionView {
    /// The identifier is the digest of the variant and payload.
    pub open spec fn identifier_valid(self) -> bool {
        self.identifier == sha1_hex_of(tx_preimage(self.trx_type, self.data))
    }
}

/// Append a vote payload in its canonical text form.
pub(crate) fn write_txdata(out: &mut String, d: &TransactionData)
    ensures
        final(out)@ == old(out)@ + enc_txdata(d@),
{
    write_u64(out, d.voter_idx as u64);
    write_bytes(out, &d.cipher_text.bytes);
    write_bytes(out, &d.membership_proof.key);
    write_bytes(out, &d.membership_proof.cipher_text);
    write_bytes(out, &d.cai_proof.key);
    write_bytes(out, &d.cai_proof.cipher_text);
    write_byte_lists(out, &d.cai_proof.images);
    assert(out@ =~= old(out)@ + enc_txdata(d@));
}

/// The one value of the sentinel that opens the voting window.
pub open spec fn voting_opened_view() -> TransactionView {
    TransactionView {
        identifier: sha1_hex_of(tx_preimage(TransactionType::VoteOpened, Option::None)),
        trx_type: TransactionType::VoteOpened,
        data: Option::None,
    }
}

/// The one value of the sentinel that closes the voting window.
pub open spec fn voting_closed_view() -> TransactionView {
    TransactionView {
        identifier: sha1_hex_of(tx_preimage(TransactionType::VoteClosed, Option::None)),
        trx_type: TransactionType::VoteClosed,
        data: Option::None,
    }
}

impl Transaction {
    /// The sentinel that opens the voting window.  It carries no payload,
    /// so its identifier is fixed and well known.
    pub fn new_voting_opened() -> (t: Transaction)
        ensures
            t@.trx_type == TransactionType::VoteOpened,
            t@.data is None,
            t@.wf(),
            t@.identifier_valid(),
            t@.identifier.len() == 40,
            t@ == voting_opened_view(),
    {
        let mut preimage = String::new();
        write_u64(&mut preimage, 1);
        assert(preimage@ =~= tx_preimage(TransactionType::VoteOpened, Option::None));
        let digest = sha1_hex(preimage.as_str());
        Transaction { identifier: digest, trx_type: TransactionType::VoteOpened, data: None }
    }

    /// The sentinel that closes the voting window.  It carries no payload,
    /// so its identifier is fixed and well known.
    pub fn new_voting_closed() -> (t: Transaction)
        ensures
            t@.trx_type == TransactionType::VoteClosed,
            t@.data is None,
            t@.wf(),
            t@.identifier_valid(),
            t@.identifier.len() == 40,
            t@ == voting_closed_view(),
    {
        let mut preimage = String::new();
        write_u64(&mut preimage, 2);
        assert(preimage@ =~= tx_preimage(TransactionType::VoteClosed, Option::None));
        let digest = sha1_hex(preimage.as_str());
        Transaction { identifier: digest, trx_type: TransactionType::VoteClosed, data: None }
    }

    /// A vote transaction.  The identifier is the digest of the payload,
    /// so two equal votes collide and are stored once.
    pub fn new_vote(
        voter_idx: usize,
        cipher_text: CipherText,
        membership_proof: MembershipProof,
        cai_proof: CaiProof,
    ) -> (t: Transaction)
        ensures
            t@.trx_type == TransactionType::Vote,
            t@.data == Option::Some(
                TransactionDataView {
                    voter_idx: voter_idx as int,
                    cipher_text: cipher_text@,
                    membership_proof: membership_proof@,
                    cai_proof: cai_proof@,
                },
            ),
            t@.wf(),
            t@.identifier_valid(),
            t@.identifier.len() == 40,
    {
        let data = TransactionData { voter_idx, cipher_text, membership_proof, cai_proof };
        let mut preimage = String::new();
        write_u64(&mut preimage, 0);
        write_txdata(&mut preimage, &data);
        assert(preimage@ =~= tx_preimage(TransactionType::Vote, Option::Some(data@)));
        let digest = sha1_hex(preimage.as_str());
        Transaction { identifier: digest, trx_type: TransactionType::Vote, data: Some(data) }
    }

    /// Whether the proofs submitted along with the transaction attest this
    /// key, this ciphertext and the voter's public image set.  Sentinels
    /// are always valid; a vote whose `voter_idx` has no image set is not.
    pub fn is_valid(&self, public_key: &PublicKey, image_sets: &Vec<ImageSet>) -> (r: bool)
        ensures
            r == spec_tx_valid(self@, public_key@, image_set_views(image_sets@)),
    {
        if !matches!(self.trx_type, TransactionType::Vote) {
            return true;
        }
        match &self.data {
            Some(d) => {
                if d.voter_idx >= image_sets.len() {
                    return false;
                }
                let image_set = &image_sets[d.voter_idx];
                d.membership_proof.verify(public_key, &d.cipher_text) && d.cai_proof.verify(
                    public_key,
                    &d.cipher_text,
                    image_set,
                )
            },
            None => false,
        }
    }
}

/// The views of a list of image sets.
pub open spec fn image_set_views(v: Seq<ImageSet>) -> Seq<Seq<Seq<u8>>> {
    v.map_values(|s: ImageSet| s@)
}

/// Whether a transaction's proofs attest the given key and the voter's
/// image set.  Sentinels are always valid.
pub open spec fn spec_tx_valid(t: TransactionView, key: Seq<u8>, images: Seq<Seq<Seq<u8>>>) -> bool {
    match t.trx_type {
        TransactionType::Vote => match t.data {
            Option::Some(d) => {
                &&& 0 <= d.voter_idx < images.len()
                &&& d.membership_proof.key == key
                &&& d.membership_proof.cipher_text == d.cipher_text
                &&& d.cai_proof.key == key
                &&& d.cai_proof.cipher_text == d.cipher_text
                &&& d.cai_proof.images == images[d.voter_idx]
            },
            Option::None => false,
        },
        _ => true,
    }
}

impl Clone for TransactionData {
    fn clone(&self) -> (r: Self)
        ensures
            r@ == self@,
    {
        TransactionData {
            voter_idx: self.voter_idx,
            cipher_text: self.cipher_text.clone(),
            membership_proof: self.membership_proof.clone(),
            cai_proof: self.cai_proof.clone(),
        }
    }
}

impl Clone for Transaction {
    fn clone(&self) -> (r: Self)
        ensures
            r@ == self@,
    {
        Transaction {
            identifier: self.identifier.clone(),
            trx_type: self.trx_type,
            data: match &self.data {
                Some(d) => Some(d.clone()),
                None => None,
            },
        }
    }
}

} // verus!
