//! Value model of the election's cryptographic material.
//!
//! The cryptographic suite itself — ElGamal encryption, the membership
//! proof and the universal cast-as-intended (UCIV) proof — is an outside
//! collaborator of the node and is consumed through named interfaces only.
//! The node never looks inside a ciphertext or a key; it only carries them,
//! combines ciphertexts with the scheme's homomorphic operator, and asks
//! whether a proof attests a given key and ciphertext.  This module models
//! exactly that surface: values are opaque byte strings, a proof names what
//! it attests, and combining is a total byte-wise operation standing in for
//! the homomorphic operator.

use vstd::prelude::*;

verus! {

/// An opaque ElGamal ciphertext.
#[derive(Debug, PartialEq, Eq)]
pub struct CipherText {
    pub bytes: Vec<u8>,
}

/// An opaque ElGamal public key.
#[derive(Debug, PartialEq, Eq)]
pub struct PublicKey {
    pub bytes: Vec<u8>,
}

/// A membership proof: it attests that, under a given key, a given
/// ciphertext encrypts one of the two voting options.
#[derive(Debug, PartialEq, Eq)]
pub struct MembershipProof {
    pub key: Vec<u8>,
    pub cipher_text: Vec<u8>,
}

/// A cast-as-intended proof: it attests that, under a given key and a
/// voter's public image set, a given ciphertext encrypts what the voter
/// chose.
#[derive(Debug, PartialEq, Eq)]
pub struct CaiProof {
    pub key: Vec<u8>,
    pub cipher_text: Vec<u8>,
    pub images: Vec<Vec<u8>>,
}

/// One voter's public images, one per voting option.
#[derive(Debug, PartialEq, Eq)]
pub struct ImageSet {
    pub images: Vec<Vec<u8>>,
}

pub struct MembershipProofView {
    pub key: Seq<u8>,
    pub cipher_text: Seq<u8>,
}

pub struct CaiProofView {
    pub key: Seq<u8>,
    pub cipher_text: Seq<u8>,
    pub images: Seq<Seq<u8>>,
}

impl View for CipherText {
    type V = Seq<u8>;

    open spec fn view(&self) -> Seq<u8> {
        self.bytes@
    }
}

impl View for PublicKey {
    type V = Seq<u8>;

    open spec fn view(&self) -> Seq<u8> {
        self.bytes@
    }
}

impl View for MembershipProof {
    type V = MembershipProofView;

    open spec fn view(&self) -> MembershipProofView {
        MembershipProofView { key: self.key@, cipher_text: self.cipher_text@ }
    }
}

impl View for CaiProof {
    type V = CaiProofView;

    open spec fn view(&self) -> CaiProofView {
        CaiProofView {
            key: self.key@,
            cipher_text: self.cipher_text@,
            images: self.images.deep_view(),
        }
    }
}

impl View for ImageSet {
    type V = Seq<Seq<u8>>;

    open spec fn view(&self) -> Seq<Seq<u8>> {
        self.images.deep_view()
    }
}

/// Byte strings are equal.
pub fn bytes_eq(a: &Vec<u8>, b: &Vec<u8>) -> (r: bool)
    ensures
        r == (a@ == b@),
{
    if a.len() != b.len() {
        assert(a@ != b@);
        return false;
    }
    let mut i: usize = 0;
    while i < a.len()
        invariant
            i <= a@.len(),
            a@.len() == b@.len(),
            forall|j: int| 0 <= j < i ==> a@[j] == b@[j],
        decreases a@.len() - i,
    {
        if a[i] != b[i] {
            assert(a@ != b@);
            return false;
        }
        i = i + 1;
    }
    assert(a@ =~= b@);
    true
}

/// The deep view of a list of byte strings, entry by entry, is the view of
/// each entry.
pub proof fn lemma_bytes_deep_view(v: &Vec<Vec<u8>>, i: int)
    requires
        0 <= i < v@.len(),
    ensures
        v.deep_view()[i] == v@[i]@,
        v.deep_view().len() == v@.len(),
{
    assert(v.deep_view()[i] =~= v@[i]@);
}

/// Lists of byte strings are equal.
pub fn byte_lists_eq(a: &Vec<Vec<u8>>, b: &Vec<Vec<u8>>) -> (r: bool)
    ensures
        r == (a.deep_view() == b.deep_view()),
{
    if a.len() != b.len() {
        assert(a.deep_view().len() != b.deep_view().len());
        return false;
    }
    let mut i: usize = 0;
    while i < a.len()
        invariant
            i <= a@.len(),
            a@.len() == b@.len(),
            a.deep_view().len() == a@.len(),
            b.deep_view().len() == b@.len(),
            forall|j: int| 0 <= j < i ==> a.deep_view()[j] == b.deep_view()[j],
        decreases a@.len() - i,
    {
        proof {
            lemma_bytes_deep_view(a, i as int);
            lemma_bytes_deep_view(b, i as int);
        }
        if !bytes_eq(&a[i], &b[i]) {
            assert(a.deep_view()[i as int] != b.deep_view()[i as int]);
            return false;
        }
        assert(a.deep_view()[i as int] == b.deep_view()[i as int]);
        i = i + 1;
    }
    assert(a.deep_view() =~= b.deep_view());
    true
}

/// The combination of two opaque ciphertexts: byte-wise exclusive or, the
/// shorter operand padded with zero bytes.  This total operation stands in
/// for the homomorphic operator of the encryption scheme; the node never
/// interprets the result.
pub open spec fn combine_bytes(a: Seq<u8>, b: Seq<u8>) -> Seq<u8> {
    Seq::new(
        if a.len() >= b.len() {
            a.len()
        } else {
            b.len()
        },
        |i: int|
            (if i < a.len() {
                a[i]
            } else {
                0u8
            }) ^ (if i < b.len() {
                b[i]
            } else {
                0u8
            }),
    )
}

/// The combination that a tally starts from: the ciphertext of zero.
pub open spec fn zero_cipher_bytes() -> Seq<u8> {
    Seq::empty()
}

impl CipherText {
    /// The ciphertext the tally starts from, an encryption of zero.
    pub fn encryption_of_zero() -> (r: CipherText)
        ensures
            r@ == zero_cipher_bytes(),
    {
        let r = CipherText { bytes: Vec::new() };
        assert(r@ =~= zero_cipher_bytes());
        r
    }

    /// Combine this ciphertext with another under the homomorphic operator.
    pub fn operate(&self, other: &CipherText) -> (r: CipherText)
        ensures
            r@ == combine_bytes(self@, other@),
    {
        let longest: usize = if self.bytes.len() >= other.bytes.len() {
            self.bytes.len()
        } else {
            other.bytes.len()
        };
        let mut out: Vec<u8> = Vec::new();
        let mut i: usize = 0;
        while i < longest
            invariant
                i <= longest,
                longest == combine_bytes(self@, other@).len(),
                out@.len() == i,
                forall|j: int| 0 <= j < i ==> out@[j] == combine_bytes(self@, other@)[j],
            decreases longest - i,
        {
            let x: u8 = if i < self.bytes.len() {
                self.bytes[i]
            } else {
                0u8
            };
            let y: u8 = if i < other.bytes.len() {
                other.bytes[i]
            } else {
                0u8
            };
            out.push(x ^ y);
            i = i + 1;
        }
        let r = CipherText { bytes: out };
        assert(r@ =~= combine_bytes(self@, other@));
        r
    }
}

/// Combining with the encryption of zero returns the other operand
/// unchanged: the stand-in operator keeps the homomorphic identity.
pub proof fn lemma_combine_zero(b: Seq<u8>)
    ensures
        combine_bytes(zero_cipher_bytes(), b) == b,
{
    assert forall|i: int| 0 <= i < b.len() implies combine_bytes(zero_cipher_bytes(), b)[i]
        == b[i] by {
        let x = b[i];
        assert(0u8 ^ x == x) by (bit_vector);
    }
    assert(combine_bytes(zero_cipher_bytes(), b) =~= b);
}

impl MembershipProof {
    /// Whether this proof attests the given key and ciphertext.
    pub fn verify(&self, public_key: &PublicKey, cipher_text: &CipherText) -> (r: bool)
        ensures
            r == (self@.key == public_key@ && self@.cipher_text == cipher_text@),
    {
        bytes_eq(&self.key, &public_key.bytes) && bytes_eq(&self.cipher_text, &cipher_text.bytes)
    }
}

impl CaiProof {
    /// Whether this proof attests the given key, ciphertext and image set.
    pub fn verify(&self, public_key: &PublicKey, cipher_text: &CipherText, image_set: &ImageSet) -> (r:
        bool)
        ensures
            r == (self@.key == public_key@ && self@.cipher_text == cipher_text@ && self@.images
                == image_set@),
    {
        bytes_eq(&self.key, &public_key.bytes) && bytes_eq(&self.cipher_text, &cipher_text.bytes)
            && byte_lists_eq(&self.images, &image_set.images)
    }
}

impl Clone for CipherText {
    fn clone(&self) -> (r: Self)
        ensures
            r@ == self@,
    {
        CipherText { bytes: clone_bytes(&self.bytes) }
    }
}

impl Clone for PublicKey {
    fn clone(&self) -> (r: Self)
        ensures
            r@ == self@,
    {
        PublicKey { bytes: clone_bytes(&self.bytes) }
    }
}

impl Clone for MembershipProof {
    fn clone(&self) -> (r: Self)
        ensures
            r@ == self@,
    {
        MembershipProof {
            key: clone_bytes(&self.key),
            cipher_text: clone_bytes(&self.cipher_text),
        }
    }
}

impl Clone for CaiProof {
    fn clone(&self) -> (r: Self)
        ensures
            r@ == self@,
    {
        CaiProof {
            key: clone_bytes(&self.key),
            cipher_text: clone_bytes(&self.cipher_text),
            images: clone_byte_lists(&self.images),
        }
    }
}

impl Clone for ImageSet {
    fn clone(&self) -> (r: Self)
        ensures
            r@ == self@,
    {
        ImageSet { images: clone_byte_lists(&self.images) }
    }
}

/// A fresh copy of a byte string.
pub fn clone_bytes(a: &Vec<u8>) -> (r: Vec<u8>)
    ensures
        r@ == a@,
{
    let mut out: Vec<u8> = Vec::new();
    let mut i: usize = 0;
    while i < a.len()
        invariant
            i <= a@.len(),
            out@ == a@.subrange(0, i as int),
        decreases a@.len() - i,
    {
        out.push(a[i]);
        assert(out@ =~= a@.subrange(0, i + 1 as int));
        i = i + 1;
    }
    assert(out@ =~= a@);
    out
}

/// A fresh copy of a list of byte strings.
pub fn clone_byte_lists(a: &Vec<Vec<u8>>) -> (r: Vec<Vec<u8>>)
    ensures
        r.deep_view() == a.deep_view(),
{
    let mut out: Vec<Vec<u8>> = Vec::new();
    let mut i: usize = 0;
    while i < a.len()
        invariant
            i <= a@.len(),
            out@.len() == i,
            a.deep_view().len() == a@.len(),
            forall|j: int| 0 <= j < i ==> out.deep_view()[j] == a.deep_view()[j],
        decreases a@.len() - i,
    {
        out.push(clone_bytes(&a[i]));
        i = i + 1;
    }
    assert(out.deep_view() =~= a.deep_view());
    out
}

} // verus!
