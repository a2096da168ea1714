use node_rs::chain::block::Block;
use node_rs::chain::block::BlockContent;
use node_rs::chain::chain::Chain;
use node_rs::chain::chain_visitor::SumCipherTextVisitor;
use node_rs::chain::chain_walker::ChainWalker;
use node_rs::chain::chain_walker::LongestPathWalker;
use node_rs::chain::transaction::Transaction;
use node_rs::crypto::CaiProof;
use node_rs::crypto::CipherText;
use node_rs::crypto::ImageSet;
use node_rs::crypto::MembershipProof;
use node_rs::crypto::PublicKey;

fn public_key() -> PublicKey {
    PublicKey { bytes: vec![9, 9, 9] }
}

fn image_set() -> ImageSet {
    ImageSet { images: vec![vec![1], vec![0]] }
}

/// A vote whose proofs attest the given key, ciphertext and image set.
fn vote(voter_idx: usize, cipher: Vec<u8>) -> Transaction {
    let key = public_key();
    Transaction::new_vote(
        voter_idx,
        CipherText { bytes: cipher.clone() },
        MembershipProof { key: key.bytes.clone(), cipher_text: cipher.clone() },
        CaiProof { key: key.bytes, cipher_text: cipher, images: image_set().images },
    )
}

fn tally_of(chain: &Chain) -> (usize, CipherText) {
    let mut visitor = SumCipherTextVisitor::new(public_key());
    let walker = LongestPathWalker::new();
    walker.walk_chain(chain, &mut visitor);
    visitor.get_votes()
}

/// Voting never opened on an empty chain: zero votes, the encryption of
/// zero.
#[test]
fn test_tally_empty_chain() {
    let chain = Chain::new(String::new());
    let (total, cipher) = tally_of(&chain);
    assert_eq!(total, 0);
    assert_eq!(cipher, CipherText::encryption_of_zero());
}

/// A single leaf block holding open sentinel, one vote and close sentinel:
/// the walk reads the block newest-entry-first, so the close sentinel is
/// seen before the vote and the vote counts.
#[test]
fn test_tally_single_block_with_sentinels() {
    let mut chain = Chain::new(String::new());
    let genesis_id = chain.genesis_identifier_hash.clone();
    let b1 = Block {
        identifier: "b1".to_string(),
        data: BlockContent {
            parent: genesis_id,
            timestamp: 1,
            transactions: vec![
                Transaction::new_voting_opened(),
                vote(0, vec![7, 7]),
                Transaction::new_voting_closed(),
            ],
        },
    };
    chain.add_block(b1);

    let (total, cipher) = tally_of(&chain);
    assert_eq!(total, 1);
    // combining the encryption of zero with c1 yields c1
    assert_eq!(cipher, CipherText { bytes: vec![7, 7] });
}

/// A vote above the close sentinel does not count; a second vote by the
/// same voter below it does, once.
#[test]
fn test_tally_duplicate_voter_and_unclosed_vote() {
    let mut chain = Chain::new(String::new());
    let genesis_id = chain.genesis_identifier_hash.clone();
    // parent block: the voting window
    chain.add_block(Block {
        identifier: "window".to_string(),
        data: BlockContent {
            parent: genesis_id,
            timestamp: 1,
            transactions: vec![
                Transaction::new_voting_opened(),
                vote(0, vec![2, 2]),
                Transaction::new_voting_closed(),
            ],
        },
    });
    // leaf block: a vote arriving after the window closed
    chain.add_block(Block {
        identifier: "late".to_string(),
        data: BlockContent {
            parent: "window".to_string(),
            timestamp: 2,
            transactions: vec![vote(0, vec![1, 1])],
        },
    });

    let (total, cipher) = tally_of(&chain);
    assert_eq!(total, 1);
    // the vote inside the window counts, the late one does not
    assert_eq!(cipher, CipherText { bytes: vec![2, 2] });
}

/// Without the open sentinel anywhere, the tally reports zero votes even
/// if votes and a close sentinel appear.
#[test]
fn test_tally_never_opened() {
    let mut chain = Chain::new(String::new());
    let genesis_id = chain.genesis_identifier_hash.clone();
    chain.add_block(Block {
        identifier: "b".to_string(),
        data: BlockContent {
            parent: genesis_id,
            timestamp: 1,
            transactions: vec![vote(0, vec![5]), Transaction::new_voting_closed()],
        },
    });
    let (total, cipher) = tally_of(&chain);
    assert_eq!(total, 0);
    assert_eq!(cipher, CipherText::encryption_of_zero());
}

/// Combining ciphertexts is the byte-wise operation with the empty
/// ciphertext as identity.
#[test]
fn test_operate_identity() {
    let zero = CipherText::encryption_of_zero();
    let c = CipherText { bytes: vec![3, 1, 4] };
    assert_eq!(zero.operate(&c), c);
    let d = CipherText { bytes: vec![1, 1] };
    assert_eq!(c.operate(&d), CipherText { bytes: vec![2, 0, 4] });
}

/// The two sentinels carry fixed, well-known identifiers.
#[test]
fn test_sentinel_identifiers_are_fixed() {
    let a = Transaction::new_voting_opened();
    let b = Transaction::new_voting_opened();
    let c = Transaction::new_voting_closed();
    assert_eq!(a.identifier, b.identifier);
    assert_ne!(a.identifier, c.identifier);
    assert_eq!(a.identifier.len(), 40);
}
