use node_rs::chain::block::Block;
use node_rs::chain::block::BlockContent;
use node_rs::chain::transaction::Transaction;
use node_rs::config::genesis::CliqueConfig;
use node_rs::config::genesis::Genesis;
use node_rs::config::genesis::GenesisData;
use node_rs::crypto::CaiProof;
use node_rs::crypto::CipherText;
use node_rs::crypto::ImageSet;
use node_rs::crypto::MembershipProof;
use node_rs::crypto::PublicKey;
use node_rs::p2p::codec::Message;
use node_rs::protocol::clique::CliqueProtocol;
use node_rs::protocol::clique::MinterStep;

fn sealers() -> Vec<String> {
    vec!["127.0.0.1:9000".to_string(), "127.0.0.1:9001".to_string(), "127.0.0.1:9002".to_string()]
}

fn genesis() -> Genesis {
    Genesis::new(
        GenesisData {
            version: "0.1.0".to_string(),
            clique: CliqueConfig { block_period: 15, signer_limit: 1 },
            sealer: sealers(),
        },
        PublicKey { bytes: vec![9, 9] },
        vec![
            ImageSet { images: vec![vec![1], vec![0]] },
            ImageSet { images: vec![vec![2], vec![3]] },
        ],
    )
    .unwrap()
}

fn node(index: usize) -> CliqueProtocol {
    CliqueProtocol::new(sealers()[index].clone(), genesis())
}

fn valid_vote(voter_idx: usize, cipher: Vec<u8>) -> Transaction {
    let g = genesis();
    Transaction::new_vote(
        voter_idx,
        CipherText { bytes: cipher.clone() },
        MembershipProof { key: g.public_key.bytes.clone(), cipher_text: cipher.clone() },
        CaiProof {
            key: g.public_key.bytes.clone(),
            cipher_text: cipher,
            images: g.public_uciv[voter_idx].images.clone(),
        },
    )
}

#[test]
fn test_genesis_validation() {
    let ok = GenesisData {
        version: "1".to_string(),
        clique: CliqueConfig { block_period: 1, signer_limit: 0 },
        sealer: vec!["a".to_string()],
    };
    assert!(Genesis::new(ok, PublicKey { bytes: vec![] }, vec![]).is_ok());

    let no_version = GenesisData {
        version: String::new(),
        clique: CliqueConfig { block_period: 1, signer_limit: 0 },
        sealer: vec!["a".to_string()],
    };
    assert!(Genesis::new(no_version, PublicKey { bytes: vec![] }, vec![]).is_err());

    let zero_period = GenesisData {
        version: "1".to_string(),
        clique: CliqueConfig { block_period: 0, signer_limit: 0 },
        sealer: vec!["a".to_string()],
    };
    assert!(Genesis::new(zero_period, PublicKey { bytes: vec![] }, vec![]).is_err());

    let no_sealer = GenesisData {
        version: "1".to_string(),
        clique: CliqueConfig { block_period: 1, signer_limit: 0 },
        sealer: vec![],
    };
    assert!(Genesis::new(no_sealer, PublicKey { bytes: vec![] }, vec![]).is_err());
}

/// Two equal configurations hash alike; different ones differently.
#[test]
fn test_configuration_hash_distinguishes_networks() {
    let a = genesis().configuration_hash();
    let b = genesis().configuration_hash();
    assert_eq!(a, b);
    assert_eq!(a.len(), 40);
    let mut other_data = GenesisData {
        version: "0.1.1".to_string(),
        clique: CliqueConfig { block_period: 15, signer_limit: 1 },
        sealer: sealers(),
    };
    other_data.version = "0.1.1".to_string();
    let other = Genesis::new(other_data, PublicKey { bytes: vec![9, 9] }, vec![]).unwrap();
    assert_ne!(other.configuration_hash(), a);
}

/// At height zero the first sealer leads, the second is co-leader, the
/// third is neither: the two roles never meet on one node.
#[test]
fn test_roles_at_genesis() {
    assert!(node(0).is_leader());
    assert!(!node(0).is_co_leader());
    assert!(!node(1).is_leader());
    assert!(node(1).is_co_leader());
    assert!(!node(2).is_leader());
    assert!(!node(2).is_co_leader());
}

#[test]
fn test_block_period_gate() {
    let p = node(0);
    // the genesis block carries timestamp zero and the period is 15
    assert!(!p.is_block_period_over(14));
    assert!(p.is_block_period_over(15));
    assert!(p.is_block_period_over(u64::MAX));
}

/// An invalid vote is dropped, a valid one is buffered while the node may
/// mint, and a duplicate is buffered once.
#[test]
fn test_on_transaction_receive() {
    let mut p = node(0);
    let bad = Transaction::new_vote(
        0,
        CipherText { bytes: vec![1] },
        MembershipProof { key: vec![0], cipher_text: vec![1] },
        CaiProof { key: vec![0], cipher_text: vec![1], images: vec![vec![1], vec![0]] },
    );
    p.on_transaction_receive(bad);
    assert_eq!(p.transaction_buffer().len(), 0);

    let out_of_range = valid_vote(0, vec![1]);
    let mut forged = out_of_range.clone();
    if let Some(data) = forged.data.as_mut() {
        data.voter_idx = 7;
    }
    p.on_transaction_receive(forged);
    assert_eq!(p.transaction_buffer().len(), 0);

    let good = valid_vote(0, vec![1]);
    p.on_transaction_receive(good.clone());
    assert_eq!(p.transaction_buffer().len(), 1);
    p.on_transaction_receive(good);
    assert_eq!(p.transaction_buffer().len(), 1);

    // a node with no minting role drops even valid transactions
    let mut idle = node(2);
    idle.on_transaction_receive(valid_vote(0, vec![1]));
    assert_eq!(idle.transaction_buffer().len(), 0);
}

/// The minter builds a candidate sealing the buffer, and signing it
/// appends it and hands it back for broadcast, exactly once.
#[test]
fn test_mint_sign_and_idempotence() {
    let mut p = node(0);
    p.on_transaction_receive(valid_vote(0, vec![4]));
    let step = p.minter_step(20);
    let block = match step {
        MinterStep::Propose(block, wiggle) => {
            assert!(!wiggle);
            block
        },
        _ => panic!("the leader with an elapsed period must propose"),
    };
    assert_eq!(p.transaction_buffer().len(), 0);
    assert_eq!(block.data.transactions.len(), 1);

    let broadcast = p.sign(block.clone());
    assert_eq!(broadcast, Some(block.clone()));
    assert_eq!(p.chain().blocks.len(), 2);
    // signing the same block again changes nothing
    assert_eq!(p.sign(block), None);
    assert_eq!(p.chain().blocks.len(), 2);
}

#[test]
fn test_minter_standby_clears_buffer() {
    let mut p = node(0);
    p.on_transaction_receive(valid_vote(0, vec![4]));
    // before the period is over the buffer stays
    match p.minter_step(3) {
        MinterStep::AwaitPeriod => {},
        _ => panic!("the leader must wait for the period"),
    }
    assert_eq!(p.transaction_buffer().len(), 1);
    // a node without a role stands by and clears its buffer
    let mut idle = node(2);
    match idle.minter_step(20) {
        MinterStep::StandBy => {},
        _ => panic!("a node without a role must stand by"),
    }
    assert_eq!(idle.transaction_buffer().len(), 0);
}

/// A taller chain of the same network replaces ours; a foreign or equal
/// one does not.
#[test]
fn test_replace_chain() {
    let mut p = node(0);
    let mut taller = p.chain().clone();
    let genesis_id = taller.genesis_identifier_hash.clone();
    taller.add_block(Block {
        identifier: "r1".to_string(),
        data: BlockContent { parent: genesis_id.clone(), timestamp: 1, transactions: vec![] },
    });
    taller.add_block(Block {
        identifier: "r2".to_string(),
        data: BlockContent { parent: "r1".to_string(), timestamp: 2, transactions: vec![] },
    });

    let mut foreign = node_rs::chain::chain::Chain::new("other-network".to_string());
    let foreign_genesis = foreign.genesis_identifier_hash.clone();
    foreign.add_block(Block {
        identifier: "f1".to_string(),
        data: BlockContent { parent: foreign_genesis, timestamp: 1, transactions: vec![] },
    });

    // a foreign chain is refused whatever its height
    p.replace_chain(foreign);
    assert_eq!(p.chain().blocks.len(), 1);

    // a strictly taller chain of the same network replaces ours
    p.replace_chain(taller.clone());
    assert_eq!(p.chain().blocks.len(), 3);

    // an equally tall chain does not replace ours: no thrash
    let same_height = taller;
    p.replace_chain(same_height);
    assert_eq!(p.chain().blocks.len(), 3);
}

#[test]
fn test_handle_matrix() {
    let mut p = node(0);
    assert_eq!(p.handle(Message::Ping), Message::Pong);
    assert_eq!(p.handle(Message::Pong), Message::Nothing);
    assert_eq!(p.handle(Message::Nothing), Message::Nothing);
    assert_eq!(p.handle(Message::BlockAccept), Message::Nothing);
    assert_eq!(p.handle(Message::RequestTally), Message::Nothing);

    let vote = valid_vote(0, vec![5]);
    let reply = p.handle(Message::TransactionPayload(vote.clone()));
    assert_eq!(reply, Message::TransactionAccept(vote.identifier.clone()));
    assert_eq!(p.transaction_buffer().len(), 1);

    assert_eq!(p.handle(Message::OpenVote), Message::OpenVoteAccept);
    assert_eq!(p.handle(Message::CloseVote), Message::CloseVoteAccept);
    assert_eq!(p.transaction_buffer().len(), 3);

    match p.handle(Message::ChainRequest) {
        Message::ChainResponse(c) => assert_eq!(&c, p.chain()),
        _ => panic!("a chain request earns a chain response"),
    }
}

/// An arriving block purges matching buffered transactions and is accepted
/// once, reported duplicated after.
#[test]
fn test_handle_block_payload_purges_buffer() {
    let mut p = node(0);
    let vote = valid_vote(0, vec![6]);
    p.on_transaction_receive(vote.clone());
    assert_eq!(p.transaction_buffer().len(), 1);

    let parent = p.chain().genesis_identifier_hash.clone();
    let block = Block::new(parent, vec![vote], 30);
    assert_eq!(p.handle(Message::BlockPayload(block.clone())), Message::BlockAccept);
    assert_eq!(p.transaction_buffer().len(), 0);
    assert_eq!(p.chain().blocks.len(), 2);
    assert_eq!(p.handle(Message::BlockPayload(block)), Message::BlockDuplicated);
    assert_eq!(p.chain().blocks.len(), 2);
}

#[test]
fn test_handle_chain_response_reconciles() {
    let mut p = node(0);
    let mut taller = p.chain().clone();
    let genesis_id = taller.genesis_identifier_hash.clone();
    taller.add_block(Block {
        identifier: "r1".to_string(),
        data: BlockContent { parent: genesis_id, timestamp: 1, transactions: vec![] },
    });
    assert_eq!(p.handle(Message::ChainResponse(taller)), Message::ChainAccept);
    assert_eq!(p.chain().blocks.len(), 2);
}

#[test]
fn test_handle_find_transaction() {
    let mut p = node(0);
    let vote = valid_vote(1, vec![8]);
    let parent = p.chain().genesis_identifier_hash.clone();
    let block = Block::new(parent, vec![vote.clone()], 30);
    p.handle(Message::BlockPayload(block));

    match p.handle(Message::FindTransaction(vote.identifier.clone())) {
        Message::FindTransactionResponse(Some(found)) => {
            assert_eq!(found.identifier, vote.identifier)
        },
        _ => panic!("the sealed transaction must be found"),
    }
    match p.handle(Message::FindTransaction("absent".to_string())) {
        Message::FindTransactionResponse(None) => {},
        _ => panic!("an unknown identifier must not be found"),
    }
}

/// Client traffic earns a reply and a broadcast; peer traffic never
/// broadcasts.
#[test]
fn test_handle_rpc_matrix() {
    let mut p = node(0);
    let vote = valid_vote(0, vec![5]);
    match p.handle_rpc(Message::TransactionPayload(vote.clone())) {
        Some((reply, broadcast)) => {
            assert_eq!(reply, Message::TransactionAccept(vote.identifier.clone()));
            assert_eq!(broadcast, Message::TransactionPayload(vote));
        },
        None => panic!("a client transaction earns a reply and a broadcast"),
    }
    match p.handle_rpc(Message::OpenVote) {
        Some((reply, broadcast)) => {
            assert_eq!(reply, Message::OpenVoteAccept);
            assert_eq!(broadcast, Message::OpenVote);
        },
        None => panic!("opening the vote earns a reply and a broadcast"),
    }
    match p.handle_rpc(Message::RequestTally) {
        Some((reply, broadcast)) => {
            match reply {
                Message::RequestTallyPayload(t) => assert_eq!(t.total_votes, 0),
                _ => panic!("a tally request earns the tally"),
            }
            assert_eq!(broadcast, Message::Nothing);
        },
        None => panic!("a tally request earns a reply"),
    }
    assert!(p.handle_rpc(Message::Ping).is_none());
    assert!(p.handle_rpc(Message::BlockAccept).is_none());
}

/// The whole election, end to end on one node: open, vote, close, tally.
/// A single sealer leads every epoch.
#[test]
fn test_election_end_to_end() {
    let lone = Genesis::new(
        GenesisData {
            version: "0.1.0".to_string(),
            clique: CliqueConfig { block_period: 15, signer_limit: 1 },
            sealer: vec!["127.0.0.1:9000".to_string()],
        },
        PublicKey { bytes: vec![9, 9] },
        vec![
            ImageSet { images: vec![vec![1], vec![0]] },
            ImageSet { images: vec![vec![2], vec![3]] },
        ],
    )
    .unwrap();
    let mut p = CliqueProtocol::new("127.0.0.1:9000".to_string(), lone);
    p.handle(Message::OpenVote);
    let step = p.minter_step(20);
    let block = match step {
        MinterStep::Propose(b, _) => b,
        _ => panic!("the leader must propose"),
    };
    p.sign(block);

    p.handle(Message::TransactionPayload(valid_vote(0, vec![1, 0])));
    p.handle(Message::TransactionPayload(valid_vote(1, vec![0, 1])));
    let step = p.minter_step(40);
    let block = match step {
        MinterStep::Propose(b, _) => b,
        _ => panic!("the leader must propose"),
    };
    p.sign(block);

    p.handle(Message::CloseVote);
    let step = p.minter_step(60);
    let block = match step {
        MinterStep::Propose(b, _) => b,
        _ => panic!("the leader must propose"),
    };
    p.sign(block);

    let tally = p.calculate_result();
    assert_eq!(tally.total_votes, 2);
    assert_eq!(tally.cipher_text, CipherText { bytes: vec![1, 1] });
}
