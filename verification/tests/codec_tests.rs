use node_rs::chain::block::Block;
use node_rs::chain::block::BlockContent;
use node_rs::chain::chain::Chain;
use node_rs::chain::transaction::Transaction;
use node_rs::crypto::CaiProof;
use node_rs::crypto::CipherText;
use node_rs::crypto::MembershipProof;
use node_rs::p2p::codec::JsonCodec;
use node_rs::p2p::codec::Message;
use node_rs::protocol::clique::Tally;

fn round_trips(m: Message) {
    let encoded = JsonCodec::encode(m);
    let copy = JsonCodec::decode(encoded.clone());
    let reencoded = JsonCodec::encode(copy);
    assert_eq!(encoded, reencoded);
}

fn vote() -> Transaction {
    Transaction::new_vote(
        3,
        CipherText { bytes: vec![1, 2, 3] },
        MembershipProof { key: vec![9], cipher_text: vec![1, 2, 3] },
        CaiProof { key: vec![9], cipher_text: vec![1, 2, 3], images: vec![vec![1], vec![0]] },
    )
}

fn sample_chain() -> Chain {
    let mut chain = Chain::new("conf".to_string());
    let genesis_id = chain.genesis_identifier_hash.clone();
    chain.add_block(Block {
        identifier: "b1".to_string(),
        data: BlockContent {
            parent: genesis_id,
            timestamp: 4,
            transactions: vec![Transaction::new_voting_opened(), vote()],
        },
    });
    chain
}

#[test]
fn test_codec_unit_variants_round_trip() {
    round_trips(Message::Ping);
    round_trips(Message::Pong);
    round_trips(Message::BlockAccept);
    round_trips(Message::BlockDuplicated);
    round_trips(Message::ChainRequest);
    round_trips(Message::ChainAccept);
    round_trips(Message::OpenVote);
    round_trips(Message::OpenVoteAccept);
    round_trips(Message::CloseVote);
    round_trips(Message::CloseVoteAccept);
    round_trips(Message::RequestTally);
    round_trips(Message::Nothing);
}

#[test]
fn test_codec_ping_decodes_to_ping() {
    let m = JsonCodec::decode(JsonCodec::encode(Message::Ping));
    assert_eq!(m, Message::Ping);
}

#[test]
fn test_codec_payload_variants_round_trip() {
    let m = JsonCodec::decode(JsonCodec::encode(Message::TransactionPayload(vote())));
    assert_eq!(m, Message::TransactionPayload(vote()));

    let m = JsonCodec::decode(JsonCodec::encode(Message::TransactionAccept("id-1".to_string())));
    assert_eq!(m, Message::TransactionAccept("id-1".to_string()));

    let m = JsonCodec::decode(JsonCodec::encode(Message::BlockRequest("x".to_string())));
    assert_eq!(m, Message::BlockRequest("x".to_string()));

    let b = Block::new("parent".to_string(), vec![vote()], 9);
    let m = JsonCodec::decode(JsonCodec::encode(Message::BlockPayload(b.clone())));
    assert_eq!(m, Message::BlockPayload(b));

    let m = JsonCodec::decode(JsonCodec::encode(Message::FindTransaction("t".to_string())));
    assert_eq!(m, Message::FindTransaction("t".to_string()));

    let m = JsonCodec::decode(JsonCodec::encode(Message::FindTransactionResponse(None)));
    assert_eq!(m, Message::FindTransactionResponse(None));

    let m = JsonCodec::decode(JsonCodec::encode(Message::FindTransactionResponse(Some(vote()))));
    assert_eq!(m, Message::FindTransactionResponse(Some(vote())));

    let t = Tally { total_votes: 2, cipher_text: CipherText { bytes: vec![5, 6] } };
    let m = JsonCodec::decode(JsonCodec::encode(Message::RequestTallyPayload(t.clone())));
    assert_eq!(m, Message::RequestTallyPayload(t));
}

#[test]
fn test_codec_chain_round_trip() {
    let chain = sample_chain();
    let m = JsonCodec::decode(JsonCodec::encode(Message::ChainResponse(chain.clone())));
    assert_eq!(m, Message::ChainResponse(chain));
}

/// Malformed wire bytes collapse to the no-op message.
#[test]
fn test_codec_decode_failure_collapses() {
    assert_eq!(JsonCodec::decode(String::new()), Message::Nothing);
    assert_eq!(JsonCodec::decode("hello".to_string()), Message::Nothing);
    assert_eq!(JsonCodec::decode("99:".to_string()), Message::Nothing);
    // trailing bytes after a well-formed message are refused too
    let mut s = JsonCodec::encode(Message::Ping);
    s.push('!');
    assert_eq!(JsonCodec::decode(s), Message::Nothing);
    // a sentinel transaction must not carry a payload flag
    assert_eq!(JsonCodec::decode("2:1:a:1:1:".to_string()), Message::Nothing);
}

/// The encoded form really is the tag and the payload, not the input
/// handed back: encoding distinct messages yields distinct texts, and the
/// text of a ping is just its tag.
#[test]
fn test_codec_encoding_shape() {
    assert_eq!(JsonCodec::encode(Message::Ping), "0:".to_string());
    assert_eq!(JsonCodec::encode(Message::Pong), "1:".to_string());
    assert_eq!(
        JsonCodec::encode(Message::TransactionAccept("ab".to_string())),
        "3:2:ab".to_string()
    );
}
