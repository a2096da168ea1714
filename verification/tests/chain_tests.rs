use node_rs::chain::block::Block;
use node_rs::chain::block::BlockContent;
use node_rs::chain::chain::Chain;
use node_rs::chain::chain_visitor::HeaviestBlockVisitor;
use node_rs::chain::chain_walker::ChainWalker;
use node_rs::chain::chain_walker::HeaviestBlockWalker;

fn block(identifier: &str, parent: String, timestamp: u64) -> Block {
    Block {
        identifier: identifier.to_string(),
        data: BlockContent { parent, timestamp, transactions: vec![] },
    }
}

#[test]
fn test_add_duplicate_block() {
    let mut chain = Chain::new(String::new());
    let genesis_id = chain.genesis_identifier_hash.clone();

    let b = block("1", genesis_id.clone(), 1);

    assert!(chain.blocks.len().eq(&1));

    // first level
    chain.add_block(b.clone());
    chain.add_block(b.clone());

    // genesis block and the first of the duplicates
    assert!(chain.blocks.len().eq(&2));

    // assert that the adjacency is also correct:
    // i.e. only one child is present for the genesis block
    assert!(chain.children_of(&genesis_id).unwrap().len().eq(&1));
}

/// Test that the longest chain is found if no conflicting
/// branch is present, i.e. a branch having the exact amount of children
/// as another one.
#[test]
fn test_heaviest_path() {
    let mut chain = Chain::new(String::new());
    let genesis_id = chain.genesis_identifier_hash.clone();

    // first level
    chain.add_block(block("1", genesis_id, 1));
    // second level
    chain.add_block(block("21", "1".to_string(), 2));
    chain.add_block(block("22", "1".to_string(), 3));
    // third level
    chain.add_block(block("3", "22".to_string(), 4));
    // fourth level
    chain.add_block(block("4", "3".to_string(), 5));

    let mut heaviest_block_visitor = HeaviestBlockVisitor::new();
    let longest_path_walker = HeaviestBlockWalker::new();
    longest_path_walker.walk_chain(&chain, &mut heaviest_block_visitor);

    let heaviest_block_height = heaviest_block_visitor.height;
    assert!(
        heaviest_block_height.is_some(),
        "Expected that heaviest block height is of type Some()"
    );
    assert!(heaviest_block_height.unwrap().eq(&4), "Expected that heaviest block height is 4");

    let heaviest_block = heaviest_block_visitor.heaviest_block;
    assert!(heaviest_block.is_some());
    let expected_heaviest_block = heaviest_block.unwrap();
    println!("expected heaviest block {:?}", expected_heaviest_block);
    assert!(expected_heaviest_block.eq(&"4".to_string()));
}

#[test]
fn test_heaviest_path_for_two_blocks() {
    let mut chain = Chain::new(String::new());
    let genesis_id = chain.genesis_identifier_hash.clone();

    // first level
    chain.add_block(block("1", genesis_id, 1));

    let mut heaviest_block_visitor = HeaviestBlockVisitor::new();
    let longest_path_walker = HeaviestBlockWalker::new();
    longest_path_walker.walk_chain(&chain, &mut heaviest_block_visitor);

    let heaviest_block_height = heaviest_block_visitor.height;
    assert!(
        heaviest_block_height.is_some(),
        "Expected that heaviest block height is of type Some()"
    );
    assert!(heaviest_block_height.unwrap().eq(&1), "Expected that heaviest block height is 1");

    let option = heaviest_block_visitor.heaviest_block;
    assert!(option.is_some());
    let expected_heaviest_block = option.unwrap();
    println!("expected heaviest block {:?}", expected_heaviest_block);
    assert!(expected_heaviest_block.eq(&"1".to_string()));
}

#[test]
fn test_heaviest_path_for_empty_chain() {
    let chain = Chain::new(String::new());

    let mut heaviest_block_visitor = HeaviestBlockVisitor::new();
    let longest_path_walker = HeaviestBlockWalker::new();
    longest_path_walker.walk_chain(&chain, &mut heaviest_block_visitor);

    let heaviest_block_height = heaviest_block_visitor.height;
    assert!(
        heaviest_block_height.is_some(),
        "Expected that heaviest block height is of type Some()"
    );
    assert!(heaviest_block_height.unwrap().eq(&0), "Expected that heaviest block height is 0");

    let option = heaviest_block_visitor.heaviest_block;
    assert!(option.is_some());
    let expected_heaviest_block = option.unwrap();
    assert!(chain
        .get_block(&expected_heaviest_block)
        .unwrap()
        .data
        .parent
        .eq(&String::new()));
}

#[test]
fn test_get_current_block_ties_go_depth_first() {
    // two branches of equal depth: the first one explored wins
    let mut chain = Chain::new(String::new());
    let genesis_id = chain.genesis_identifier_hash.clone();
    chain.add_block(block("a", genesis_id.clone(), 1));
    chain.add_block(block("b", genesis_id, 2));
    chain.add_block(block("b-child", "b".to_string(), 3));
    chain.add_block(block("a-child", "a".to_string(), 4));

    let (height, current) = chain.get_current_block();
    assert_eq!(height, 2);
    // "a-child" and "b-child" are equally deep; depth-first order reaches
    // the subtree of "a" first
    assert_eq!(current.identifier, "a-child".to_string());
}

#[test]
fn test_block_identifier_is_digest_of_content() {
    let b = Block::new("parent-hash".to_string(), vec![], 77);
    // a SHA-1 digest in lowercase hexadecimal: 40 characters
    assert_eq!(b.identifier.len(), 40);
    assert!(b.identifier.chars().all(|c| c.is_ascii_hexdigit()));
    // reserializing the content and hashing yields the identifier
    assert_eq!(b.content_digest(), b.identifier);
    // and the digest depends on the content
    let other = Block::new("parent-hash".to_string(), vec![], 78);
    assert_ne!(other.identifier, b.identifier);
    assert!(chain_of_two_blocks_has_distinct_ids(&b, &other));
}

fn chain_of_two_blocks_has_distinct_ids(a: &Block, b: &Block) -> bool {
    a.identifier != b.identifier
}

#[test]
fn test_has_parent_of_block() {
    let mut chain = Chain::new(String::new());
    let genesis_id = chain.genesis_identifier_hash.clone();
    let known = block("1", genesis_id, 1);
    let orphan = block("2", "missing".to_string(), 2);
    assert!(chain.has_parent_of_block(&known));
    assert!(!chain.has_parent_of_block(&orphan));
    chain.add_block(known);
    assert!(chain.has_parent_of_block(&orphan) == false);
    assert!(chain.children_of(&"missing".to_string()).is_none());
}

#[test]
fn test_from_blocks_rebuilds_the_same_chain() {
    let mut chain = Chain::new("conf".to_string());
    let genesis_id = chain.genesis_identifier_hash.clone();
    chain.add_block(block("1", genesis_id, 1));
    chain.add_block(block("2", "1".to_string(), 2));

    let rebuilt = Chain::from_blocks("conf".to_string(), &chain.blocks).unwrap();
    assert_eq!(rebuilt, chain);

    // a store whose second block names an unknown parent does not rebuild
    let mut bad = chain.blocks.clone();
    bad[2].data.parent = "unknown".to_string();
    assert!(Chain::from_blocks("conf".to_string(), &bad).is_none());
}

/// Every child recorded in the adjacency names its key as parent, and the
/// adjacency's keys are exactly the stored blocks.
#[test]
fn test_adjacency_matches_blocks() {
    let mut chain = Chain::new(String::new());
    let genesis_id = chain.genesis_identifier_hash.clone();
    chain.add_block(block("1", genesis_id, 1));
    chain.add_block(block("21", "1".to_string(), 2));
    chain.add_block(block("22", "1".to_string(), 3));

    for stored in chain.blocks.clone() {
        let children = chain
            .children_of(&stored.identifier)
            .expect("every stored block is an adjacency key");
        for child in children {
            let child_block = chain.get_block(&child).expect("children name stored blocks");
            assert_eq!(child_block.data.parent, stored.identifier);
        }
    }
    assert_eq!(
        chain.children_of(&"1".to_string()).unwrap(),
        vec!["21".to_string(), "22".to_string()]
    );
    assert!(chain.children_of(&"21".to_string()).unwrap().is_empty());
}
