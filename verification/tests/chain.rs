use wallet_ledger::blockchain::block::Block;
use wallet_ledger::blockchain::{BlockChain, ChainError};
use wallet_ledger::ledger::{transfer_event, update_blockchain};

fn chain_of(n: usize) -> BlockChain {
    let mut chain = BlockChain::new().expect("genesis");
    for i in 1..n {
        chain.add_block(&format!("event {}", i)).expect("append");
    }
    chain
}

#[test]
fn new_chain_is_genesis_only_and_valid() {
    let chain = BlockChain::new().expect("genesis");
    assert_eq!(chain.blocks.len(), 1);
    assert_eq!(chain.blocks[0].index, 0);
    assert_eq!(chain.blocks[0].previous_hash, "0");
    assert_eq!(chain.blocks[0].data, "Genesis Block");
    assert!(chain.is_valid());
}

#[test]
fn empty_chain_is_invalid() {
    let chain = BlockChain { blocks: Vec::new() };
    assert!(!chain.is_valid());
}

#[test]
fn append_links_to_the_last_block() {
    let mut chain = BlockChain::new().expect("genesis");
    assert_eq!(chain.add_block("first"), Ok(()));
    assert_eq!(chain.add_block("second"), Ok(()));
    assert_eq!(chain.blocks.len(), 3);
    for i in 1..3 {
        assert_eq!(chain.blocks[i].index, i as u64);
        assert_eq!(chain.blocks[i].previous_hash, chain.blocks[i - 1].hash);
        assert!(chain.blocks[i].hash.starts_with("00"));
    }
    assert_eq!(chain.blocks[1].data, "first");
    assert_eq!(chain.blocks[2].data, "second");
}

#[test]
fn append_keeps_a_valid_chain_valid() {
    let mut chain = BlockChain::new().expect("genesis");
    for i in 0..5 {
        assert!(chain.is_valid());
        chain.add_block(&format!("payload {}", i)).expect("append");
    }
    assert!(chain.is_valid());
    assert_eq!(chain.blocks.len(), 6);
}

#[test]
fn append_does_not_mend_a_broken_chain() {
    let mut chain = chain_of(3);
    chain.blocks[1].data = String::from("forged");
    assert!(!chain.is_valid());
    chain.add_block("later").expect("append");
    assert!(!chain.is_valid());
}

#[test]
fn append_after_the_last_index_is_refused() {
    let last = Block::mine(u64::MAX, String::from("0"), 1, "last", u64::MAX).expect("a seal exists");
    let mut chain = BlockChain { blocks: vec![last] };
    assert_eq!(chain.add_block("x"), Err(ChainError::IndexOverflow));
    assert_eq!(chain.blocks.len(), 1);
    assert_eq!(chain.blocks[0].data, "last");
}

#[test]
fn tampering_with_data_of_a_middle_block_is_detected() {
    let mut chain = chain_of(4);
    assert!(chain.is_valid());
    chain.blocks[1].data = String::from("Sent 1000000 coins from 'bob' to 'mallory'");
    assert!(!chain.is_valid());
}

#[test]
fn tampering_with_each_field_of_a_middle_block_is_detected() {
    let chain = chain_of(4);

    let mut forged = chain.clone();
    forged.blocks[2].index += 1;
    assert!(!forged.is_valid());

    let mut forged = chain.clone();
    forged.blocks[2].timestamp += 1;
    assert!(!forged.is_valid());

    let mut forged = chain.clone();
    forged.blocks[2].nonce += 1;
    assert!(!forged.is_valid());

    let mut forged = chain.clone();
    forged.blocks[2].hash = Block::calculate_hash(9, "x", 9, "x", 9);
    assert!(!forged.is_valid());

    let mut forged = chain.clone();
    forged.blocks[2].previous_hash = String::from("00");
    assert!(!forged.is_valid());

    assert!(chain.is_valid());
}

#[test]
fn resealing_a_forged_middle_block_breaks_the_next_link() {
    let mut chain = chain_of(3);
    let old = chain.blocks[1].clone();
    let forged = Block::mine(old.index, old.previous_hash.clone(), old.timestamp, "forged", u64::MAX)
        .expect("a seal exists");
    chain.blocks[1] = forged;
    assert!(!chain.is_valid());
}

#[test]
fn genesis_is_only_checked_for_its_hash() {
    let mut chain = chain_of(3);
    chain.blocks[0].data = String::from("another beginning");
    assert!(chain.is_valid());
    chain.blocks[0].hash = String::from("00ff");
    assert!(!chain.is_valid());
}

#[test]
fn validity_does_not_ask_for_difficulty() {
    // A block whose hash is the digest of its contents but does not start
    // with two zeros: nonce 0 for these contents.
    let genesis = Block::mine(0, String::from("0"), 0, "Genesis Block", u64::MAX).expect("a seal exists");
    let hash = Block::calculate_hash(1, &genesis.hash, 5, "cheap", 0);
    assert!(!hash.starts_with("00"));
    let cheap = Block {
        index: 1,
        previous_hash: genesis.hash.clone(),
        timestamp: 5,
        data: String::from("cheap"),
        hash,
        nonce: 0,
    };
    let chain = BlockChain { blocks: vec![genesis, cheap] };
    assert!(chain.is_valid());
}

#[test]
fn chain_clone_is_a_separate_copy() {
    let chain = chain_of(3);
    let mut copy = chain.clone();
    assert_eq!(copy.blocks.len(), 3);
    for i in 0..3 {
        assert_eq!(copy.blocks[i].hash, chain.blocks[i].hash);
        assert_eq!(copy.blocks[i].data, chain.blocks[i].data);
    }
    copy.blocks[1].data = String::from("changed");
    assert_eq!(chain.blocks[1].data, "event 1");
}

#[test]
fn update_appends_to_a_copy() {
    let chain = chain_of(2);
    let next = update_blockchain(&chain, "Sent 30 coins from 'alice' to 'bob'").expect("valid chain");
    assert_eq!(chain.blocks.len(), 2);
    assert_eq!(next.blocks.len(), 3);
    assert!(next.is_valid());
    assert_eq!(next.blocks[2].index, 2);
    assert_eq!(next.blocks[2].previous_hash, chain.blocks[1].hash);
    assert_eq!(next.blocks[2].data, "Sent 30 coins from 'alice' to 'bob'");
    for i in 0..2 {
        assert_eq!(next.blocks[i].hash, chain.blocks[i].hash);
    }
}

#[test]
fn update_rejects_a_broken_chain() {
    let mut chain = chain_of(3);
    chain.blocks[1].nonce += 1;
    match update_blockchain(&chain, "event") {
        Err(e) => assert_eq!(e, ChainError::IntegrityViolation),
        Ok(_) => panic!("a broken chain was handed out"),
    }
    assert_eq!(chain.blocks.len(), 3);
}

#[test]
fn update_of_an_empty_chain_is_refused() {
    let chain = BlockChain { blocks: Vec::new() };
    match update_blockchain(&chain, "event") {
        Err(e) => assert_eq!(e, ChainError::EmptyChain),
        Ok(_) => panic!("an empty chain was extended"),
    }
}

#[test]
fn transfer_event_wording() {
    assert_eq!(transfer_event(30, "alice", "bob"), "Sent 30 coins from 'alice' to 'bob'");
    assert_eq!(transfer_event(0, "", ""), "Sent 0 coins from '' to ''");
}

#[test]
fn chain_sealed_for_given_times() {
    let genesis = Block::mine(0, String::from("0"), 1700000000, "Genesis Block", u64::MAX)
        .expect("a seal exists");
    let mut chain = BlockChain { blocks: vec![genesis] };
    assert_eq!(chain.add_block_at("Sent 30 coins from 'alice' to 'bob'", 1700000001, u64::MAX),
        Ok(()));
    assert_eq!(chain.blocks.len(), 2);
    let block = &chain.blocks[1];
    assert_eq!(block.index, 1);
    assert_eq!(
        block.previous_hash,
        "0015841f3e96c1f132e93c9fc0a83057134b4273155481ae4e361855fdf8bf5d"
    );
    assert_eq!(block.timestamp, 1700000001);
    assert_eq!(block.data, "Sent 30 coins from 'alice' to 'bob'");
    assert_eq!(block.nonce, 64);
    assert_eq!(block.hash, "000596e28d9a083aace83654da38a81c0cee9b418fa122fe6eb32aeffc8bd069");
    assert!(chain.is_valid());
}

#[test]
fn append_at_a_given_time_after_the_last_index_is_refused() {
    let last = Block::mine(u64::MAX, String::from("0"), 1, "last", u64::MAX).expect("a seal exists");
    let mut full = BlockChain { blocks: vec![last] };
    assert_eq!(full.add_block_at("x", 1, u64::MAX), Err(ChainError::IndexOverflow));
    assert_eq!(full.blocks.len(), 1);
}

#[test]
fn append_gives_up_at_the_bound() {
    let genesis = Block::mine(0, String::from("0"), 1700000000, "Genesis Block", u64::MAX)
        .expect("a seal exists");
    let mut chain = BlockChain { blocks: vec![genesis] };
    // For this block and time the first sealing nonce is 64.
    let data = "Sent 30 coins from 'alice' to 'bob'";
    assert_eq!(chain.add_block_at(data, 1700000001, 0), Err(ChainError::SealingTimeout));
    assert_eq!(chain.add_block_at(data, 1700000001, 63), Err(ChainError::SealingTimeout));
    assert_eq!(chain.blocks.len(), 1);
    assert!(chain.is_valid());
    assert_eq!(chain.add_block_at(data, 1700000001, 64), Ok(()));
    assert_eq!(chain.blocks.len(), 2);
    assert_eq!(chain.blocks[1].nonce, 64);
}
