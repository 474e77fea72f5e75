use near_chain::block::{Block, BlockHeader, TestSigner, GENESIS_PREV_HASH};
use near_chain::chain::{fork_choice, Chain, ChallengeEvidence, ErrorKind, Tip, UnfitReason};

fn extend(chain: &mut Chain, parent: &Block, signer: &mut TestSigner) -> Block {
    let block = Block::empty(parent, signer);
    chain.process_block(block.clone()).unwrap();
    block
}

fn genesis_block(chain: &Chain) -> Block {
    let hash = *chain.head_header().unwrap().hash();
    chain.get_block(&hash).unwrap()
}

/// A chain of `n` blocks above genesis, with the blocks in height order.
fn linear_chain(n: usize) -> (Chain, TestSigner, Vec<Block>) {
    let mut chain = Chain::new(0);
    let mut signer = TestSigner::new(1);
    let mut blocks = vec![genesis_block(&chain)];
    for _ in 0..n {
        let parent = blocks[blocks.len() - 1].clone();
        blocks.push(extend(&mut chain, &parent, &mut signer));
    }
    (chain, signer, blocks)
}

fn assert_index_sound(chain: &Chain) {
    let head = chain.head();
    let mut expected = head.last_block_hash;
    let mut h = head.height;
    loop {
        let header = chain.get_header_by_height(h).unwrap();
        assert_eq!(header.height, h);
        assert_eq!(header.hash, expected);
        if h == 0 {
            break;
        }
        expected = header.prev_hash;
        h -= 1;
    }
    assert!(chain.get_header_by_height(head.height + 1).is_err());
}

#[test]
fn new_chain_holds_genesis() {
    let chain = Chain::new(7);
    let head = chain.head();
    assert_eq!(head.height, 0);
    let genesis = chain.head_header().unwrap();
    assert_eq!(genesis.prev_hash, GENESIS_PREV_HASH);
    assert_eq!(genesis.signer, 7);
    assert_eq!(head.last_block_hash, genesis.hash);
    assert_eq!(chain.get_canonical(0), Some(genesis.hash));
    assert_eq!(chain.get_canonical(1), None);
    assert!(!chain.is_invalid(&genesis.hash));
}

#[test]
fn header_hash_exact_values() {
    assert_eq!(BlockHeader::new(0, 0, 0, 0).hash, 5558979605539197941);
    assert_eq!(BlockHeader::new(1, 2, 3, 4).hash, 13725386680924731485);
    assert_ne!(BlockHeader::new(1, 2, 3, 4).hash, BlockHeader::new(1, 2, 3, 5).hash);
}

#[test]
fn signer_nonce_makes_sibling_blocks_differ() {
    let chain = Chain::new(0);
    let genesis = genesis_block(&chain);
    let mut signer = TestSigner::new(1);
    let a = Block::empty(&genesis, &mut signer);
    let b = Block::empty(&genesis, &mut signer);
    assert_eq!(a.header.timestamp, 0);
    assert_eq!(b.header.timestamp, 1);
    assert_ne!(a.hash(), b.hash());
    assert_eq!(signer.nonce, 2);
}

#[test]
fn fork_choice_rule() {
    let t = |height: u64, hash: u64| Tip { last_block_hash: hash, height, prev_block_hash: 0 };
    assert!(fork_choice(&t(3, 1), true, &t(4, 2)));
    assert!(!fork_choice(&t(3, 1), true, &t(3, 2)));
    assert!(fork_choice(&t(3, 1), false, &t(3, 2)));
    assert!(!fork_choice(&t(3, 1), false, &t(2, 2)));
}

#[test]
fn higher_block_becomes_head() {
    let (chain, _, blocks) = linear_chain(3);
    let head = chain.head();
    assert_eq!(head.height, 3);
    assert_eq!(head.last_block_hash, *blocks[3].hash());
    assert_eq!(head.prev_block_hash, *blocks[2].hash());
    assert_index_sound(&chain);
}

#[test]
fn unknown_parent_is_unfit() {
    let (mut chain, mut signer, _) = linear_chain(1);
    let stranger = Block { header: BlockHeader::new(999, 1, 1, 0), body: vec![] };
    let orphan = Block::empty(&stranger, &mut signer);
    let e = chain.process_block(orphan).unwrap_err();
    assert_eq!(e.kind(), ErrorKind::Unfit(UnfitReason::UnknownParent));
    assert_eq!(chain.head().height, 1);
}

#[test]
fn wrong_height_is_unfit() {
    let (mut chain, mut signer, blocks) = linear_chain(1);
    let bad = Block::empty_with_height(&blocks[1], 5, &mut signer);
    let e = chain.process_block(bad.clone()).unwrap_err();
    assert_eq!(e.kind(), ErrorKind::Unfit(UnfitReason::WrongHeight));
    assert!(chain.get_block(bad.hash()).is_none());
}

#[test]
fn resubmitted_block_is_unfit_and_changes_nothing() {
    let (mut chain, _, blocks) = linear_chain(2);
    let before = chain.head();
    let e = chain.process_block(blocks[2].clone()).unwrap_err();
    assert_eq!(e.kind(), ErrorKind::Unfit(UnfitReason::AlreadyKnown));
    assert_eq!(chain.head(), before);
    assert_eq!(chain.get_canonical(2), Some(*blocks[2].hash()));
    assert_eq!(chain.get_canonical(3), None);
    let e = chain.process_block_header(blocks[1].header(), |_| panic!("no challenge expected")).unwrap_err();
    assert_eq!(e.kind(), ErrorKind::Unfit(UnfitReason::AlreadyKnown));
}

#[test]
fn conflicting_content_under_one_hash_is_a_store_error() {
    let (mut chain, _, blocks) = linear_chain(1);
    let forged = BlockHeader {
        hash: *blocks[1].hash(),
        prev_hash: *blocks[0].hash(),
        height: 1,
        signer: 9,
        timestamp: 9,
    };
    let e = chain.process_block(Block { header: forged, body: vec![] }).unwrap_err();
    assert_eq!(e.kind(), ErrorKind::StoreError);
    assert_eq!(chain.get_block(blocks[1].hash()).unwrap().header, blocks[1].header);
}

#[test]
fn block_body_is_kept() {
    let (mut chain, mut signer, blocks) = linear_chain(1);
    let mut block = Block::empty(&blocks[1], &mut signer);
    block.body = vec![1, 2, 3];
    chain.process_block(block.clone()).unwrap();
    assert_eq!(chain.get_block(block.hash()).unwrap().body, vec![1, 2, 3]);
    assert!(chain.get_block(&12345).is_none());
    assert_eq!(chain.get_header(block.hash()), Some(block.header));
}

#[test]
fn equal_height_keeps_first_seen() {
    let (mut chain, mut signer, blocks) = linear_chain(2);
    let sibling = Block::empty(&blocks[1], &mut signer);
    let tip = chain.process_block(sibling.clone()).unwrap();
    assert_eq!(tip, None);
    assert_eq!(chain.head().last_block_hash, *blocks[2].hash());
    assert!(chain.get_block(sibling.hash()).is_some());
}

#[test]
fn challenge_precedence_tie_break() {
    let (mut chain, mut signer, blocks) = linear_chain(2);
    let b3 = extend(&mut chain, &blocks[2], &mut signer);
    let c3 = Block::empty(&blocks[2], &mut signer);
    assert_eq!(chain.process_block(c3.clone()).unwrap(), None);
    assert_eq!(chain.head().last_block_hash, *b3.hash());
    let b4 = extend(&mut chain, &b3, &mut signer);
    let c4 = extend(&mut chain, &c3, &mut signer);
    assert_eq!(chain.head().last_block_hash, *b4.hash());
    // Challenging the block at height 4 off the canonical chain leaves the head.
    chain.mark_block_as_challenged(c4.hash(), c3.hash()).unwrap();
    assert_eq!(chain.head().last_block_hash, *b4.hash());
    assert_index_sound(&chain);
    // Challenging the canonical block at height 4 rolls back to B3, not C3.
    chain.mark_block_as_challenged(b4.hash(), c3.hash()).unwrap();
    assert_eq!(chain.head().last_block_hash, *b3.hash());
    assert_eq!(chain.get_canonical(3), Some(*b3.hash()));
    assert_index_sound(&chain);
}

#[test]
fn rollback_then_parent_at_old_height_five_is_challenged_on_chain() {
    let (mut chain, mut signer, blocks) = linear_chain(5);
    let challenger = Block::empty_with_height(&blocks[2], 3, &mut signer);
    chain.process_block(challenger.clone()).unwrap();
    chain.mark_block_as_challenged(blocks[4].hash(), challenger.hash()).unwrap();
    assert_eq!(chain.head().last_block_hash, *blocks[3].hash());
    assert_eq!(chain.get_header_by_height(4).unwrap_err().kind(), ErrorKind::NotFound);
    assert!(chain.is_invalid(blocks[4].hash()));
    assert!(chain.is_invalid(blocks[5].hash()));
    let on_old_five = Block::empty(&blocks[5], &mut signer);
    let e = chain.process_block(on_old_five).unwrap_err();
    assert_eq!(e.kind(), ErrorKind::ChallengedBlockOnChain);
    // Two new blocks on the rolled-back head reach height five again.
    let n4 = extend(&mut chain, &blocks[3], &mut signer);
    let n5 = extend(&mut chain, &n4, &mut signer);
    assert_eq!(chain.head().height, 5);
    assert_eq!(chain.head().last_block_hash, *n5.hash());
    assert_ne!(n5.hash(), blocks[5].hash());
    assert_index_sound(&chain);
}

#[test]
fn challenging_the_head_promotes_the_competitor() {
    let (mut chain, mut signer, blocks) = linear_chain(2);
    let rival = Block::empty(&blocks[1], &mut signer);
    assert_eq!(chain.process_block(rival.clone()).unwrap(), None);
    chain.mark_block_as_challenged(blocks[2].hash(), rival.hash()).unwrap();
    assert_eq!(chain.head().last_block_hash, *rival.hash());
    assert_eq!(chain.head().height, 2);
    assert_index_sound(&chain);
}

#[test]
fn invalidity_stays_after_later_operations() {
    let (mut chain, mut signer, blocks) = linear_chain(3);
    let rival = extend(&mut chain, &blocks[1], &mut signer);
    chain.mark_block_as_challenged(rival.hash(), blocks[2].hash()).unwrap();
    assert!(chain.is_invalid(rival.hash()));
    let b4 = extend(&mut chain, &blocks[3], &mut signer);
    chain.mark_block_as_challenged(b4.hash(), blocks[3].hash()).unwrap();
    assert!(chain.is_invalid(rival.hash()));
    assert!(chain.is_invalid(b4.hash()));
    assert!(!chain.is_invalid(blocks[3].hash()));
    assert_eq!(chain.head().last_block_hash, *blocks[3].hash());
}

#[test]
fn challenge_errors() {
    let (mut chain, _, blocks) = linear_chain(2);
    let h2 = *blocks[2].hash();
    let e = chain.mark_block_as_challenged(&h2, &h2).unwrap_err();
    assert_eq!(e.kind(), ErrorKind::Unfit(UnfitReason::SelfChallenge));
    let e = chain.mark_block_as_challenged(&4242, &h2).unwrap_err();
    assert_eq!(e.kind(), ErrorKind::NotFound);
    let e = chain.mark_block_as_challenged(blocks[0].hash(), &h2).unwrap_err();
    assert_eq!(e.kind(), ErrorKind::Unfit(UnfitReason::GenesisChallenge));
    assert_eq!(chain.head().last_block_hash, h2);
}

#[test]
fn header_path_reports_double_signing() {
    let (mut chain, mut signer, blocks) = linear_chain(1);
    let stored = extend(&mut chain, &blocks[1], &mut signer);
    let twin = Block::empty(&blocks[1], &mut signer);
    let mut seen: Option<ChallengeEvidence> = None;
    chain.process_block_header(twin.header(), |e| seen = Some(e)).unwrap();
    assert_eq!(seen, Some(ChallengeEvidence { known_hash: *stored.hash(), new_hash: *twin.hash() }));
    let mut other = TestSigner::new(2);
    let fresh = Block::empty(&blocks[1], &mut other);
    chain.process_block_header(fresh.header(), |_| panic!("no challenge expected")).unwrap();
    assert!(chain.get_block(fresh.hash()).is_none());
}

#[test]
fn header_path_reports_challenged_parent() {
    let (mut chain, mut signer, blocks) = linear_chain(3);
    let rival = extend(&mut chain, &blocks[2], &mut signer);
    chain.mark_block_as_challenged(blocks[3].hash(), rival.hash()).unwrap();
    let child = Block::empty(&blocks[3], &mut signer);
    let e = chain.process_block_header(child.header(), |_| panic!("no challenge expected")).unwrap_err();
    assert_eq!(e.kind(), ErrorKind::ChallengedBlockOnChain);
}
