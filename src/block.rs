use vstd::prelude::*;

verus! {

/// Content-derived identifier of a block header.
pub type CryptoHash = u64;

/// Identity of a block producer.
pub type AccountId = u64;

/// The `prev_hash` that a genesis header carries.
pub const GENESIS_PREV_HASH: CryptoHash = 0;

pub const HASH_OFFSET: u64 = 0xcbf2_9ce4_8422_2325;

pub const HASH_PRIME: u64 = 0x0000_0100_0000_01b3;

/// One step of the header digest: fold a field into the accumulator.
pub open spec fn mix(acc: u64, v: u64) -> u64 {
    (acc ^ v).wrapping_mul(HASH_PRIME)
}

/// The identifier of a header, derived from every field of its content.
pub open spec fn header_hash(prev_hash: u64, height: u64, signer: u64, timestamp: u64) -> u64 {
    mix(mix(mix(mix(HASH_OFFSET, prev_hash), height), signer), timestamp)
}

fn compute_header_hash(prev_hash: u64, height: u64, signer: u64, timestamp: u64) -> (r: u64)
    ensures
        r == header_hash(prev_hash, height, signer, timestamp),
{
    let mut acc: u64 = HASH_OFFSET;
    acc = (acc ^ prev_hash).wrapping_mul(HASH_PRIME);
    acc = (acc ^ height).wrapping_mul(HASH_PRIME);
    acc = (acc ^ signer).wrapping_mul(HASH_PRIME);
    acc = (acc ^ timestamp).wrapping_mul(HASH_PRIME);
    acc
}

/// A block header. Headers made by `BlockHeader::new` carry the hash of
/// their own content.
#[derive(Clone, Copy, Debug, PartialEq, Eq, Structural)]
pub struct BlockHeader {
    pub hash: CryptoHash,
    pub prev_hash: CryptoHash,
    pub height: u64,
    pub signer: AccountId,
    pub timestamp: u64,
}

impl BlockHeader {
    pub fn new(prev_hash: CryptoHash, height: u64, signer: AccountId, timestamp: u64) -> (r: BlockHeader)
        ensures
            r.hash == header_hash(prev_hash, height, signer, timestamp),
            r.prev_hash == prev_hash,
            r.height == height,
            r.signer == signer,
            r.timestamp == timestamp,
    {
        let hash = compute_header_hash(prev_hash, height, signer, timestamp);
        BlockHeader { hash, prev_hash, height, signer, timestamp }
    }

    pub fn hash(&self) -> (r: &CryptoHash)
        ensures
            *r == self.hash,
    {
        &self.hash
    }

    pub fn prev_hash(&self) -> (r: &CryptoHash)
        ensures
            *r == self.prev_hash,
    {
        &self.prev_hash
    }

    pub fn height(&self) -> (r: u64)
        ensures
            r == self.height,
    {
        self.height
    }
}

/// A producer of blocks. Its nonce stands in for the production time, so
/// two blocks it makes on the same parent differ in content.
#[derive(Clone, Copy, Debug, PartialEq, Eq, Structural)]
pub struct TestSigner {
    pub account_id: AccountId,
    pub nonce: u64,
}

impl TestSigner {
    pub fn new(account_id: AccountId) -> (r: TestSigner)
        ensures
            r.account_id == account_id,
            r.nonce == 0,
    {
        TestSigner { account_id, nonce: 0 }
    }

    /// Hands out the current nonce and advances it.
    pub fn next_timestamp(&mut self) -> (r: u64)
        ensures
            r == old(self).nonce,
            final(self).account_id == old(self).account_id,
            final(self).nonce == old(self).nonce.wrapping_add(1),
    {
        let r = self.nonce;
        self.nonce = self.nonce.wrapping_add(1);
        r
    }
}

/// A header and its body; the body is opaque to the chain logic.
#[derive(Clone, Debug)]
pub struct Block {
    pub header: BlockHeader,
    pub body: Vec<u8>,
}

impl Block {
    /// The genesis header of a producer.
    pub open spec fn genesis_header_spec(signer: AccountId) -> BlockHeader {
        BlockHeader {
            hash: header_hash(GENESIS_PREV_HASH, 0, signer, 0),
            prev_hash: GENESIS_PREV_HASH,
            height: 0,
            signer,
            timestamp: 0,
        }
    }

    /// The genesis block: sentinel parent, height zero, empty body.
    pub fn genesis(signer: AccountId) -> (r: Block)
        ensures
            r.header == Block::genesis_header_spec(signer),
            r.body@.len() == 0,
    {
        Block { header: BlockHeader::new(GENESIS_PREV_HASH, 0, signer, 0), body: Vec::new() }
    }

    /// An empty block on top of `prev`, one height above it.
    pub fn empty(prev: &Block, signer: &mut TestSigner) -> (r: Block)
        requires
            prev.header.height < u64::MAX,
        ensures
            r.header.prev_hash == prev.header.hash,
            r.header.height == prev.header.height + 1,
            r.header.signer == old(signer).account_id,
            r.header.timestamp == old(signer).nonce,
            r.header.hash == header_hash(r.header.prev_hash, r.header.height, r.header.signer, r.header.timestamp),
            r.body@.len() == 0,
            final(signer).account_id == old(signer).account_id,
            final(signer).nonce == old(signer).nonce.wrapping_add(1),
    {
        Block::empty_with_height(prev, prev.header.height + 1, signer)
    }

    /// An empty block on top of `prev` that claims the given height.
    pub fn empty_with_height(prev: &Block, height: u64, signer: &mut TestSigner) -> (r: Block)
        ensures
            r.header.prev_hash == prev.header.hash,
            r.header.height == height,
            r.header.signer == old(signer).account_id,
            r.header.timestamp == old(signer).nonce,
            r.header.hash == header_hash(r.header.prev_hash, height, r.header.signer, r.header.timestamp),
            r.body@.len() == 0,
            final(signer).account_id == old(signer).account_id,
            final(signer).nonce == old(signer).nonce.wrapping_add(1),
    {
        let timestamp = signer.next_timestamp();
        let header = BlockHeader::new(prev.header.hash, height, signer.account_id, timestamp);
        Block { header, body: Vec::new() }
    }

    pub fn hash(&self) -> (r: &CryptoHash)
        ensures
            *r == self.header.hash,
    {
        &self.header.hash
    }

    pub fn header(&self) -> (r: &BlockHeader)
        ensures
            *r == self.header,
    {
        &self.header
    }
}

} // verus!
