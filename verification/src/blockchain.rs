//! The chain: an ordered log of blocks, each linked to the one before it.

use vstd::prelude::*;
use vstd::utf8::encode_utf8;
use crate::blockchain::block::{
    can_time_out, is_genesis, lemma_one_changed_field_changes_preimage, no_seal_up_to, Block,
    BlockView,
};
use crate::clock::unix_now;
use crate::hasher::{is_sha256_collision, lemma_equal_digests_need_a_collision};

pub mod block;

verus! {

/// An append-only log of blocks. Block 0 is the genesis block.
#[derive(Debug)]
pub struct BlockChain {
    pub blocks: Vec<Block>,
}

impl View for BlockChain {
    type V = Seq<BlockView>;

    open spec fn view(&self) -> Seq<BlockView> {
        self.blocks@.map_values(|b: Block| b@)
    }
}

/// Why a chain operation did not go through.
#[derive(Debug, Clone, Copy, PartialEq, Eq, Structural)]
pub enum ChainError {
    /// The chain holds no block, not even a genesis block.
    EmptyChain,
    /// The last block already has the largest index there is.
    IndexOverflow,
    /// The sealing search ran through every nonce without finding one.
    SealingTimeout,
    /// A link or a stored hash of the chain does not check out.
    IntegrityViolation,
}

/// Linkage: `curr` names the hash of `prev` as its previous hash.
pub open spec fn linked(prev: BlockView, curr: BlockView) -> bool {
    curr.previous_hash == prev.hash
}

/// Block `i` of `chain` is linked to block `i - 1` and its stored hash is the
/// digest of its own contents.
pub open spec fn pair_intact(chain: Seq<BlockView>, i: int) -> bool {
    linked(chain[i - 1], chain[i]) && chain[i].is_intact()
}

/// Integrity of a whole chain: it is not empty, and every block after the
/// first is linked to its predecessor and intact. Neither the contents of
/// the first block nor the difficulty rule are looked at.
pub open spec fn chain_valid(chain: Seq<BlockView>) -> bool {
    chain.len() > 0 && forall|i: int| 1 <= i < chain.len() ==> #[trigger] pair_intact(chain, i)
}

/// `next` is what appending `data` after `last` produces: the following
/// index, the hash of `last` as previous hash, and a fresh seal.
pub open spec fn extends(last: BlockView, next: BlockView, data: Seq<char>) -> bool {
    &&& next.index == last.index + 1
    &&& next.previous_hash == last.hash
    &&& next.data == data
    &&& next.is_sealed()
}

/// Appending a block that is linked to the last one and intact neither
/// breaks a valid chain nor mends a broken one.
pub proof fn lemma_append_keeps_validity(chain: Seq<BlockView>, next: BlockView)
    requires
        chain.len() > 0,
        linked(chain.last(), next),
        next.is_intact(),
    ensures
        chain_valid(chain.push(next)) <==> chain_valid(chain),
{
    let longer = chain.push(next);
    if chain_valid(chain) {
        assert forall|i: int| 1 <= i < longer.len() implies #[trigger] pair_intact(longer, i) by {
            if i < chain.len() {
                assert(pair_intact(chain, i));
            }
        }
    }
    if chain_valid(longer) {
        assert forall|i: int| 1 <= i < chain.len() implies #[trigger] pair_intact(chain, i) by {
            assert(pair_intact(longer, i));
        }
    }
}

/// Tampering with a block that has both a predecessor and a successor goes
/// unnoticed in exactly one case: the forgery keeps the stored hash and the
/// previous hash, and its contents have the same digest as the contents it
/// replaces. So any change to `hash` or `previous_hash` is detected, and a
/// change to `index`, `timestamp`, `data` or `nonce` is detected unless the
/// two contents collide under the digest.
pub proof fn lemma_tampering_is_detected(chain: Seq<BlockView>, i: int, forged: BlockView)
    requires
        chain_valid(chain),
        1 <= i < chain.len() - 1,
    ensures
        chain_valid(chain.update(i, forged)) <==> {
            &&& forged.previous_hash == chain[i].previous_hash
            &&& forged.hash == chain[i].hash
            &&& forged.digest() == chain[i].digest()
        },
{
    let tampered = chain.update(i, forged);
    assert(pair_intact(chain, i));
    assert(pair_intact(chain, i + 1));
    if chain_valid(tampered) {
        assert(pair_intact(tampered, i));
        assert(pair_intact(tampered, i + 1));
    }
    if forged.previous_hash == chain[i].previous_hash && forged.hash == chain[i].hash
        && forged.digest() == chain[i].digest() {
        assert forall|k: int| 1 <= k < tampered.len() implies #[trigger] pair_intact(
            tampered,
            k,
        ) by {
            assert(pair_intact(chain, k));
        }
    }
}

/// Tampering with a single field of a block that has both a predecessor and
/// a successor makes the chain invalid, unless SHA-256 gives the forged
/// contents and the contents they replace the same digest.
pub proof fn lemma_single_field_tampering_is_detected(
    chain: Seq<BlockView>,
    i: int,
    forged: BlockView,
)
    requires
        chain_valid(chain),
        1 <= i < chain.len() - 1,
        forged.fields_changed(chain[i]) == 1,
    ensures
        !chain_valid(chain.update(i, forged)) || is_sha256_collision(
            encode_utf8(forged.preimage()),
            encode_utf8(chain[i].preimage()),
        ),
{
    lemma_tampering_is_detected(chain, i, forged);
    if chain_valid(chain.update(i, forged)) {
        lemma_one_changed_field_changes_preimage(forged, chain[i]);
        lemma_equal_digests_need_a_collision(forged.preimage(), chain[i].preimage());
    }
}

/// The first block is only ever looked at for its hash: tampering with the
/// genesis block of a chain of two or more blocks is detected exactly when
/// it changes the stored hash.
pub proof fn lemma_genesis_tampering_is_detected_by_hash(chain: Seq<BlockView>, forged: BlockView)
    requires
        chain_valid(chain),
        chain.len() >= 2,
    ensures
        chain_valid(chain.update(0, forged)) <==> forged.hash == chain[0].hash,
{
    let tampered = chain.update(0, forged);
    assert(pair_intact(chain, 1));
    if chain_valid(tampered) {
        assert(pair_intact(tampered, 1));
    }
    if forged.hash == chain[0].hash {
        assert forall|k: int| 1 <= k < tampered.len() implies #[trigger] pair_intact(
            tampered,
            k,
        ) by {
            assert(pair_intact(chain, k));
        }
    }
}

impl Clone for BlockChain {
    fn clone(&self) -> (copy: Self)
        ensures
            copy@ == self@,
    {
        let mut blocks: Vec<Block> = Vec::new();
        let mut i: usize = 0;
        while i < self.blocks.len()
            invariant
                i <= self.blocks.len(),
                blocks@ == self.blocks@.subrange(0, i as int),
            decreases self.blocks.len() - i,
        {
            blocks.push(self.blocks[i].clone());
            assert(blocks@ =~= self.blocks@.subrange(0, i + 1));
            i += 1;
        }
        assert(blocks@ =~= self.blocks@);
        BlockChain { blocks }
    }
}

impl BlockChain {
    /// Starts a chain: a single genesis block, sealed for the present moment.
    ///
    /// Fails with `SealingTimeout` when the genesis block cannot be sealed.
    pub fn new() -> (made: Result<BlockChain, ChainError>)
        ensures
            match made {
                Ok(chain) => {
                    &&& chain@.len() == 1
                    &&& is_genesis(chain@[0])
                    &&& chain_valid(chain@)
                },
                Err(ChainError::SealingTimeout) => can_time_out(0, "0"@, "Genesis Block"@),
                Err(_) => false,
            },
    {
        match Block::genesis() {
            Some(genesis) => {
                let mut blocks: Vec<Block> = Vec::new();
                blocks.push(genesis);
                let chain = BlockChain { blocks };
                assert(chain@ =~= seq![genesis@]);
                Ok(chain)
            },
            None => Err(ChainError::SealingTimeout),
        }
    }

    /// Appends a block that records `data` and is sealed for the time
    /// `timestamp`, with the first nonce among `0, 1, ..., max_nonce` that
    /// seals it: its index follows that of the last block and its previous
    /// hash is the last block's hash.
    ///
    /// The chain is not checked: a valid chain stays valid, a broken one
    /// stays broken. On any error the chain is left as it was. There has to
    /// be a last block to link to: the chain must not be empty.
    pub fn add_block_at(&mut self, data: &str, timestamp: u64, max_nonce: u64) -> (done: Result<
        (),
        ChainError,
    >)
        requires
            old(self)@.len() > 0,
        ensures
            match done {
                Ok(()) => {
                    &&& old(self)@.last().index < u64::MAX
                    &&& final(self)@ == old(self)@.push(final(self)@.last())
                    &&& extends(old(self)@.last(), final(self)@.last(), data@)
                    &&& final(self)@.last().timestamp == timestamp
                    &&& final(self)@.last().nonce <= max_nonce
                    &&& chain_valid(final(self)@) <==> chain_valid(old(self)@)
                },
                Err(ChainError::IndexOverflow) => {
                    &&& old(self)@.last().index == u64::MAX
                    &&& final(self).blocks@ == old(self).blocks@
                },
                Err(ChainError::SealingTimeout) => {
                    &&& old(self)@.last().index < u64::MAX
                    &&& no_seal_up_to(
                        old(self)@.last().index + 1,
                        old(self)@.last().hash,
                        timestamp as nat,
                        data@,
                        max_nonce as nat,
                    )
                    &&& final(self).blocks@ == old(self).blocks@
                },
                Err(ChainError::EmptyChain) => false,
                Err(ChainError::IntegrityViolation) => false,
            },
    {
        let n = self.blocks.len();
        let last = &self.blocks[n - 1];
        assert(self@.last() == last@);
        if last.index == u64::MAX {
            return Err(ChainError::IndexOverflow);
        }
        match Block::mine(last.index + 1, last.hash.clone(), timestamp, data, max_nonce) {
            Some(block) => {
                proof {
                    lemma_append_keeps_validity(self@, block@);
                }
                self.blocks.push(block);
                assert(self@ =~= old(self)@.push(block@));
                assert(self@.last() == block@);
                Ok(())
            },
            None => Err(ChainError::SealingTimeout),
        }
    }

    /// Appends a block that records `data`, sealed for the present moment.
    ///
    /// The chain is not checked: a valid chain stays valid, a broken one
    /// stays broken. On any error the chain is left as it was. There has to
    /// be a last block to link to: the chain must not be empty.
    pub fn add_block(&mut self, data: &str) -> (done: Result<(), ChainError>)
        requires
            old(self)@.len() > 0,
        ensures
            match done {
                Ok(()) => {
                    &&& old(self)@.last().index < u64::MAX
                    &&& final(self)@ == old(self)@.push(final(self)@.last())
                    &&& extends(old(self)@.last(), final(self)@.last(), data@)
                    &&& chain_valid(final(self)@) <==> chain_valid(old(self)@)
                },
                Err(ChainError::IndexOverflow) => {
                    &&& old(self)@.last().index == u64::MAX
                    &&& final(self).blocks@ == old(self).blocks@
                },
                Err(ChainError::SealingTimeout) => {
                    &&& old(self)@.last().index < u64::MAX
                    &&& can_time_out(old(self)@.last().index + 1, old(self)@.last().hash, data@)
                    &&& final(self).blocks@ == old(self).blocks@
                },
                Err(ChainError::EmptyChain) => false,
                Err(ChainError::IntegrityViolation) => false,
            },
    {
        let timestamp = unix_now();
        self.add_block_at(data, timestamp, u64::MAX)
    }

    /// Checks the integrity of the chain: that it is not empty, that every
    /// block after the first names the hash of its predecessor, and that
    /// every such block's stored hash is the digest recomputed from its
    /// contents.
    pub fn is_valid(&self) -> (ok: bool)
        ensures
            ok == chain_valid(self@),
    {
        let n = self.blocks.len();
        if n == 0 {
            return false;
        }
        let mut i: usize = 1;
        while i < n
            invariant
                1 <= i <= n,
                n == self.blocks.len(),
                forall|k: int| 1 <= k < i ==> #[trigger] pair_intact(self@, k),
            decreases n - i,
        {
            let prev = &self.blocks[i - 1];
            let curr = &self.blocks[i];
            assert(self@[i - 1] == prev@ && self@[i as int] == curr@);
            if !(curr.previous_hash == prev.hash) {
                assert(!pair_intact(self@, i as int));
                return false;
            }
            let check_hash = Block::calculate_hash(
                curr.index,
                curr.previous_hash.as_str(),
                curr.timestamp,
                curr.data.as_str(),
                curr.nonce,
            );
            if !(curr.hash == check_hash) {
                assert(!pair_intact(self@, i as int));
                return false;
            }
            i += 1;
        }
        true
    }
}

} // verus!
