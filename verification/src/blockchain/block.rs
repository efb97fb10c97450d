//! A block: one sealed record of the chain.

use vstd::prelude::*;
use vstd::string::StringExecFns;
use crate::clock::unix_now;
use crate::hasher::{digest_bytes, digest_text, digest_to_hex, nibble, text_digest};
use crate::text::{
    decimal, hex_digit, lemma_decimal_is_injective, lemma_middle_is_determined, push_decimal,
};

verus! {

/// One record of the chain, sealed by a proof-of-work search.
#[derive(Debug)]
pub struct Block {
    /// Position in the chain; 0 for the genesis block.
    pub index: u64,
    /// Hash of the block before this one; `"0"` for the genesis block.
    pub previous_hash: String,
    /// Seconds since the Unix epoch at which the block was made.
    pub timestamp: u64,
    /// The event that the block records.
    pub data: String,
    /// Digest over the other five fields.
    pub hash: String,
    /// The number that the sealing search settled on.
    pub nonce: u64,
}

/// What a block holds, as mathematical values.
pub struct BlockView {
    pub index: nat,
    pub previous_hash: Seq<char>,
    pub timestamp: nat,
    pub data: Seq<char>,
    pub hash: Seq<char>,
    pub nonce: nat,
}

impl View for Block {
    type V = BlockView;

    open spec fn view(&self) -> BlockView {
        BlockView {
            index: self.index as nat,
            previous_hash: self.previous_hash@,
            timestamp: self.timestamp as nat,
            data: self.data@,
            hash: self.hash@,
            nonce: self.nonce as nat,
        }
    }
}

/// The text that a block's digest is taken over: the decimal index, the
/// previous hash, the decimal timestamp, the data and the decimal nonce, one
/// after the other with nothing in between.
pub open spec fn preimage(
    index: nat,
    previous_hash: Seq<char>,
    timestamp: nat,
    data: Seq<char>,
    nonce: nat,
) -> Seq<char> {
    decimal(index) + previous_hash + decimal(timestamp) + data + decimal(nonce)
}

/// The digest of a block with the given contents.
pub open spec fn block_digest(
    index: nat,
    previous_hash: Seq<char>,
    timestamp: nat,
    data: Seq<char>,
    nonce: nat,
) -> Seq<char> {
    text_digest(preimage(index, previous_hash, timestamp, data, nonce))
}

/// The difficulty rule: a hash is accepted when its first two characters are
/// both `'0'`.
pub open spec fn meets_difficulty(hash: Seq<char>) -> bool {
    hash.len() >= 2 && hash[0] == '0' && hash[1] == '0'
}

/// Whether `nonce` gives a block of these contents an accepted hash.
pub open spec fn seals(
    index: nat,
    previous_hash: Seq<char>,
    timestamp: nat,
    data: Seq<char>,
    nonce: nat,
) -> bool {
    meets_difficulty(block_digest(index, previous_hash, timestamp, data, nonce))
}

/// Whether `nonce` is the least number that seals these contents.
pub open spec fn is_first_seal(
    index: nat,
    previous_hash: Seq<char>,
    timestamp: nat,
    data: Seq<char>,
    nonce: nat,
) -> bool {
    &&& seals(index, previous_hash, timestamp, data, nonce)
    &&& forall|n: nat| n < nonce ==> !seals(index, previous_hash, timestamp, data, n)
}

/// Whether no nonce up to and including `limit` seals these contents.
pub open spec fn no_seal_up_to(
    index: nat,
    previous_hash: Seq<char>,
    timestamp: nat,
    data: Seq<char>,
    limit: nat,
) -> bool {
    forall|n: nat| n <= limit ==> !seals(index, previous_hash, timestamp, data, n)
}

/// Whether the search over all 64-bit nonces can come up empty for these
/// contents: at some second of the clock, no nonce seals them.
pub open spec fn can_time_out(index: nat, previous_hash: Seq<char>, data: Seq<char>) -> bool {
    exists|timestamp: u64| #[trigger]
        no_seal_up_to(index, previous_hash, timestamp as nat, data, u64::MAX as nat)
}

impl BlockView {
    /// The text that the block's digest is taken over.
    pub open spec fn preimage(self) -> Seq<char> {
        preimage(self.index, self.previous_hash, self.timestamp, self.data, self.nonce)
    }

    /// The digest recomputed from the block's own contents.
    pub open spec fn digest(self) -> Seq<char> {
        block_digest(self.index, self.previous_hash, self.timestamp, self.data, self.nonce)
    }

    /// In how many of the five fields that the digest is taken over `self`
    /// and `other` differ.
    pub open spec fn hashed_fields_changed(self, other: BlockView) -> int {
        let index = if self.index != other.index { 1int } else { 0int };
        let previous_hash = if self.previous_hash != other.previous_hash { 1int } else { 0int };
        let timestamp = if self.timestamp != other.timestamp { 1int } else { 0int };
        let data = if self.data != other.data { 1int } else { 0int };
        let nonce = if self.nonce != other.nonce { 1int } else { 0int };
        index + previous_hash + timestamp + data + nonce
    }

    /// In how many of all six fields `self` and `other` differ.
    pub open spec fn fields_changed(self, other: BlockView) -> int {
        self.hashed_fields_changed(other) + if self.hash != other.hash { 1int } else { 0int }
    }

    /// Integrity: the stored hash is the digest of the contents.
    pub open spec fn is_intact(self) -> bool {
        self.hash == self.digest()
    }

    /// What the sealing search produces: an intact block whose nonce is the
    /// first that meets the difficulty rule.
    pub open spec fn is_sealed(self) -> bool {
        &&& self.is_intact()
        &&& is_first_seal(self.index, self.previous_hash, self.timestamp, self.data, self.nonce)
    }
}

/// Whether `block` is a genesis block as `Block::genesis` makes it.
pub open spec fn is_genesis(block: BlockView) -> bool {
    &&& block.index == 0
    &&& block.previous_hash == "0"@
    &&& block.data == "Genesis Block"@
    &&& block.is_sealed()
}

/// A digest written out meets the difficulty rule exactly when its first byte
/// is zero.
pub proof fn lemma_difficulty_is_leading_zero_byte(bytes: Seq<u8>)
    requires
        bytes.len() > 0,
    ensures
        meets_difficulty(digest_text(bytes)) <==> bytes[0] == 0,
{
    let text = digest_text(bytes);
    assert(text.len() == 64);
    assert(text[0] == hex_digit(nibble(bytes, 0)));
    assert(text[1] == hex_digit(nibble(bytes, 1)));
}

/// A change to a single hashed field changes the text that is hashed: the
/// digest of the forged block can then equal the old one only if SHA-256
/// gives two different texts the same digest.
pub proof fn lemma_one_changed_field_changes_preimage(a: BlockView, b: BlockView)
    requires
        a.hashed_fields_changed(b) == 1,
    ensures
        a.preimage() != b.preimage(),
{
    let empty = Seq::<char>::empty();
    if a.preimage() == b.preimage() {
        if a.index != b.index {
            let rest = a.previous_hash + decimal(a.timestamp) + a.data + decimal(a.nonce);
            assert(a.preimage() =~= empty + decimal(a.index) + rest);
            assert(b.preimage() =~= empty + decimal(b.index) + rest);
            lemma_middle_is_determined(empty, decimal(a.index), decimal(b.index), rest);
            lemma_decimal_is_injective(a.index, b.index);
        } else if a.previous_hash != b.previous_hash {
            let rest = decimal(a.timestamp) + a.data + decimal(a.nonce);
            assert(a.preimage() =~= decimal(a.index) + a.previous_hash + rest);
            assert(b.preimage() =~= decimal(a.index) + b.previous_hash + rest);
            lemma_middle_is_determined(decimal(a.index), a.previous_hash, b.previous_hash, rest);
        } else if a.timestamp != b.timestamp {
            let before = decimal(a.index) + a.previous_hash;
            let rest = a.data + decimal(a.nonce);
            assert(a.preimage() =~= before + decimal(a.timestamp) + rest);
            assert(b.preimage() =~= before + decimal(b.timestamp) + rest);
            lemma_middle_is_determined(before, decimal(a.timestamp), decimal(b.timestamp), rest);
            lemma_decimal_is_injective(a.timestamp, b.timestamp);
        } else if a.data != b.data {
            let before = decimal(a.index) + a.previous_hash + decimal(a.timestamp);
            lemma_middle_is_determined(before, a.data, b.data, decimal(a.nonce));
        } else {
            let before = decimal(a.index) + a.previous_hash + decimal(a.timestamp) + a.data;
            assert(a.preimage() =~= before + decimal(a.nonce) + empty);
            assert(b.preimage() =~= before + decimal(b.nonce) + empty);
            lemma_middle_is_determined(before, decimal(a.nonce), decimal(b.nonce), empty);
            lemma_decimal_is_injective(a.nonce, b.nonce);
        }
    }
}

impl Clone for Block {
    fn clone(&self) -> (copy: Self)
        ensures
            copy == *self,
    {
        Block {
            index: self.index,
            previous_hash: self.previous_hash.clone(),
            timestamp: self.timestamp,
            data: self.data.clone(),
            hash: self.hash.clone(),
            nonce: self.nonce,
        }
    }
}

impl Block {
    /// The text that the digest of such a block is taken over.
    fn preimage_string(
        index: u64,
        previous_hash: &str,
        timestamp: u64,
        data: &str,
        nonce: u64,
    ) -> (text: String)
        ensures
            text@ == preimage(index as nat, previous_hash@, timestamp as nat, data@, nonce as nat),
    {
        let mut text = String::new();
        push_decimal(&mut text, index);
        text.append(previous_hash);
        push_decimal(&mut text, timestamp);
        text.append(data);
        push_decimal(&mut text, nonce);
        assert(text@ =~= preimage(
            index as nat,
            previous_hash@,
            timestamp as nat,
            data@,
            nonce as nat,
        ));
        text
    }

    /// Computes the digest of a block with the given contents.
    pub fn calculate_hash(
        index: u64,
        previous_hash: &str,
        timestamp: u64,
        data: &str,
        nonce: u64,
    ) -> (hash: String)
        ensures
            hash@ == block_digest(
                index as nat,
                previous_hash@,
                timestamp as nat,
                data@,
                nonce as nat,
            ),
    {
        let text = Block::preimage_string(index, previous_hash, timestamp, data, nonce);
        let digest = digest_bytes(text.as_str());
        digest_to_hex(&digest)
    }

    /// Searches the nonces `0, 1, ..., max_nonce` in order for the first one
    /// that seals a block of the given contents, and returns that block; or
    /// `None` when none of them does.
    pub fn mine(
        index: u64,
        previous_hash: String,
        timestamp: u64,
        data: &str,
        max_nonce: u64,
    ) -> (found: Option<Block>)
        ensures
            match found {
                Some(block) => {
                    &&& block.index == index
                    &&& block.previous_hash@ == previous_hash@
                    &&& block.timestamp == timestamp
                    &&& block.data@ == data@
                    &&& block.nonce <= max_nonce
                    &&& block@.is_sealed()
                },
                None => no_seal_up_to(
                    index as nat,
                    previous_hash@,
                    timestamp as nat,
                    data@,
                    max_nonce as nat,
                ),
            },
    {
        let mut nonce: u64 = 0;
        loop
            invariant
                nonce <= max_nonce,
                forall|n: nat|
                    n < nonce ==> !seals(
                        index as nat,
                        previous_hash@,
                        timestamp as nat,
                        data@,
                        n,
                    ),
            decreases max_nonce - nonce,
        {
            let text = Block::preimage_string(
                index,
                previous_hash.as_str(),
                timestamp,
                data,
                nonce,
            );
            let digest = digest_bytes(text.as_str());
            proof {
                lemma_difficulty_is_leading_zero_byte(digest@);
            }
            if digest[0] == 0 {
                let hash = digest_to_hex(&digest);
                return Some(
                    Block { index, previous_hash, timestamp, data: data.to_owned(), hash, nonce },
                );
            }
            if nonce == max_nonce {
                return None;
            }
            nonce = nonce + 1;
        }
    }

    /// Makes a block for the present moment: reads the clock, then searches
    /// every nonce from 0 upwards for the first that seals the block.
    ///
    /// `None` means that, for the time read, no 64-bit nonce meets the
    /// difficulty rule.
    pub fn new(index: u64, previous_hash: String, data: &str) -> (made: Option<Block>)
        ensures
            match made {
                Some(block) => {
                    &&& block.index == index
                    &&& block.previous_hash@ == previous_hash@
                    &&& block.data@ == data@
                    &&& block@.is_sealed()
                },
                None => can_time_out(index as nat, previous_hash@, data@),
            },
    {
        let timestamp = unix_now();
        Block::mine(index, previous_hash, timestamp, data, u64::MAX)
    }

    /// Makes the first block of a chain: index 0, previous hash `"0"`, data
    /// `"Genesis Block"`.
    pub fn genesis() -> (made: Option<Block>)
        ensures
            match made {
                Some(block) => is_genesis(block@),
                None => can_time_out(0, "0"@, "Genesis Block"@),
            },
    {
        Block::new(0, "0".to_owned(), "Genesis Block")
    }
}

} // verus!
