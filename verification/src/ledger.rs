//! Recording wallet events on the chain: copy, append, validate, and only
//! then hand the new chain out.

use vstd::prelude::*;
use vstd::string::StringExecFns;
use crate::blockchain::block::can_time_out;
use crate::blockchain::{chain_valid, extends, BlockChain, ChainError};
use crate::text::{decimal, push_decimal};

verus! {

/// How the chain words a transfer of `amount` from `from` to `to`.
pub open spec fn transfer_event_text(amount: nat, from: Seq<char>, to: Seq<char>) -> Seq<char> {
    "Sent "@ + decimal(amount) + " coins from '"@ + from + "' to '"@ + to + "'"@
}

/// The event that the chain records for a transfer.
pub fn transfer_event(amount: u64, from: &str, to: &str) -> (text: String)
    ensures
        text@ == transfer_event_text(amount as nat, from@, to@),
{
    let mut text = "Sent ".to_owned();
    push_decimal(&mut text, amount);
    text.append(" coins from '");
    text.append(from);
    text.append("' to '");
    text.append(to);
    text.append("'");
    text
}

/// Records `data` on a private copy of `blockchain` and validates the
/// result. Only a valid chain is handed out, for the caller to put in the
/// place of the old one; `blockchain` itself is never changed.
///
/// The append comes first and the validation second, so a chain that was
/// already broken is answered with an `IntegrityViolation` once a block
/// could be sealed for it.
pub fn update_blockchain(blockchain: &BlockChain, data: &str) -> (updated: Result<
    BlockChain,
    ChainError,
>)
    ensures
        match updated {
            Ok(next) => {
                &&& chain_valid(blockchain@)
                &&& chain_valid(next@)
                &&& next@ == blockchain@.push(next@.last())
                &&& extends(blockchain@.last(), next@.last(), data@)
            },
            Err(ChainError::EmptyChain) => blockchain@.len() == 0,
            Err(ChainError::IndexOverflow) => {
                &&& blockchain@.len() > 0
                &&& blockchain@.last().index == u64::MAX
            },
            Err(ChainError::SealingTimeout) => {
                &&& blockchain@.len() > 0
                &&& blockchain@.last().index < u64::MAX
                &&& can_time_out(blockchain@.last().index + 1, blockchain@.last().hash, data@)
            },
            Err(ChainError::IntegrityViolation) => {
                &&& blockchain@.len() > 0
                &&& blockchain@.last().index < u64::MAX
                &&& !chain_valid(blockchain@)
            },
        },
{
    if blockchain.blocks.len() == 0 {
        return Err(ChainError::EmptyChain);
    }
    let mut candidate = blockchain.clone();
    match candidate.add_block(data) {
        Ok(()) => {
            if candidate.is_valid() {
                Ok(candidate)
            } else {
                Err(ChainError::IntegrityViolation)
            }
        },
        Err(e) => {
            assert(candidate@ == blockchain@);
            Err(e)
        },
    }
}

} // verus!
