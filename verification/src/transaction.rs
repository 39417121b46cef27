//! Full transactions as servers hand them out.
use vstd::prelude::*;
use zcash_primitives::transaction::Transaction;
use zcash_protocol::consensus::BranchId;

verus! {

/// A transaction as a server sends it.
#[derive(Debug)]
pub struct RawTransaction {
    /// The encoded transaction.
    pub data: Vec<u8>,
    /// The height that the server gives; zero stands for none.
    pub height: u64,
}

/// The consensus branch id of the Sapling upgrade. Neither the id of a transaction nor its
/// decryption depends on the branch id that it is read with.
pub const SAPLING_BRANCH: u32 = 0x76b8_09bb;

/// What reading an encoded transaction with a branch id gives: the transaction's id, or the
/// words of the error.
pub uninterp spec fn read_with_branch(data: Seq<u8>, branch: u32) -> Result<Seq<u8>, Seq<char>>;

/// `Transaction::read` of zcash_primitives with a branch id, by the number of that id. What
/// bytes read as what is left to [`read_with_branch`].
#[verifier::external_body]
fn read_bytes(data: &Vec<u8>, branch: u32) -> (r: Result<[u8; 32], String>)
    ensures
        match r {
            Ok(txid) => read_with_branch(data@, branch) == Ok::<Seq<u8>, Seq<char>>(txid@),
            Err(e) => read_with_branch(data@, branch) == Err::<Seq<u8>, Seq<char>>(e@),
        },
{
    let branch_id = match BranchId::try_from(branch) {
        Ok(b) => b,
        Err(e) => return Err(e.to_string()),
    };
    match Transaction::read(&data[..], branch_id) {
        Ok(tx) => Ok(tx.txid().into()),
        Err(e) => Err(e.to_string()),
    }
}

/// What reading an encoded transaction gives: its id, or the words of the error.
pub open spec fn transaction_reading(data: Seq<u8>) -> Result<Seq<u8>, Seq<char>> {
    read_with_branch(data, SAPLING_BRANCH)
}

/// Reads an encoded transaction.
pub(crate) fn read_transaction(data: &Vec<u8>) -> (r: Result<[u8; 32], String>)
    ensures
        match r {
            Ok(txid) => transaction_reading(data@) == Ok::<Seq<u8>, Seq<char>>(txid@),
            Err(e) => transaction_reading(data@) == Err::<Seq<u8>, Seq<char>>(e@),
        },
{
    read_bytes(data, SAPLING_BRANCH)
}

/// The height of the block that a server's answer places a transaction in: none for
/// zero, nor for a number that is no block height.
pub open spec fn mined_height_spec(height: u64) -> Option<u32> {
    if 0 < height <= u32::MAX {
        Some(height as u32)
    } else {
        None
    }
}

/// The height of the block that a server's answer places a transaction in.
pub fn mined_height(height: u64) -> (r: Option<u32>)
    ensures
        r == mined_height_spec(height),
{
    if height > 0 && height <= u32::MAX as u64 {
        Some(height as u32)
    } else {
        None
    }
}

/// A server's height is that of a block from one to the greatest block height there is, and
/// says that the transaction is in no block otherwise.
pub proof fn law_mined_heights(height: u64)
    ensures
        mined_height_spec(height) is Some <==> 1 <= height <= 0xffff_ffff,
        mined_height_spec(height) matches Some(h) ==> h == height,
{
}

/// Every transaction is read with the branch id of Sapling, which gives it the same id as any
/// other would.
pub proof fn law_transactions_are_read_as_sapling(data: Seq<u8>)
    ensures
        transaction_reading(data) == read_with_branch(data, 0x76b8_09bb),
{
}

} // verus!
