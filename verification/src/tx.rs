//! Transactions as the core sees them: plain values that the embedding
//! program extracts from the node's wire types before processing starts.
use vstd::prelude::*;

verus! {

/// First opcode of an OP_RETURN scriptPubKey.
pub const OP_RETURN: u8 = 0x6a;

/// A reference to a transaction output.
#[derive(Debug)]
pub struct OutPoint {
    /// Txid, 32 bytes.
    pub txid: Vec<u8>,
    pub vout: u32,
}

impl OutPoint {
    /// The mathematical value of this outpoint.
    pub open spec fn key(self) -> (Seq<u8>, u32) {
        (self.txid@, self.vout)
    }
}

/// A transaction input: its prevout, and the push-bytes of the tapscript
/// leaf carried by its witness, when one is present. The embedding program
/// extracts the pushes; instructions after a parse error are not included.
#[derive(Debug)]
pub struct TxIn {
    pub prevout: OutPoint,
    pub leaf_pushes: Option<Vec<Vec<u8>>>,
}

/// A transaction output; only the scriptPubKey matters to the core.
#[derive(Debug)]
pub struct TxOut {
    pub script_pubkey: Vec<u8>,
}

/// A transaction, reduced to what the core reads.
#[derive(Debug)]
pub struct Tx {
    pub inputs: Vec<TxIn>,
    pub outputs: Vec<TxOut>,
}

/// Whether a scriptPubKey is an OP_RETURN output.
pub open spec fn spec_is_op_return(s: Seq<u8>) -> bool {
    s.len() > 0 && s[0] == OP_RETURN
}

pub fn is_op_return(s: &Vec<u8>) -> (r: bool)
    ensures
        r == spec_is_op_return(s@),
{
    s.len() > 0 && s[0] == OP_RETURN
}

/// Whether a scriptPubKey is a taproot output.
pub open spec fn spec_is_p2tr(s: Seq<u8>) -> bool {
    s.len() == 34 && s[0] == 0x51 && s[1] == 32
}

pub fn is_p2tr(s: &Vec<u8>) -> (r: bool)
    ensures
        r == spec_is_p2tr(s@),
{
    s.len() == 34 && s[0] == 0x51 && s[1] == 32
}

} // verus!
