use vstd::prelude::*;

verus! {

/// Fee, in satoshis, that every protocol transaction leaves to miners.
pub const FEE_AMOUNT: u64 = 1_000;

/// Smallest output value, in satoshis, that the protocol ever creates.
pub const DUST_AMOUNT: u64 = 1_000;

/// The chain a connector's address is meant for.
#[derive(Clone, Copy, Debug, PartialEq, Eq, Structural)]
pub enum Network {
    Bitcoin,
    Testnet,
    Signet,
    Regtest,
}

/// A reference to one output of an earlier transaction.
#[derive(Clone, Copy, Debug)]
pub struct OutPoint {
    /// Id of the earlier transaction, in its internal byte order.
    pub txid: [u8; 32],
    pub vout: u32,
}

/// A coin to spend: where it is, and how much it holds.
#[derive(Clone, Copy, Debug)]
pub struct Input {
    pub outpoint: OutPoint,
    pub amount: u64,
}

/// Errors of transaction construction and signing.
#[derive(Clone, Copy, Debug, PartialEq, Eq, Structural)]
pub enum TxError {
    /// The input does not cover the fee and the smallest outputs.
    AmountUnderflow,
    /// The signing key does not belong to the public key that the spent output expects.
    KeyMismatch,
    /// A public key or commitment handed to a connector is not well formed.
    MalformedConnectorInput,
    /// The signature hash of the input could not be computed.
    SighashUnavailable,
}

#[derive(Debug)]
pub struct TxIn {
    pub previous_output: OutPoint,
    pub script_sig: Vec<u8>,
    pub sequence: u32,
    pub witness: Vec<Vec<u8>>,
}

#[derive(Debug)]
pub struct TxOut {
    pub value: u64,
    pub script_pubkey: Vec<u8>,
}

#[derive(Debug)]
pub struct Transaction {
    pub version: u32,
    pub lock_time: u32,
    pub input: Vec<TxIn>,
    pub output: Vec<TxOut>,
}

pub ghost struct TxInModel {
    pub previous_output: OutPoint,
    pub script_sig: Seq<u8>,
    pub sequence: u32,
    pub witness: Seq<Seq<u8>>,
}

pub ghost struct TxOutModel {
    pub value: u64,
    pub script_pubkey: Seq<u8>,
}

pub ghost struct TransactionModel {
    pub version: u32,
    pub lock_time: u32,
    pub input: Seq<TxInModel>,
    pub output: Seq<TxOutModel>,
}

impl View for TxIn {
    type V = TxInModel;

    open spec fn view(&self) -> TxInModel {
        TxInModel {
            previous_output: self.previous_output,
            script_sig: self.script_sig@,
            sequence: self.sequence,
            witness: self.witness@.map_values(|w: Vec<u8>| w@),
        }
    }
}

impl View for TxOut {
    type V = TxOutModel;

    open spec fn view(&self) -> TxOutModel {
        TxOutModel { value: self.value, script_pubkey: self.script_pubkey@ }
    }
}

impl View for Transaction {
    type V = TransactionModel;

    open spec fn view(&self) -> TransactionModel {
        TransactionModel {
            version: self.version,
            lock_time: self.lock_time,
            input: self.input@.map_values(|i: TxIn| i@),
            output: self.output@.map_values(|o: TxOut| o@),
        }
    }
}

/// A copy of a byte string.
pub fn copy_bytes(b: &Vec<u8>) -> (r: Vec<u8>)
    ensures
        r@ == b@,
{
    let mut r: Vec<u8> = Vec::new();
    let mut i: usize = 0;
    while i < b.len()
        invariant
            i <= b@.len(),
            r@ == b@.subrange(0, i as int),
        decreases b@.len() - i,
    {
        r.push(b[i]);
        i = i + 1;
        assert(r@ =~= b@.subrange(0, i as int));
    }
    assert(r@ =~= b@);
    r
}

impl TxOut {
    pub fn copy(&self) -> (r: TxOut)
        ensures
            r@ == self@,
    {
        TxOut { value: self.value, script_pubkey: copy_bytes(&self.script_pubkey) }
    }
}

/// A copy of a witness stack.
pub fn copy_stack(w: &Vec<Vec<u8>>) -> (r: Vec<Vec<u8>>)
    ensures
        r@.map_values(|x: Vec<u8>| x@) == w@.map_values(|x: Vec<u8>| x@),
{
    let mut r: Vec<Vec<u8>> = Vec::new();
    let mut i: usize = 0;
    while i < w.len()
        invariant
            i <= w@.len(),
            r@.len() == i,
            forall|k: int| 0 <= k < i ==> (#[trigger] r@[k])@ == w@[k]@,
        decreases w@.len() - i,
    {
        r.push(copy_bytes(&w[i]));
        i = i + 1;
    }
    assert(r@.map_values(|x: Vec<u8>| x@) =~= w@.map_values(|x: Vec<u8>| x@));
    r
}

impl TxIn {
    pub fn copy(&self) -> (r: TxIn)
        ensures
            r@ == self@,
    {
        TxIn {
            previous_output: self.previous_output,
            script_sig: copy_bytes(&self.script_sig),
            sequence: self.sequence,
            witness: copy_stack(&self.witness),
        }
    }
}

impl Transaction {
    pub fn copy(&self) -> (r: Transaction)
        ensures
            r@ == self@,
    {
        let mut input: Vec<TxIn> = Vec::new();
        let mut i: usize = 0;
        while i < self.input.len()
            invariant
                i <= self.input@.len(),
                input@.len() == i,
                forall|k: int| 0 <= k < i ==> (#[trigger] input@[k])@ == self.input@[k]@,
            decreases self.input@.len() - i,
        {
            input.push(self.input[i].copy());
            i = i + 1;
        }
        let mut output: Vec<TxOut> = Vec::new();
        let mut j: usize = 0;
        while j < self.output.len()
            invariant
                j <= self.output@.len(),
                output@.len() == j,
                forall|k: int| 0 <= k < j ==> (#[trigger] output@[k])@ == self.output@[k]@,
            decreases self.output@.len() - j,
        {
            output.push(self.output[j].copy());
            j = j + 1;
        }
        assert(input@.map_values(|x: TxIn| x@) =~= self.input@.map_values(|x: TxIn| x@));
        assert(output@.map_values(|x: TxOut| x@) =~= self.output@.map_values(|x: TxOut| x@));
        Transaction { version: self.version, lock_time: self.lock_time, input, output }
    }
}

} // verus!
