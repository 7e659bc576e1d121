use vstd::prelude::*;

use crate::crypto::{ecdsa_sign, ecdsa_signature_of, p2wsh_sighash_all, p2wsh_sighash_all_of};
use crate::encode::{encode_transaction, serialize_transaction};
use crate::types::{
    copy_bytes, Transaction, TransactionModel, TxError, TxIn, TxInModel, TxOut,
};

verus! {

/// The sighash mode that commits to all inputs and all outputs.
pub const SIGHASH_ALL: u32 = 1;

/// The segwit version-0 (BIP143) signature hash under SIGHASH_ALL of input `index` of
/// `t`, which spends `amount` locked by the witness script `script`; `None` where the
/// hash cannot be computed.
pub open spec fn p2wsh_sighash(t: TransactionModel, index: int, script: Seq<u8>, amount: u64) -> Option<
    Seq<u8>,
> {
    p2wsh_sighash_all_of(encode_transaction(t), index as nat, script, amount)
}

/// The witness that spends a P2WSH pay-to-pubkey output: the signature with its
/// sighash byte, then the witness script.
pub open spec fn p2wsh_signed_witness(signature: Seq<u8>, script: Seq<u8>) -> Seq<Seq<u8>> {
    seq![signature + seq![SIGHASH_ALL as u8], script]
}

/// `t` with the witness of input `index` replaced by `w`.
pub open spec fn with_witness(t: TransactionModel, index: int, w: Seq<Seq<u8>>) -> TransactionModel {
    TransactionModel {
        input: t.input.update(index, TxInModel { witness: w, ..t.input[index] }),
        ..t
    }
}

/// What signing input `index` with `secret` does to `t`, given the spent output's
/// amount and witness script.
pub open spec fn signed_p2wsh_input(
    t: TransactionModel,
    index: int,
    script: Seq<u8>,
    amount: u64,
    secret: Seq<u8>,
) -> Result<TransactionModel, TxError> {
    match p2wsh_sighash(t, index, script, amount) {
        None => Err(TxError::SighashUnavailable),
        Some(h) => match ecdsa_signature_of(secret, h) {
            Some(sig) => Ok(with_witness(t, index, p2wsh_signed_witness(sig, script))),
            None => Err(TxError::KeyMismatch),
        },
    }
}

/// The BIP143 signature hash of input `index` under SIGHASH_ALL.
pub fn p2wsh_signature_hash(t: &Transaction, index: usize, script: &Vec<u8>, amount: u64) -> (r:
    Option<Vec<u8>>)
    ensures
        match p2wsh_sighash(t@, index as int, script@, amount) {
            Some(h) => r matches Some(v) && v@ == h,
            None => r is None,
        },
{
    let bytes = serialize_transaction(t);
    p2wsh_sighash_all(&bytes, index, script, amount)
}

/// Signs input `input_index`, which spends a P2WSH output, under SIGHASH_ALL, and sets
/// its witness to the signature and the witness script. On failure `tx` is unchanged.
pub fn pre_sign_p2wsh_input(
    tx: &mut Transaction,
    prev_outs: &Vec<TxOut>,
    prev_scripts: &Vec<Vec<u8>>,
    input_index: usize,
    secret: &[u8; 32],
) -> (r: Result<(), TxError>)
    requires
        input_index < old(tx).input@.len(),
        input_index < prev_outs@.len(),
        input_index < prev_scripts@.len(),
    ensures
        match signed_p2wsh_input(
            old(tx)@,
            input_index as int,
            prev_scripts@[input_index as int]@,
            prev_outs@[input_index as int].value,
            secret@,
        ) {
            Ok(t) => r is Ok && final(tx)@ == t,
            Err(e) => r == Err::<(), TxError>(e) && final(tx)@ == old(tx)@,
        },
{
    let script = &prev_scripts[input_index];
    let sighash = match p2wsh_signature_hash(tx, input_index, script, prev_outs[input_index].value) {
        Some(h) => h,
        None => return Err(TxError::SighashUnavailable),
    };
    let signature = match ecdsa_sign(secret, &sighash) {
        Some(s) => s,
        None => return Err(TxError::KeyMismatch),
    };
    let ghost sig = signature@;
    let ghost w = p2wsh_signed_witness(sig, script@);
    let mut first = signature;
    first.push(SIGHASH_ALL as u8);
    assert(first@ =~= sig + seq![SIGHASH_ALL as u8]);
    let ghost f = first@;
    let mut witness: Vec<Vec<u8>> = Vec::new();
    witness.push(first);
    witness.push(copy_bytes(script));
    assert(witness@[0]@ == f);
    assert(witness@[1]@ == script@);
    assert(witness@.map_values(|v: Vec<u8>| v@) =~= w);
    let old_in = tx.input[input_index].copy();
    let new_in = TxIn {
        previous_output: old_in.previous_output,
        script_sig: old_in.script_sig,
        sequence: old_in.sequence,
        witness,
    };
    let ghost old_t = tx@;
    let ghost new_model = TxInModel { witness: w, ..old_t.input[input_index as int] };
    assert(new_in@ == new_model);
    tx.input.set(input_index, new_in);
    assert(tx@.input =~= old_t.input.update(input_index as int, new_model));
    assert(tx@ == with_witness(old_t, input_index as int, w));
    Ok(())
}

} // verus!
