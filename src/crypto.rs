use vstd::prelude::*;

verus! {

/// The P2WSH output script that commits to a witness script.
pub uninterp spec fn p2wsh_script_pubkey_of(script: Seq<u8>) -> Seq<u8>;

/// The P2TR output script of a Taproot tree with two leaves at depth one over an
/// internal key; `None` where the internal key is not a valid x-only key.
pub uninterp spec fn p2tr_two_leaf_script_pubkey_of(
    internal_key: Seq<u8>,
    leaf_0: Seq<u8>,
    leaf_1: Seq<u8>,
) -> Option<Seq<u8>>;

/// Whether bytes encode a public key on the secp256k1 curve.
pub uninterp spec fn public_key_valid(key: Seq<u8>) -> bool;

/// The BIP143 signature hash under SIGHASH_ALL of one input of a transaction given by
/// its consensus encoding; `None` where the bytes do not decode or the index is out of
/// range.
pub uninterp spec fn p2wsh_sighash_all_of(
    tx: Seq<u8>,
    index: nat,
    script: Seq<u8>,
    amount: u64,
) -> Option<Seq<u8>>;

/// The compressed public key of a secret key; `None` for an invalid secret.
pub uninterp spec fn public_key_of_secret(secret: Seq<u8>) -> Option<Seq<u8>>;

/// The DER-encoded, deterministic (RFC 6979) ECDSA signature of a 32-byte digest;
/// `None` for an invalid secret or a digest of another length.
pub uninterp spec fn ecdsa_signature_of(secret: Seq<u8>, digest: Seq<u8>) -> Option<Seq<u8>>;

/// Relies on bitcoin's `ScriptBuf::new_p2wsh` over `Script::wscript_hash`: a version-0
/// witness program of the script's SHA-256, that is `OP_0` and a 32-byte push.
#[verifier::external_body]
pub(crate) fn p2wsh_script_pubkey(script: &Vec<u8>) -> (r: Vec<u8>)
    ensures
        r@ == p2wsh_script_pubkey_of(script@),
        r@.len() == 34,
{
    bitcoin::ScriptBuf::new_p2wsh(&bitcoin::Script::from_bytes(script).wscript_hash()).into_bytes()
}

/// Relies on bitcoin's `XOnlyPublicKey::from_slice`, `TaprootBuilder::add_leaf` and
/// `finalize`, and `ScriptBuf::new_p2tr_tweaked`: a version-1 witness program of the
/// tweaked output key, that is `OP_1` and a 32-byte push.
#[verifier::external_body]
pub(crate) fn p2tr_two_leaf_script_pubkey(
    internal_key: &[u8; 32],
    leaf_0: &Vec<u8>,
    leaf_1: &Vec<u8>,
) -> (r: Option<Vec<u8>>)
    ensures
        match r {
            Some(v) => p2tr_two_leaf_script_pubkey_of(internal_key@, leaf_0@, leaf_1@) == Some(
                v@,
            ) && v@.len() == 34,
            None => p2tr_two_leaf_script_pubkey_of(internal_key@, leaf_0@, leaf_1@) is None,
        },
{
    let key = bitcoin::XOnlyPublicKey::from_slice(internal_key).ok()?;
    let secp = bitcoin::secp256k1::Secp256k1::verification_only();
    let info = bitcoin::taproot::TaprootBuilder::new()
        .add_leaf(1, bitcoin::ScriptBuf::from_bytes(leaf_0.clone())).ok()?
        .add_leaf(1, bitcoin::ScriptBuf::from_bytes(leaf_1.clone())).ok()?
        .finalize(&secp, key).ok()?;
    Some(bitcoin::ScriptBuf::new_p2tr_tweaked(info.output_key()).into_bytes())
}

/// Relies on bitcoin's `PublicKey::from_slice`, which takes 33 (compressed) or 65
/// (uncompressed) bytes only.
#[verifier::external_body]
pub(crate) fn is_valid_public_key(key: &Vec<u8>) -> (r: bool)
    ensures
        r == public_key_valid(key@),
        r ==> key@.len() == 33 || key@.len() == 65,
{
    bitcoin::PublicKey::from_slice(key).is_ok()
}

/// Relies on bitcoin's `consensus::deserialize` of a transaction and
/// `SighashCache::p2wsh_signature_hash` with `EcdsaSighashType::All`, which returns an
/// error for an input index out of range.
#[verifier::external_body]
pub(crate) fn p2wsh_sighash_all(tx: &Vec<u8>, index: usize, script: &Vec<u8>, amount: u64) -> (r:
    Option<Vec<u8>>)
    ensures
        match r {
            Some(v) => p2wsh_sighash_all_of(tx@, index as nat, script@, amount) == Some(v@),
            None => p2wsh_sighash_all_of(tx@, index as nat, script@, amount) is None,
        },
{
    let t: bitcoin::Transaction = bitcoin::consensus::deserialize(tx).ok()?;
    let h = bitcoin::sighash::SighashCache::new(&t)
        .p2wsh_signature_hash(
            index,
            bitcoin::Script::from_bytes(script),
            bitcoin::Amount::from_sat(amount),
            bitcoin::EcdsaSighashType::All,
        )
        .ok()?;
    Some(<bitcoin::sighash::SegwitV0Sighash as bitcoin::hashes::Hash>::to_byte_array(h).to_vec())
}

/// Relies on secp256k1's `SecretKey::from_slice` and `PublicKey::from_secret_key`,
/// serialized compressed.
#[verifier::external_body]
pub(crate) fn public_key_from_secret(secret: &[u8; 32]) -> (r: Option<Vec<u8>>)
    ensures
        match r {
            Some(v) => public_key_of_secret(secret@) == Some(v@),
            None => public_key_of_secret(secret@) is None,
        },
{
    let sk = bitcoin::secp256k1::SecretKey::from_slice(secret).ok()?;
    let secp = bitcoin::secp256k1::Secp256k1::signing_only();
    Some(bitcoin::secp256k1::PublicKey::from_secret_key(&secp, &sk).serialize().to_vec())
}

/// Relies on secp256k1's `Secp256k1::sign_ecdsa` (RFC 6979 nonces) and
/// `Signature::serialize_der`.
#[verifier::external_body]
pub(crate) fn ecdsa_sign(secret: &[u8; 32], digest: &Vec<u8>) -> (r: Option<Vec<u8>>)
    ensures
        match r {
            Some(v) => ecdsa_signature_of(secret@, digest@) == Some(v@),
            None => ecdsa_signature_of(secret@, digest@) is None,
        },
{
    let sk = bitcoin::secp256k1::SecretKey::from_slice(secret).ok()?;
    let msg = bitcoin::secp256k1::Message::from_digest_slice(digest).ok()?;
    let secp = bitcoin::secp256k1::Secp256k1::signing_only();
    Some(secp.sign_ecdsa(&msg, &sk).serialize_der().to_vec())
}

} // verus!
