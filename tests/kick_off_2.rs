use bitcoin::secp256k1::{Secp256k1, SecretKey};
use kickoff_tx::connectors::{Connector3, ConnectorA, ConnectorB};
use kickoff_tx::encode::serialize_transaction;
use kickoff_tx::kick_off_2::{KickOff2Transaction, OperatorContext};
use kickoff_tx::signing::p2wsh_signature_hash;
use kickoff_tx::types::{Input, Network, OutPoint, Transaction, TxError, DUST_AMOUNT, FEE_AMOUNT};

fn secret(byte: u8) -> [u8; 32] {
    [byte; 32]
}

fn public_key(sk: [u8; 32]) -> Vec<u8> {
    let secp = Secp256k1::new();
    let sk = SecretKey::from_slice(&sk).unwrap();
    bitcoin::secp256k1::PublicKey::from_secret_key(&secp, &sk).serialize().to_vec()
}

fn x_only(sk: [u8; 32]) -> [u8; 32] {
    let secp = Secp256k1::new();
    let sk = SecretKey::from_slice(&sk).unwrap();
    sk.x_only_public_key(&secp).0.serialize()
}

fn context() -> OperatorContext {
    OperatorContext {
        network: Network::Regtest,
        operator_secret_key: secret(1),
        operator_public_key: public_key(secret(1)),
        operator_taproot_public_key: x_only(secret(1)),
        n_of_n_taproot_public_key: x_only(secret(2)),
        operator_winternitz_public_key: vec![7u8; 32],
    }
}

fn input(amount: u64) -> Input {
    Input { outpoint: OutPoint { txid: [9u8; 32], vout: 3 }, amount }
}

fn validate(ctx: &OperatorContext, amount: u64) -> Result<KickOff2Transaction, TxError> {
    KickOff2Transaction::new_for_validation(
        ctx.network,
        &ctx.operator_public_key,
        &ctx.operator_winternitz_public_key,
        &ctx.operator_taproot_public_key,
        &ctx.n_of_n_taproot_public_key,
        input(amount),
    )
}

fn to_bitcoin(t: &Transaction) -> bitcoin::Transaction {
    bitcoin::Transaction {
        version: bitcoin::transaction::Version(t.version as i32),
        lock_time: bitcoin::absolute::LockTime::from_consensus(t.lock_time),
        input: t
            .input
            .iter()
            .map(|i| bitcoin::TxIn {
                previous_output: bitcoin::OutPoint {
                    txid: <bitcoin::Txid as bitcoin::hashes::Hash>::from_byte_array(i.previous_output.txid),
                    vout: i.previous_output.vout,
                },
                script_sig: bitcoin::ScriptBuf::from_bytes(i.script_sig.clone()),
                sequence: bitcoin::Sequence(i.sequence),
                witness: bitcoin::Witness::from_slice(&i.witness),
            })
            .collect(),
        output: t
            .output
            .iter()
            .map(|o| bitcoin::TxOut {
                value: bitcoin::Amount::from_sat(o.value),
                script_pubkey: bitcoin::ScriptBuf::from_bytes(o.script_pubkey.clone()),
            })
            .collect(),
    }
}

#[test]
fn concrete_amounts_and_order() {
    let ctx = context();
    let t = validate(&ctx, 100_000).unwrap().finalize();
    assert_eq!(FEE_AMOUNT, 1_000);
    assert_eq!(DUST_AMOUNT, 1_000);
    assert_eq!(t.output.len(), 3);
    let values: Vec<u64> = t.output.iter().map(|o| o.value).collect();
    assert_eq!(values, vec![1_000, 97_000, 1_000]);
    assert_eq!(values.iter().sum::<u64>() + FEE_AMOUNT, 100_000);

    let s3 = Connector3::new(ctx.network, &ctx.operator_public_key).generate_script_pubkey().unwrap();
    let sb = ConnectorB::new(ctx.network, &ctx.n_of_n_taproot_public_key, &ctx.operator_winternitz_public_key)
        .generate_taproot_script_pubkey()
        .unwrap();
    let sa = ConnectorA::new(ctx.network, &ctx.operator_taproot_public_key, &ctx.n_of_n_taproot_public_key)
        .generate_taproot_script_pubkey()
        .unwrap();
    assert_eq!(t.output[0].script_pubkey, s3);
    assert_eq!(t.output[1].script_pubkey, sb);
    assert_eq!(t.output[2].script_pubkey, sa);

    assert_eq!(t.version, 2);
    assert_eq!(t.lock_time, 0);
    assert_eq!(t.input.len(), 1);
    assert_eq!(t.input[0].previous_output.txid, [9u8; 32]);
    assert_eq!(t.input[0].previous_output.vout, 3);
    assert_eq!(t.input[0].sequence, 0xffff_ffff);
    assert!(t.input[0].witness.is_empty());
}

#[test]
fn prev_outs_describe_the_spent_coin() {
    let ctx = context();
    let k = validate(&ctx, 100_000).unwrap();
    assert_eq!(k.prev_outs().len(), 1);
    assert_eq!(k.prev_outs()[0].value, 100_000);
    let s3 = Connector3::new(ctx.network, &ctx.operator_public_key).generate_script_pubkey().unwrap();
    assert_eq!(k.prev_outs()[0].script_pubkey, s3);
    assert_eq!(k.prev_scripts().len(), 1);
    assert_eq!(k.prev_scripts()[0], Connector3::new(ctx.network, &ctx.operator_public_key).generate_script().unwrap());
    let bitcoin_key = bitcoin::PublicKey::from_slice(&ctx.operator_public_key).unwrap();
    let expected = bitcoin::ScriptBuf::builder()
        .push_key(&bitcoin_key)
        .push_opcode(bitcoin::opcodes::all::OP_CHECKSIG)
        .into_script();
    assert_eq!(k.prev_scripts()[0], expected.into_bytes());
}

#[test]
fn smallest_amount_leaves_dust_everywhere() {
    let ctx = context();
    let t = validate(&ctx, 4_000).unwrap().finalize();
    let values: Vec<u64> = t.output.iter().map(|o| o.value).collect();
    assert_eq!(values, vec![1_000, 1_000, 1_000]);
}

#[test]
fn underflow_is_rejected() {
    let ctx = context();
    assert_eq!(validate(&ctx, 3_999).err(), Some(TxError::AmountUnderflow));
    assert_eq!(validate(&ctx, 0).err(), Some(TxError::AmountUnderflow));
    assert_eq!(validate(&ctx, 999).err(), Some(TxError::AmountUnderflow));
    assert_eq!(KickOff2Transaction::new(&ctx, input(1_500)).err(), Some(TxError::AmountUnderflow));
}

#[test]
fn malformed_operator_key_is_rejected() {
    let mut ctx = context();
    ctx.operator_public_key = vec![2u8; 20];
    assert_eq!(validate(&ctx, 100_000).err(), Some(TxError::MalformedConnectorInput));
}

#[test]
fn malformed_commitment_is_rejected() {
    let mut ctx = context();
    ctx.operator_winternitz_public_key = vec![7u8; 31];
    assert_eq!(validate(&ctx, 100_000).err(), Some(TxError::MalformedConnectorInput));
}

#[test]
fn malformed_taproot_key_is_rejected() {
    let mut ctx = context();
    ctx.n_of_n_taproot_public_key = [0xffu8; 32];
    assert_eq!(validate(&ctx, 100_000).err(), Some(TxError::MalformedConnectorInput));
}

#[test]
fn validation_is_deterministic() {
    let ctx = context();
    let a = validate(&ctx, 55_555).unwrap();
    let b = validate(&context(), 55_555).unwrap();
    assert_eq!(serialize_transaction(&a.finalize()), serialize_transaction(&b.finalize()));
    assert_eq!(a.prev_scripts(), b.prev_scripts());
    assert_eq!(a.prev_outs()[0].script_pubkey, b.prev_outs()[0].script_pubkey);
}

#[test]
fn connector_scripts_are_stable() {
    let ctx = context();
    let a1 = ConnectorA::new(ctx.network, &ctx.operator_taproot_public_key, &ctx.n_of_n_taproot_public_key)
        .generate_taproot_script_pubkey()
        .unwrap();
    let a2 = ConnectorA::new(Network::Regtest, &x_only(secret(1)), &x_only(secret(2)))
        .generate_taproot_script_pubkey()
        .unwrap();
    assert_eq!(a1, a2);
    assert_eq!(a1.len(), 34);
    assert_eq!(&a1[..2], &[0x51, 0x20]);
    let s3 = Connector3::new(ctx.network, &ctx.operator_public_key).generate_script_pubkey().unwrap();
    assert_eq!(s3, Connector3::new(ctx.network, &public_key(secret(1))).generate_script_pubkey().unwrap());
    assert_eq!(&s3[..2], &[0x00, 0x20]);
    let script = Connector3::new(ctx.network, &ctx.operator_public_key).generate_script().unwrap();
    let expected = bitcoin::ScriptBuf::new_p2wsh(&bitcoin::Script::from_bytes(&script).wscript_hash());
    assert_eq!(s3, expected.into_bytes());
}

#[test]
fn serialization_matches_consensus_encoding() {
    let ctx = context();
    let unsigned = validate(&ctx, 100_000).unwrap().finalize();
    assert_eq!(serialize_transaction(&unsigned), bitcoin::consensus::serialize(&to_bitcoin(&unsigned)));
    let signed = KickOff2Transaction::new(&ctx, input(100_000)).unwrap().finalize();
    assert_eq!(serialize_transaction(&signed), bitcoin::consensus::serialize(&to_bitcoin(&signed)));
    let decoded: bitcoin::Transaction =
        bitcoin::consensus::deserialize(&serialize_transaction(&signed)).unwrap();
    assert_eq!(decoded, to_bitcoin(&signed));
}

#[test]
fn sighash_matches_bip143() {
    let ctx = context();
    let k = validate(&ctx, 100_000).unwrap();
    let script = k.prev_scripts()[0].clone();
    let ours = p2wsh_signature_hash(k.tx(), 0, &script, 100_000).unwrap();
    let btx = to_bitcoin(k.tx());
    let theirs = bitcoin::sighash::SighashCache::new(&btx)
        .p2wsh_signature_hash(
            0,
            bitcoin::Script::from_bytes(&script),
            bitcoin::Amount::from_sat(100_000),
            bitcoin::EcdsaSighashType::All,
        )
        .unwrap();
    assert_eq!(ours, <bitcoin::sighash::SegwitV0Sighash as bitcoin::hashes::Hash>::to_byte_array(theirs).to_vec());
}

#[test]
fn signing_adds_a_valid_witness_only() {
    let ctx = context();
    let signed = KickOff2Transaction::new(&ctx, input(100_000)).unwrap();
    let unsigned = validate(&ctx, 100_000).unwrap();
    let s = signed.finalize();
    let u = unsigned.finalize();
    assert_eq!(s.version, u.version);
    assert_eq!(s.lock_time, u.lock_time);
    assert_eq!(s.output.len(), u.output.len());
    for (a, b) in s.output.iter().zip(u.output.iter()) {
        assert_eq!(a.value, b.value);
        assert_eq!(a.script_pubkey, b.script_pubkey);
    }
    assert_eq!(s.input[0].previous_output.txid, u.input[0].previous_output.txid);
    assert_eq!(s.input[0].sequence, u.input[0].sequence);
    assert_eq!(s.input[0].witness.len(), 2);
    assert_eq!(s.input[0].witness[1], unsigned.prev_scripts()[0]);
    let sig_bytes = &s.input[0].witness[0];
    assert_eq!(*sig_bytes.last().unwrap(), 1u8);

    let digest = p2wsh_signature_hash(unsigned.tx(), 0, &unsigned.prev_scripts()[0], 100_000).unwrap();
    let secp = Secp256k1::new();
    let msg = bitcoin::secp256k1::Message::from_digest_slice(&digest).unwrap();
    let sig = bitcoin::secp256k1::ecdsa::Signature::from_der(&sig_bytes[..sig_bytes.len() - 1]).unwrap();
    let pk = bitcoin::secp256k1::PublicKey::from_slice(&ctx.operator_public_key).unwrap();
    assert!(secp.verify_ecdsa(&msg, &sig, &pk).is_ok());

    let again = KickOff2Transaction::new(&ctx, input(100_000)).unwrap().finalize();
    assert_eq!(again.input[0].witness, s.input[0].witness);
}

#[test]
fn wrong_secret_is_a_key_mismatch() {
    let mut ctx = context();
    ctx.operator_secret_key = secret(3);
    assert_eq!(KickOff2Transaction::new(&ctx, input(100_000)).err(), Some(TxError::KeyMismatch));
    ctx.operator_secret_key = [0u8; 32];
    assert_eq!(KickOff2Transaction::new(&ctx, input(100_000)).err(), Some(TxError::KeyMismatch));
}

#[test]
fn unsigned_round_trip() {
    let ctx = context();
    let k = validate(&ctx, 100_000).unwrap();
    let bytes = k.serialize();
    let back = KickOff2Transaction::deserialize(&bytes).unwrap();
    assert_eq!(back.serialize(), bytes);
    assert_eq!(serialize_transaction(&back.finalize()), serialize_transaction(&k.finalize()));
    assert_eq!(back.prev_scripts(), k.prev_scripts());
    assert_eq!(back.prev_outs()[0].value, 100_000);
}

#[test]
fn signed_round_trip() {
    let ctx = context();
    let k = KickOff2Transaction::new(&ctx, input(250_000)).unwrap();
    let bytes = k.serialize();
    let back = KickOff2Transaction::deserialize(&bytes).unwrap();
    assert_eq!(back.serialize(), bytes);
    assert_eq!(back.finalize().input[0].witness, k.finalize().input[0].witness);
    assert_eq!(back.finalize().output[1].value, 247_000);
}

#[test]
fn truncated_wire_form_is_rejected() {
    let ctx = context();
    let bytes = validate(&ctx, 100_000).unwrap().serialize();
    assert!(KickOff2Transaction::deserialize(&bytes[..bytes.len() - 1].to_vec()).is_none());
    assert!(KickOff2Transaction::deserialize(&Vec::new()).is_none());
}

#[test]
fn signed_and_validated_agree_on_skeleton() {
    let ctx = context();
    let signed = KickOff2Transaction::new(&ctx, input(100_000)).unwrap();
    let unsigned = validate(&ctx, 100_000).unwrap();
    assert!(signed.same_unsigned(&unsigned));
    assert!(unsigned.same_unsigned(&signed));
    let other = validate(&ctx, 100_001).unwrap();
    assert!(!unsigned.same_unsigned(&other));
    let mut ctx2 = context();
    ctx2.n_of_n_taproot_public_key = x_only(secret(5));
    let moved = validate(&ctx2, 100_000).unwrap();
    assert!(!unsigned.same_unsigned(&moved));
}

#[test]
fn connector_3_script_is_pay_to_pubkey() {
    let ctx = context();
    let script = Connector3::new(ctx.network, &ctx.operator_public_key).generate_script().unwrap();
    assert_eq!(script.len(), 35);
    assert_eq!(script[0], 33);
    assert_eq!(&script[1..34], &ctx.operator_public_key[..]);
    assert_eq!(script[34], 0xac);
    assert_eq!(
        Connector3::new(ctx.network, &vec![1u8; 33]).generate_script().err(),
        Some(TxError::MalformedConnectorInput)
    );
}

#[test]
fn uncompressed_operator_key_is_rejected() {
    let mut ctx = context();
    let secp = Secp256k1::new();
    let sk = SecretKey::from_slice(&secret(1)).unwrap();
    ctx.operator_public_key =
        bitcoin::secp256k1::PublicKey::from_secret_key(&secp, &sk).serialize_uncompressed().to_vec();
    assert_eq!(validate(&ctx, 100_000).err(), Some(TxError::MalformedConnectorInput));
    assert_eq!(KickOff2Transaction::new(&ctx, input(100_000)).err(), Some(TxError::MalformedConnectorInput));
}

#[test]
fn sighash_of_missing_input_is_unavailable() {
    let ctx = context();
    let k = validate(&ctx, 100_000).unwrap();
    let script = k.prev_scripts()[0].clone();
    assert!(p2wsh_signature_hash(k.tx(), 1, &script, 100_000).is_none());
    let digest = p2wsh_signature_hash(k.tx(), 0, &script, 100_000).unwrap();
    assert_eq!(digest.len(), 32);
    assert_ne!(digest, serialize_transaction(k.tx()));
}
