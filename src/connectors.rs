use vstd::prelude::*;

use crate::crypto::{
    is_valid_public_key, p2tr_two_leaf_script_pubkey, p2tr_two_leaf_script_pubkey_of,
    p2wsh_script_pubkey, p2wsh_script_pubkey_of, public_key_valid,
};
use crate::types::{Network, TxError};

verus! {

pub const OP_EQUALVERIFY: u8 = 0x88;

pub const OP_SHA256: u8 = 0xa8;

pub const OP_CHECKSIG: u8 = 0xac;

pub const OP_CHECKSIGVERIFY: u8 = 0xad;

/// Length of the commitment that gates the dispute leaf of connector B.
pub const COMMITMENT_LEN: usize = 32;

/// A direct push of at most 75 bytes: the length, then the bytes.
pub open spec fn push_bytes(b: Seq<u8>) -> Seq<u8>
    recommends
        b.len() <= 75,
{
    seq![b.len() as u8] + b
}

/// `<key> OP_CHECKSIG`.
pub open spec fn pay_to_pubkey_script(key: Seq<u8>) -> Seq<u8> {
    push_bytes(key) + seq![OP_CHECKSIG]
}

/// `<first> OP_CHECKSIGVERIFY <second> OP_CHECKSIG`: both keys must sign.
pub open spec fn two_key_script(first: Seq<u8>, second: Seq<u8>) -> Seq<u8> {
    push_bytes(first) + seq![OP_CHECKSIGVERIFY] + push_bytes(second) + seq![OP_CHECKSIG]
}

/// `OP_SHA256 <commitment> OP_EQUALVERIFY <key> OP_CHECKSIG`: the key signs and the
/// preimage of the commitment is revealed.
pub open spec fn hash_gated_script(commitment: Seq<u8>, key: Seq<u8>) -> Seq<u8> {
    seq![OP_SHA256] + push_bytes(commitment) + seq![OP_EQUALVERIFY] + push_bytes(key) + seq![
        OP_CHECKSIG,
    ]
}

/// Length of a compressed public key, the only form that segwit scripts may carry.
pub const COMPRESSED_KEY_LEN: usize = 33;

/// A compressed public key on the curve.
pub open spec fn compressed_key_valid(key: Seq<u8>) -> bool {
    key.len() == COMPRESSED_KEY_LEN && public_key_valid(key)
}

/// Output script of connector 3: P2WSH of the operator's pay-to-pubkey script.
pub open spec fn connector_3_script_pubkey(operator_public_key: Seq<u8>) -> Result<
    Seq<u8>,
    TxError,
> {
    if compressed_key_valid(operator_public_key) {
        Ok(p2wsh_script_pubkey_of(pay_to_pubkey_script(operator_public_key)))
    } else {
        Err(TxError::MalformedConnectorInput)
    }
}

/// Output script of connector A: Taproot over the N-of-N key, with the operator's
/// leaf first and the joint operator and N-of-N leaf second.
pub open spec fn connector_a_script_pubkey(
    operator_taproot_public_key: Seq<u8>,
    n_of_n_taproot_public_key: Seq<u8>,
) -> Result<Seq<u8>, TxError> {
    match p2tr_two_leaf_script_pubkey_of(
        n_of_n_taproot_public_key,
        pay_to_pubkey_script(operator_taproot_public_key),
        two_key_script(operator_taproot_public_key, n_of_n_taproot_public_key),
    ) {
        Some(s) => Ok(s),
        None => Err(TxError::MalformedConnectorInput),
    }
}

/// Output script of connector B: Taproot over the N-of-N key, with the leaf gated by
/// the one-time-signature commitment first and the N-of-N leaf second.
///
/// The leaf shape is this library's choice: the commitment is taken to be a 32-byte
/// SHA-256 image, revealed by its preimage next to an N-of-N signature. The bytes are
/// otherwise not interpreted.
pub open spec fn connector_b_script_pubkey(
    n_of_n_taproot_public_key: Seq<u8>,
    commitment: Seq<u8>,
) -> Result<Seq<u8>, TxError> {
    if commitment.len() != COMMITMENT_LEN {
        Err(TxError::MalformedConnectorInput)
    } else {
        match p2tr_two_leaf_script_pubkey_of(
            n_of_n_taproot_public_key,
            hash_gated_script(commitment, n_of_n_taproot_public_key),
            pay_to_pubkey_script(n_of_n_taproot_public_key),
        ) {
            Some(s) => Ok(s),
            None => Err(TxError::MalformedConnectorInput),
        }
    }
}

/// Appends a direct push of `b` to `out`.
fn push_slice(out: &mut Vec<u8>, b: &[u8])
    requires
        b@.len() <= 75,
    ensures
        final(out)@ == old(out)@ + push_bytes(b@),
{
    out.push(b.len() as u8);
    let mut i: usize = 0;
    while i < b.len()
        invariant
            i <= b@.len(),
            out@ == old(out)@ + seq![b@.len() as u8] + b@.subrange(0, i as int),
        decreases b@.len() - i,
    {
        out.push(b[i]);
        i = i + 1;
        assert(out@ =~= old(out)@ + seq![b@.len() as u8] + b@.subrange(0, i as int));
    }
    assert(b@.subrange(0, b@.len() as int) =~= b@);
    assert(out@ =~= old(out)@ + push_bytes(b@));
}

/// `<key> OP_CHECKSIG`, for a key of at most 75 bytes.
pub(crate) fn generate_pay_to_pubkey_script(key: &[u8]) -> (r: Vec<u8>)
    requires
        key@.len() <= 75,
    ensures
        r@ == pay_to_pubkey_script(key@),
{
    let mut r: Vec<u8> = Vec::new();
    push_slice(&mut r, key);
    r.push(OP_CHECKSIG);
    assert(r@ =~= pay_to_pubkey_script(key@));
    r
}

fn generate_two_key_script(first: &[u8], second: &[u8]) -> (r: Vec<u8>)
    requires
        first@.len() <= 75,
        second@.len() <= 75,
    ensures
        r@ == two_key_script(first@, second@),
{
    let mut r: Vec<u8> = Vec::new();
    push_slice(&mut r, first);
    r.push(OP_CHECKSIGVERIFY);
    push_slice(&mut r, second);
    r.push(OP_CHECKSIG);
    assert(r@ =~= two_key_script(first@, second@));
    r
}

fn generate_hash_gated_script(commitment: &[u8], key: &[u8]) -> (r: Vec<u8>)
    requires
        commitment@.len() <= 75,
        key@.len() <= 75,
    ensures
        r@ == hash_gated_script(commitment@, key@),
{
    let mut r: Vec<u8> = Vec::new();
    r.push(OP_SHA256);
    push_slice(&mut r, commitment);
    r.push(OP_EQUALVERIFY);
    push_slice(&mut r, key);
    r.push(OP_CHECKSIG);
    assert(r@ =~= hash_gated_script(commitment@, key@));
    r
}

/// Connector scripts are functions of the keys alone: equal keys give equal output
/// scripts, in any process.
pub proof fn lemma_connector_scripts_stable(
    operator_public_key: Seq<u8>,
    operator_taproot_public_key: Seq<u8>,
    n_of_n_taproot_public_key: Seq<u8>,
    commitment: Seq<u8>,
    other_operator_public_key: Seq<u8>,
    other_operator_taproot_public_key: Seq<u8>,
    other_n_of_n_taproot_public_key: Seq<u8>,
    other_commitment: Seq<u8>,
)
    requires
        operator_public_key == other_operator_public_key,
        operator_taproot_public_key == other_operator_taproot_public_key,
        n_of_n_taproot_public_key == other_n_of_n_taproot_public_key,
        commitment == other_commitment,
    ensures
        connector_3_script_pubkey(operator_public_key) == connector_3_script_pubkey(
            other_operator_public_key,
        ),
        connector_a_script_pubkey(operator_taproot_public_key, n_of_n_taproot_public_key)
            == connector_a_script_pubkey(
            other_operator_taproot_public_key,
            other_n_of_n_taproot_public_key,
        ),
        connector_b_script_pubkey(n_of_n_taproot_public_key, commitment)
            == connector_b_script_pubkey(other_n_of_n_taproot_public_key, other_commitment),
{
}

/// Pay-to-pubkey exit for the operator, wrapped in P2WSH. The key must be compressed.
pub struct Connector3 {
    pub network: Network,
    pub operator_public_key: Vec<u8>,
}

impl Connector3 {
    pub fn new(network: Network, operator_public_key: &Vec<u8>) -> (r: Connector3)
        ensures
            r.network == network,
            r.operator_public_key@ == operator_public_key@,
    {
        Connector3 { network, operator_public_key: crate::types::copy_bytes(operator_public_key) }
    }

    /// The witness script `<operator key> OP_CHECKSIG`.
    pub fn generate_script(&self) -> (r: Result<Vec<u8>, TxError>)
        ensures
            compressed_key_valid(self.operator_public_key@) ==> (r matches Ok(v) && v@
                == pay_to_pubkey_script(self.operator_public_key@)),
            !compressed_key_valid(self.operator_public_key@) ==> r == Err::<Vec<u8>, TxError>(
                TxError::MalformedConnectorInput,
            ),
    {
        if self.operator_public_key.len() != COMPRESSED_KEY_LEN || !is_valid_public_key(
            &self.operator_public_key,
        ) {
            return Err(TxError::MalformedConnectorInput);
        }
        Ok(generate_pay_to_pubkey_script(self.operator_public_key.as_slice()))
    }

    pub fn generate_script_pubkey(&self) -> (r: Result<Vec<u8>, TxError>)
        ensures
            match connector_3_script_pubkey(self.operator_public_key@) {
                Ok(s) => r matches Ok(v) && v@ == s,
                Err(e) => r matches Err(f) && f == e,
            },
            r is Ok ==> self.operator_public_key@.len() <= 75,
    {
        if self.operator_public_key.len() != COMPRESSED_KEY_LEN || !is_valid_public_key(
            &self.operator_public_key,
        ) {
            return Err(TxError::MalformedConnectorInput);
        }
        let script = generate_pay_to_pubkey_script(self.operator_public_key.as_slice());
        Ok(p2wsh_script_pubkey(&script))
    }
}

/// Taproot connector with an operator leaf and a joint operator and N-of-N leaf.
pub struct ConnectorA {
    pub network: Network,
    pub operator_taproot_public_key: [u8; 32],
    pub n_of_n_taproot_public_key: [u8; 32],
}

impl ConnectorA {
    pub fn new(
        network: Network,
        operator_taproot_public_key: &[u8; 32],
        n_of_n_taproot_public_key: &[u8; 32],
    ) -> (r: ConnectorA)
        ensures
            r.network == network,
            r.operator_taproot_public_key == *operator_taproot_public_key,
            r.n_of_n_taproot_public_key == *n_of_n_taproot_public_key,
    {
        ConnectorA {
            network,
            operator_taproot_public_key: *operator_taproot_public_key,
            n_of_n_taproot_public_key: *n_of_n_taproot_public_key,
        }
    }

    pub fn generate_taproot_script_pubkey(&self) -> (r: Result<Vec<u8>, TxError>)
        ensures
            match connector_a_script_pubkey(
                self.operator_taproot_public_key@,
                self.n_of_n_taproot_public_key@,
            ) {
                Ok(s) => r matches Ok(v) && v@ == s,
                Err(e) => r matches Err(f) && f == e,
            },
    {
        let operator_key = self.operator_taproot_public_key.as_slice();
        let n_of_n_key = self.n_of_n_taproot_public_key.as_slice();
        let leaf_0 = generate_pay_to_pubkey_script(operator_key);
        let leaf_1 = generate_two_key_script(operator_key, n_of_n_key);
        match p2tr_two_leaf_script_pubkey(&self.n_of_n_taproot_public_key, &leaf_0, &leaf_1) {
            Some(v) => Ok(v),
            None => Err(TxError::MalformedConnectorInput),
        }
    }
}

/// Taproot connector with a leaf gated by the operator's one-time-signature commitment
/// and an N-of-N leaf. The hash-lock shape of the first leaf, over a 32-byte
/// commitment, is this library's choice (see `connector_b_script_pubkey`).
pub struct ConnectorB {
    pub network: Network,
    pub n_of_n_taproot_public_key: [u8; 32],
    pub commitment: Vec<u8>,
}

impl ConnectorB {
    pub fn new(network: Network, n_of_n_taproot_public_key: &[u8; 32], commitment: &Vec<u8>) -> (r:
        ConnectorB)
        ensures
            r.network == network,
            r.n_of_n_taproot_public_key == *n_of_n_taproot_public_key,
            r.commitment@ == commitment@,
    {
        ConnectorB {
            network,
            n_of_n_taproot_public_key: *n_of_n_taproot_public_key,
            commitment: crate::types::copy_bytes(commitment),
        }
    }

    pub fn generate_taproot_script_pubkey(&self) -> (r: Result<Vec<u8>, TxError>)
        ensures
            match connector_b_script_pubkey(self.n_of_n_taproot_public_key@, self.commitment@) {
                Ok(s) => r matches Ok(v) && v@ == s,
                Err(e) => r matches Err(f) && f == e,
            },
    {
        if self.commitment.len() != COMMITMENT_LEN {
            return Err(TxError::MalformedConnectorInput);
        }
        let n_of_n_key = self.n_of_n_taproot_public_key.as_slice();
        let leaf_0 = generate_hash_gated_script(self.commitment.as_slice(), n_of_n_key);
        let leaf_1 = generate_pay_to_pubkey_script(n_of_n_key);
        match p2tr_two_leaf_script_pubkey(&self.n_of_n_taproot_public_key, &leaf_0, &leaf_1) {
            Some(v) => Ok(v),
            None => Err(TxError::MalformedConnectorInput),
        }
    }
}

} // verus!
