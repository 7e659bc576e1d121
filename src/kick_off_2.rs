use vstd::prelude::*;

use crate::connectors::{
    connector_3_script_pubkey, connector_a_script_pubkey, connector_b_script_pubkey,
    generate_pay_to_pubkey_script, pay_to_pubkey_script, Connector3, ConnectorA, ConnectorB,
};
use crate::crypto::{public_key_from_secret, public_key_of_secret};
use crate::decode::{
    bytes_at, without_witness, lemma_bytes_at_concat, lemma_encode_all_len, lemma_items_len, read_compact_size,
    read_items, read_transaction, read_txouts, transaction_at,
};
use crate::encode::{
    compact_size, encode_items, encode_transaction, encode_txouts, le_u64, serialize_transaction,
    txout_encoder, write_compact_size, write_items, write_txouts,
};
use crate::signing::{pre_sign_p2wsh_input, signed_p2wsh_input, with_witness};
use crate::types::{
    copy_bytes, Input, Network, Transaction, TransactionModel, TxError, TxIn, TxInModel, TxOut,
    TxOutModel, DUST_AMOUNT, FEE_AMOUNT,
};

verus! {

/// Key material of the operator.
pub struct OperatorContext {
    pub network: Network,
    /// Secret key behind `operator_public_key`.
    pub operator_secret_key: [u8; 32],
    /// Compressed (33-byte) SEC encoding, the only form a segwit script may use.
    pub operator_public_key: Vec<u8>,
    pub operator_taproot_public_key: [u8; 32],
    pub n_of_n_taproot_public_key: [u8; 32],
    /// Commitment to the operator's one-time-signature public key.
    pub operator_winternitz_public_key: Vec<u8>,
}

/// The transaction that moves the operator's funds into the dispute connectors: one
/// input, and outputs to connector 3, connector B and connector A, in that order.
pub struct KickOff2Transaction {
    tx: Transaction,
    prev_outs: Vec<TxOut>,
    prev_scripts: Vec<Vec<u8>>,
}

pub ghost struct KickOff2Model {
    pub tx: TransactionModel,
    pub prev_outs: Seq<TxOutModel>,
    pub prev_scripts: Seq<Seq<u8>>,
}

impl View for KickOff2Transaction {
    type V = KickOff2Model;

    closed spec fn view(&self) -> KickOff2Model {
        KickOff2Model {
            tx: self.tx@,
            prev_outs: self.prev_outs@.map_values(|o: TxOut| o@),
            prev_scripts: self.prev_scripts@.map_values(|s: Vec<u8>| s@),
        }
    }
}

/// Smallest input amount that pays the fee and leaves every output at least dust.
pub open spec fn min_input_amount() -> nat {
    (FEE_AMOUNT + 3 * DUST_AMOUNT) as nat
}

pub open spec fn sum_values(s: Seq<TxOutModel>) -> int
    decreases s.len(),
{
    if s.len() == 0 {
        0
    } else {
        sum_values(s.drop_last()) + s.last().value
    }
}

/// Dust to connector 3, the rest after fee and dust to connector B, dust to connector A.
pub open spec fn kick_off_2_outputs(
    amount: u64,
    script_3: Seq<u8>,
    script_b: Seq<u8>,
    script_a: Seq<u8>,
) -> Seq<TxOutModel> {
    seq![
        TxOutModel { value: DUST_AMOUNT, script_pubkey: script_3 },
        TxOutModel { value: (amount - FEE_AMOUNT - 2 * DUST_AMOUNT) as u64, script_pubkey: script_b },
        TxOutModel { value: DUST_AMOUNT, script_pubkey: script_a },
    ]
}

/// The unsigned transaction and its spent-output metadata.
pub open spec fn kick_off_2_model(
    input: Input,
    operator_public_key: Seq<u8>,
    script_3: Seq<u8>,
    script_b: Seq<u8>,
    script_a: Seq<u8>,
) -> KickOff2Model {
    KickOff2Model {
        tx: TransactionModel {
            version: 2,
            lock_time: 0,
            input: seq![
                TxInModel {
                    previous_output: input.outpoint,
                    script_sig: seq![],
                    sequence: 0xffff_ffff,
                    witness: seq![],
                },
            ],
            output: kick_off_2_outputs(input.amount, script_3, script_b, script_a),
        },
        prev_outs: seq![TxOutModel { value: input.amount, script_pubkey: script_3 }],
        prev_scripts: seq![pay_to_pubkey_script(operator_public_key)],
    }
}

/// What `new_for_validation` yields. The spent coin is locked, like connector 3, by
/// the operator's pay-to-pubkey script in P2WSH.
pub open spec fn validation_result(
    operator_public_key: Seq<u8>,
    operator_winternitz_public_key: Seq<u8>,
    operator_taproot_public_key: Seq<u8>,
    n_of_n_taproot_public_key: Seq<u8>,
    input: Input,
) -> Result<KickOff2Model, TxError> {
    if input.amount < min_input_amount() {
        Err(TxError::AmountUnderflow)
    } else {
        match (
            connector_3_script_pubkey(operator_public_key),
            connector_b_script_pubkey(n_of_n_taproot_public_key, operator_winternitz_public_key),
            connector_a_script_pubkey(operator_taproot_public_key, n_of_n_taproot_public_key),
        ) {
            (Ok(s3), Ok(sb), Ok(sa)) => Ok(
                kick_off_2_model(input, operator_public_key, s3, sb, sa),
            ),
            _ => Err(TxError::MalformedConnectorInput),
        }
    }
}

/// What `new` yields: the validation result, with the operator's signature on input 0
/// where the secret key belongs to the operator's public key.
pub open spec fn signed_result(
    operator_secret_key: Seq<u8>,
    operator_public_key: Seq<u8>,
    operator_winternitz_public_key: Seq<u8>,
    operator_taproot_public_key: Seq<u8>,
    n_of_n_taproot_public_key: Seq<u8>,
    input: Input,
) -> Result<KickOff2Model, TxError> {
    match validation_result(
        operator_public_key,
        operator_winternitz_public_key,
        operator_taproot_public_key,
        n_of_n_taproot_public_key,
        input,
    ) {
        Err(e) => Err(e),
        Ok(m) => if public_key_of_secret(operator_secret_key) != Some(operator_public_key) {
            Err(TxError::KeyMismatch)
        } else {
            match signed_p2wsh_input(
                m.tx,
                0,
                m.prev_scripts[0],
                m.prev_outs[0].value,
                operator_secret_key,
            ) {
                Ok(t) => Ok(KickOff2Model { tx: t, ..m }),
                Err(e) => Err(e),
            }
        },
    }
}

/// The wire form of a built transaction: the transaction in consensus encoding, then
/// the spent outputs and their witness scripts, each list preceded by its length.
pub open spec fn encode_kick_off_2(m: KickOff2Model) -> Seq<u8> {
    encode_transaction(m.tx) + compact_size(m.prev_outs.len()) + encode_txouts(m.prev_outs)
        + compact_size(m.prev_scripts.len()) + encode_items(m.prev_scripts)
}

/// A transaction with the witness data of every input removed.
pub open spec fn unsigned_skeleton(t: TransactionModel) -> TransactionModel {
    TransactionModel {
        input: t.input.map_values(|i: TxInModel| without_witness(i)),
        ..t
    }
}

/// Every output of a built transaction is at least dust, and the outputs and the fee
/// add up to the input amount.
pub proof fn lemma_amount_conservation(
    input: Input,
    script_3: Seq<u8>,
    script_b: Seq<u8>,
    script_a: Seq<u8>,
)
    requires
        input.amount >= min_input_amount(),
    ensures
        sum_values(kick_off_2_outputs(input.amount, script_3, script_b, script_a)) + FEE_AMOUNT
            == input.amount,
        forall|k: int|
            0 <= k < 3 ==> #[trigger] kick_off_2_outputs(
                input.amount,
                script_3,
                script_b,
                script_a,
            )[k].value >= DUST_AMOUNT,
{
    let s = kick_off_2_outputs(input.amount, script_3, script_b, script_a);
    let s1 = s.drop_last();
    let s2 = s1.drop_last();
    let s3 = s2.drop_last();
    assert(s3.len() == 0);
    assert(sum_values(s3) == 0);
    assert(s2.last() == s[0]);
    assert(sum_values(s2) == DUST_AMOUNT);
    assert(s1.last() == s[1]);
    assert(sum_values(s1) == DUST_AMOUNT + s[1].value);
    assert(sum_values(s) == sum_values(s1) + s[2].value);
}

/// Construction for validation is a function of its arguments: equal arguments give
/// equal results, and equal bytes on the wire.
pub proof fn lemma_validation_deterministic(
    operator_public_key: Seq<u8>,
    operator_winternitz_public_key: Seq<u8>,
    operator_taproot_public_key: Seq<u8>,
    n_of_n_taproot_public_key: Seq<u8>,
    input: Input,
    other_input: Input,
)
    requires
        input.outpoint == other_input.outpoint,
        input.amount == other_input.amount,
    ensures
        validation_result(
            operator_public_key,
            operator_winternitz_public_key,
            operator_taproot_public_key,
            n_of_n_taproot_public_key,
            input,
        ) == validation_result(
            operator_public_key,
            operator_winternitz_public_key,
            operator_taproot_public_key,
            n_of_n_taproot_public_key,
            other_input,
        ),
        validation_result(
            operator_public_key,
            operator_winternitz_public_key,
            operator_taproot_public_key,
            n_of_n_taproot_public_key,
            input,
        ) is Ok ==> encode_transaction(
            validation_result(
                operator_public_key,
                operator_winternitz_public_key,
                operator_taproot_public_key,
                n_of_n_taproot_public_key,
                input,
            )->Ok_0.tx,
        ) == encode_transaction(
            validation_result(
                operator_public_key,
                operator_winternitz_public_key,
                operator_taproot_public_key,
                n_of_n_taproot_public_key,
                other_input,
            )->Ok_0.tx,
        ),
{
    assert(input == other_input);
}

/// Signing changes witness data only: the signed transaction and the one built for
/// validation have the same unsigned skeleton and the same spent-output metadata.
pub proof fn lemma_signing_keeps_skeleton(
    operator_secret_key: Seq<u8>,
    operator_public_key: Seq<u8>,
    operator_winternitz_public_key: Seq<u8>,
    operator_taproot_public_key: Seq<u8>,
    n_of_n_taproot_public_key: Seq<u8>,
    input: Input,
)
    requires
        signed_result(
            operator_secret_key,
            operator_public_key,
            operator_winternitz_public_key,
            operator_taproot_public_key,
            n_of_n_taproot_public_key,
            input,
        ) is Ok,
    ensures
        ({
            let s = signed_result(
                operator_secret_key,
                operator_public_key,
                operator_winternitz_public_key,
                operator_taproot_public_key,
                n_of_n_taproot_public_key,
                input,
            )->Ok_0;
            let v = validation_result(
                operator_public_key,
                operator_winternitz_public_key,
                operator_taproot_public_key,
                n_of_n_taproot_public_key,
                input,
            );
            &&& v is Ok
            &&& unsigned_skeleton(s.tx) == unsigned_skeleton(v->Ok_0.tx)
            &&& s.prev_outs == v->Ok_0.prev_outs
            &&& s.prev_scripts == v->Ok_0.prev_scripts
        }),
{
    let m = validation_result(
        operator_public_key,
        operator_winternitz_public_key,
        operator_taproot_public_key,
        n_of_n_taproot_public_key,
        input,
    )->Ok_0;
    let s = signed_result(
        operator_secret_key,
        operator_public_key,
        operator_winternitz_public_key,
        operator_taproot_public_key,
        n_of_n_taproot_public_key,
        input,
    )->Ok_0;
    lemma_witness_change_keeps_skeleton(m.tx, 0, s.tx.input[0].witness);
}

pub proof fn lemma_witness_change_keeps_skeleton(t: TransactionModel, index: int, w: Seq<Seq<u8>>)
    requires
        0 <= index < t.input.len(),
    ensures
        unsigned_skeleton(with_witness(t, index, w)) == unsigned_skeleton(t),
{
    assert(unsigned_skeleton(with_witness(t, index, w)).input =~= unsigned_skeleton(t).input);
}


impl KickOff2Transaction {
    /// Builds the transaction for `context`'s operator and signs its input.
    pub fn new(context: &OperatorContext, input_0: Input) -> (r: Result<Self, TxError>)
        ensures
            match signed_result(
                context.operator_secret_key@,
                context.operator_public_key@,
                context.operator_winternitz_public_key@,
                context.operator_taproot_public_key@,
                context.n_of_n_taproot_public_key@,
                input_0,
            ) {
                Ok(m) => r matches Ok(t) && t@ == m,
                Err(e) => r matches Err(f) && f == e,
            },
    {
        let mut this = match Self::new_for_validation(
            context.network,
            &context.operator_public_key,
            &context.operator_winternitz_public_key,
            &context.operator_taproot_public_key,
            &context.n_of_n_taproot_public_key,
            input_0,
        ) {
            Ok(t) => t,
            Err(e) => return Err(e),
        };
        match this.sign_input_0(context) {
            Ok(()) => Ok(this),
            Err(e) => Err(e),
        }
    }

    /// Builds the unsigned transaction from public keys alone.
    pub fn new_for_validation(
        network: Network,
        operator_public_key: &Vec<u8>,
        operator_winternitz_public_key: &Vec<u8>,
        operator_taproot_public_key: &[u8; 32],
        n_of_n_taproot_public_key: &[u8; 32],
        input_0: Input,
    ) -> (r: Result<Self, TxError>)
        ensures
            match validation_result(
                operator_public_key@,
                operator_winternitz_public_key@,
                operator_taproot_public_key@,
                n_of_n_taproot_public_key@,
                input_0,
            ) {
                Ok(m) => r matches Ok(t) && t@ == m,
                Err(e) => r matches Err(f) && f == e,
            },
            input_0.amount < min_input_amount() <==> r == Err::<Self, TxError>(
                TxError::AmountUnderflow,
            ),
            r matches Ok(t) ==> sum_values(t@.tx.output) + FEE_AMOUNT == input_0.amount && forall|
                k: int,
            |
                0 <= k < t@.tx.output.len() ==> #[trigger] t@.tx.output[k].value >= DUST_AMOUNT,
    {
        if input_0.amount < FEE_AMOUNT + 3 * DUST_AMOUNT {
            return Err(TxError::AmountUnderflow);
        }
        let connector_a = ConnectorA::new(
            network,
            operator_taproot_public_key,
            n_of_n_taproot_public_key,
        );
        let connector_3 = Connector3::new(network, operator_public_key);
        let connector_b = ConnectorB::new(
            network,
            n_of_n_taproot_public_key,
            operator_winternitz_public_key,
        );
        let script_3 = connector_3.generate_script_pubkey();
        let script_b = connector_b.generate_taproot_script_pubkey();
        let script_a = connector_a.generate_taproot_script_pubkey();
        let (script_3, script_b, script_a) = match (script_3, script_b, script_a) {
            (Ok(s3), Ok(sb), Ok(sa)) => (s3, sb, sa),
            _ => return Err(TxError::MalformedConnectorInput),
        };

        let input = TxIn {
            previous_output: input_0.outpoint,
            script_sig: Vec::new(),
            sequence: 0xffff_ffff,
            witness: Vec::new(),
        };
        assert(input.witness@.map_values(|w: Vec<u8>| w@) =~= Seq::<Seq<u8>>::empty());
        assert(input.script_sig@ =~= Seq::<u8>::empty());
        let total_output_amount = input_0.amount - FEE_AMOUNT;
        let prev_out = TxOut { value: input_0.amount, script_pubkey: copy_bytes(&script_3) };
        let prev_script = generate_pay_to_pubkey_script(operator_public_key.as_slice());
        let output_0 = TxOut { value: DUST_AMOUNT, script_pubkey: script_3 };
        let output_1 = TxOut { value: total_output_amount - 2 * DUST_AMOUNT, script_pubkey: script_b };
        let output_2 = TxOut { value: DUST_AMOUNT, script_pubkey: script_a };

        let r = KickOff2Transaction {
            tx: Transaction {
                version: 2,
                lock_time: 0,
                input: vec![input],
                output: vec![output_0, output_1, output_2],
            },
            prev_outs: vec![prev_out],
            prev_scripts: vec![prev_script],
        };
        let ghost m = kick_off_2_model(
            input_0,
            operator_public_key@,
            script_3@,
            script_b@,
            script_a@,
        );
        assert(r@.tx.input =~= m.tx.input);
        assert(r@.tx.output =~= m.tx.output);
        assert(r@.prev_outs =~= m.prev_outs);
        assert(r@.prev_scripts =~= m.prev_scripts);
        proof {
            lemma_amount_conservation(input_0, script_3@, script_b@, script_a@);
        }
        Ok(r)
    }

    fn sign_input_0(&mut self, context: &OperatorContext) -> (r: Result<(), TxError>)
        requires
            old(self)@.tx.input.len() >= 1,
            old(self)@.prev_outs.len() >= 1,
            old(self)@.prev_scripts.len() >= 1,
        ensures
            ({
                let m = old(self)@;
                if public_key_of_secret(context.operator_secret_key@) != Some(
                    context.operator_public_key@,
                ) {
                    r == Err::<(), TxError>(TxError::KeyMismatch) && final(self)@ == m
                } else {
                    match signed_p2wsh_input(
                        m.tx,
                        0,
                        m.prev_scripts[0],
                        m.prev_outs[0].value,
                        context.operator_secret_key@,
                    ) {
                        Ok(t) => r is Ok && final(self)@ == KickOff2Model { tx: t, ..m },
                        Err(e) => r == Err::<(), TxError>(e) && final(self)@ == m,
                    }
                }
            }),
    {
        let matches = match public_key_from_secret(&context.operator_secret_key) {
            Some(k) => bytes_equal(&k, &context.operator_public_key),
            None => false,
        };
        if !matches {
            return Err(TxError::KeyMismatch);
        }
        let input_index: usize = 0;
        pre_sign_p2wsh_input(
            &mut self.tx,
            &self.prev_outs,
            &self.prev_scripts,
            input_index,
            &context.operator_secret_key,
        )
    }

    /// The transaction as it stands, ready for broadcast once fully signed.
    pub fn finalize(&self) -> (r: Transaction)
        ensures
            r@ == self@.tx,
    {
        self.tx.copy()
    }

    pub fn tx(&self) -> (r: &Transaction)
        ensures
            r@ == self@.tx,
    {
        &self.tx
    }

    pub fn prev_outs(&self) -> (r: &Vec<TxOut>)
        ensures
            r@.map_values(|o: TxOut| o@) == self@.prev_outs,
    {
        &self.prev_outs
    }

    pub fn prev_scripts(&self) -> (r: &Vec<Vec<u8>>)
        ensures
            r@.map_values(|s: Vec<u8>| s@) == self@.prev_scripts,
    {
        &self.prev_scripts
    }
}

/// Whether two byte strings are equal.
pub fn bytes_equal(a: &Vec<u8>, b: &Vec<u8>) -> (r: bool)
    ensures
        r == (a@ == b@),
{
    if a.len() != b.len() {
        return false;
    }
    let mut i: usize = 0;
    while i < a.len()
        invariant
            a@.len() == b@.len(),
            i <= a@.len(),
            forall|k: int| 0 <= k < i ==> a@[k] == b@[k],
        decreases a@.len() - i,
    {
        if a[i] != b[i] {
            return false;
        }
        i = i + 1;
    }
    assert(a@ =~= b@);
    true
}

/// `b` is the wire form of `m`, and `m` has an input.
pub open spec fn wire_of(b: Seq<u8>, m: KickOff2Model) -> bool {
    m.tx.input.len() > 0 && encode_kick_off_2(m) == b
}

/// Where each part of the wire form of `m` starts.
pub open spec fn wire_offsets(m: KickOff2Model) -> (int, int, int, int) {
    let t = encode_transaction(m.tx).len() as int;
    let c1 = compact_size(m.prev_outs.len()).len() as int;
    let o = encode_txouts(m.prev_outs).len() as int;
    let c2 = compact_size(m.prev_scripts.len()).len() as int;
    (t, t + c1, t + c1 + o, t + c1 + o + c2)
}

/// The parts of the wire form, each at its offset, in the shape the readers expect.
proof fn lemma_wire_parts(b: Seq<u8>, m: KickOff2Model)
    requires
        wire_of(b, m),
    ensures
        transaction_at(b, 0, m.tx),
        bytes_at(b, wire_offsets(m).0, compact_size(m.prev_outs.len())),
        bytes_at(b, wire_offsets(m).1, encode_txouts(m.prev_outs)),
        bytes_at(b, wire_offsets(m).2, compact_size(m.prev_scripts.len())),
        bytes_at(b, wire_offsets(m).3, encode_items(m.prev_scripts)),
        m.prev_outs.len() <= b.len(),
        m.prev_scripts.len() <= b.len(),
{
    reveal(bytes_at);
    let t = encode_transaction(m.tx);
    let c1 = compact_size(m.prev_outs.len());
    let o = encode_txouts(m.prev_outs);
    let c2 = compact_size(m.prev_scripts.len());
    let i = encode_items(m.prev_scripts);
    assert(bytes_at(b, 0, b)) by {
        assert(b.subrange(0, b.len() as int) =~= b);
    }
    lemma_bytes_at_concat(b, 0, t + c1 + o + c2, i);
    lemma_bytes_at_concat(b, 0, t + c1 + o, c2);
    lemma_bytes_at_concat(b, 0, t + c1, o);
    lemma_bytes_at_concat(b, 0, t, c1);
    assert forall|x: TxOutModel| #[trigger] txout_encoder()(x).len() >= 1 by {
        assert(le_u64(x.value as nat).len() == 8);
    }
    lemma_encode_all_len(m.prev_outs, txout_encoder());
    lemma_items_len(m.prev_scripts);
}

impl KickOff2Transaction {
    /// The wire form, for handing the transaction and its spent-output metadata to
    /// another participant.
    pub fn serialize(&self) -> (r: Vec<u8>)
        ensures
            r@ == encode_kick_off_2(self@),
    {
        let mut out = serialize_transaction(&self.tx);
        write_compact_size(&mut out, self.prev_outs.len() as u64);
        write_txouts(&mut out, &self.prev_outs);
        write_compact_size(&mut out, self.prev_scripts.len() as u64);
        write_items(&mut out, &self.prev_scripts);
        out
    }

    /// Reads the wire form back. Whatever `serialize` wrote for a transaction with at
    /// least one input comes back as the same transaction and metadata.
    pub fn deserialize(b: &Vec<u8>) -> (r: Option<Self>)
        ensures
            forall|m: KickOff2Model| #[trigger] wire_of(b@, m) ==> (r matches Some(k) && k@ == m),
    {
        let len = b.len();
        proof {
            assert forall|m: KickOff2Model| #[trigger] wire_of(b@, m) implies transaction_at(b@, 0, m.tx)
                by {
                lemma_wire_parts(b@, m);
                assert(b@.len() == len);
            }
        }
        let (tx, at1) = match read_transaction(b, 0) {
            Some(x) => x,
            None => return None,
        };
        proof {
            assert forall|m: KickOff2Model| #[trigger] wire_of(b@, m) implies bytes_at(
                b@,
                at1 as int,
                compact_size((m.prev_outs.len() as u64) as nat),
            ) by {
                lemma_wire_parts(b@, m);
                assert(b@.len() == len);
            }
        }
        let (n_outs, at2) = match read_compact_size(b, at1) {
            Some(x) => x,
            None => return None,
        };
        proof {
            assert forall|m: KickOff2Model| #[trigger] wire_of(b@, m) implies n_outs == m.prev_outs.len()
                && bytes_at(b@, at2 as int, encode_txouts(m.prev_outs)) by {
                lemma_wire_parts(b@, m);
                assert(b@.len() == len);
            }
        }
        let (prev_outs, at3) = match read_txouts(b, at2, n_outs) {
            Some(x) => x,
            None => return None,
        };
        proof {
            assert forall|m: KickOff2Model| #[trigger] wire_of(b@, m) implies bytes_at(
                b@,
                at3 as int,
                compact_size((m.prev_scripts.len() as u64) as nat),
            ) by {
                lemma_wire_parts(b@, m);
                assert(b@.len() == len);
            }
        }
        let (n_scripts, at4) = match read_compact_size(b, at3) {
            Some(x) => x,
            None => return None,
        };
        proof {
            assert forall|m: KickOff2Model| #[trigger] wire_of(b@, m) implies n_scripts
                == m.prev_scripts.len() && bytes_at(b@, at4 as int, encode_items(m.prev_scripts)) by {
                lemma_wire_parts(b@, m);
                assert(b@.len() == len);
            }
        }
        let (prev_scripts, _at5) = match read_items(b, at4, n_scripts) {
            Some(x) => x,
            None => return None,
        };
        Some(KickOff2Transaction { tx, prev_outs, prev_scripts })
    }
}

/// Whether two inputs agree on everything but their witnesses.
fn same_unsigned_input(a: &TxIn, b: &TxIn) -> (r: bool)
    ensures
        r == (without_witness(a@) == without_witness(b@)),
{
    let mut i: usize = 0;
    while i < 32
        invariant
            i <= 32,
            forall|k: int| 0 <= k < i ==> a.previous_output.txid@[k] == b.previous_output.txid@[k],
        decreases 32 - i,
    {
        if a.previous_output.txid[i] != b.previous_output.txid[i] {
            assert(a.previous_output.txid@[i as int] != b.previous_output.txid@[i as int]);
            return false;
        }
        i = i + 1;
    }
    assert(a.previous_output.txid =~= b.previous_output.txid);
    a.previous_output.vout == b.previous_output.vout && bytes_equal(&a.script_sig, &b.script_sig)
        && a.sequence == b.sequence
}

fn same_outputs(a: &Vec<TxOut>, b: &Vec<TxOut>) -> (r: bool)
    ensures
        r == (a@.map_values(|o: TxOut| o@) == b@.map_values(|o: TxOut| o@)),
{
    if a.len() != b.len() {
        assert(a@.map_values(|o: TxOut| o@).len() != b@.map_values(|o: TxOut| o@).len());
        return false;
    }
    let mut i: usize = 0;
    while i < a.len()
        invariant
            i <= a@.len(),
            a@.len() == b@.len(),
            forall|k: int| 0 <= k < i ==> a@[k]@ == b@[k]@,
        decreases a@.len() - i,
    {
        if a[i].value != b[i].value || !bytes_equal(&a[i].script_pubkey, &b[i].script_pubkey) {
            assert(a@.map_values(|o: TxOut| o@)[i as int] != b@.map_values(|o: TxOut| o@)[i as int]);
            return false;
        }
        i = i + 1;
    }
    assert(a@.map_values(|o: TxOut| o@) =~= b@.map_values(|o: TxOut| o@));
    true
}

fn same_scripts(a: &Vec<Vec<u8>>, b: &Vec<Vec<u8>>) -> (r: bool)
    ensures
        r == (a@.map_values(|s: Vec<u8>| s@) == b@.map_values(|s: Vec<u8>| s@)),
{
    if a.len() != b.len() {
        assert(a@.map_values(|s: Vec<u8>| s@).len() != b@.map_values(|s: Vec<u8>| s@).len());
        return false;
    }
    let mut i: usize = 0;
    while i < a.len()
        invariant
            i <= a@.len(),
            a@.len() == b@.len(),
            forall|k: int| 0 <= k < i ==> a@[k]@ == b@[k]@,
        decreases a@.len() - i,
    {
        if !bytes_equal(&a[i], &b[i]) {
            assert(a@.map_values(|s: Vec<u8>| s@)[i as int] != b@.map_values(|s: Vec<u8>| s@)[i as int]);
            return false;
        }
        i = i + 1;
    }
    assert(a@.map_values(|s: Vec<u8>| s@) =~= b@.map_values(|s: Vec<u8>| s@));
    true
}

impl KickOff2Transaction {
    /// Whether two participants built the same transaction: equal unsigned skeletons
    /// and equal spent-output metadata, whatever signatures each has attached.
    pub fn same_unsigned(&self, other: &Self) -> (r: bool)
        ensures
            r == (unsigned_skeleton(self@.tx) == unsigned_skeleton(other@.tx) && self@.prev_outs
                == other@.prev_outs && self@.prev_scripts == other@.prev_scripts),
    {
        let a = &self.tx;
        let b = &other.tx;
        let ghost sa = unsigned_skeleton(a@);
        let ghost sb = unsigned_skeleton(b@);
        if a.version != b.version || a.lock_time != b.lock_time || a.input.len() != b.input.len() {
            assert(sa.input.len() != sb.input.len() || sa.version != sb.version || sa.lock_time
                != sb.lock_time);
            assert(sa != sb);
            return false;
        }
        let mut i: usize = 0;
        while i < a.input.len()
            invariant
                i <= a.input@.len(),
                a.input@.len() == b.input@.len(),
                sa == unsigned_skeleton(a@),
                sb == unsigned_skeleton(b@),
                a@ == self@.tx,
                b@ == other@.tx,
                forall|k: int| 0 <= k < i ==> without_witness(a.input@[k]@) == without_witness(b.input@[k]@),
            decreases a.input@.len() - i,
        {
            if !same_unsigned_input(&a.input[i], &b.input[i]) {
                assert(sa.input[i as int] == without_witness(a.input@[i as int]@));
                assert(sb.input[i as int] == without_witness(b.input@[i as int]@));
                assert(sa.input[i as int] != sb.input[i as int]);
                assert(sa != sb);
                return false;
            }
            i = i + 1;
        }
        assert forall|k: int| 0 <= k < sa.input.len() implies sa.input[k] == sb.input[k] by {
            assert(sa.input[k] == without_witness(a.input@[k]@));
            assert(sb.input[k] == without_witness(b.input@[k]@));
        }
        assert(sa.input =~= sb.input);
        let same_out = same_outputs(&a.output, &b.output);
        let same_prev = same_outputs(&self.prev_outs, &other.prev_outs);
        let same_sc = same_scripts(&self.prev_scripts, &other.prev_scripts);
        assert(sa.output == a@.output && sb.output == b@.output);
        assert(same_out == (sa == sb));
        assert(same_prev == (self@.prev_outs == other@.prev_outs));
        assert(same_sc == (self@.prev_scripts == other@.prev_scripts));
        same_out && same_prev && same_sc
    }
}

} // verus!
