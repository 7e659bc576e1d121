use vstd::prelude::*;

use crate::types::{OutPoint, Transaction, TransactionModel, TxIn, TxInModel, TxOut, TxOutModel};

verus! {

pub open spec fn le_u16(v: nat) -> Seq<u8> {
    seq![(v % 256) as u8, ((v / 256) % 256) as u8]
}

pub open spec fn le_u32(v: nat) -> Seq<u8> {
    seq![
        (v % 256) as u8,
        ((v / 0x100) % 256) as u8,
        ((v / 0x1_0000) % 256) as u8,
        ((v / 0x100_0000) % 256) as u8,
    ]
}

pub open spec fn le_u64(v: nat) -> Seq<u8> {
    le_u32(v % 0x1_0000_0000) + le_u32(v / 0x1_0000_0000)
}

/// Bitcoin's variable-length encoding of a count.
#[verifier::opaque]
pub open spec fn compact_size(n: nat) -> Seq<u8> {
    if n < 0xfd {
        seq![n as u8]
    } else if n <= 0xffff {
        seq![0xfdu8] + le_u16(n)
    } else if n <= 0xffff_ffff {
        seq![0xfeu8] + le_u32(n)
    } else {
        seq![0xffu8] + le_u64(n)
    }
}

/// A byte string preceded by its length.
pub open spec fn encode_bytes(b: Seq<u8>) -> Seq<u8> {
    compact_size(b.len()) + b
}

pub open spec fn encode_outpoint(o: OutPoint) -> Seq<u8> {
    o.txid@ + le_u32(o.vout as nat)
}

pub open spec fn encode_txin(i: TxInModel) -> Seq<u8> {
    encode_outpoint(i.previous_output) + encode_bytes(i.script_sig) + le_u32(i.sequence as nat)
}

pub open spec fn encode_txout(o: TxOutModel) -> Seq<u8> {
    le_u64(o.value as nat) + encode_bytes(o.script_pubkey)
}

/// The encodings of all items of `s`, one after another.
pub open spec fn encode_all<A>(s: Seq<A>, f: spec_fn(A) -> Seq<u8>) -> Seq<u8>
    decreases s.len(),
{
    if s.len() == 0 {
        seq![]
    } else {
        encode_all(s.drop_last(), f) + f(s.last())
    }
}

pub proof fn lemma_encode_all_split<A>(s: Seq<A>, f: spec_fn(A) -> Seq<u8>, j: int)
    requires
        0 <= j <= s.len(),
    ensures
        encode_all(s, f) == encode_all(s.subrange(0, j), f) + encode_all(
            s.subrange(j, s.len() as int),
            f,
        ),
    decreases s.len(),
{
    if j == s.len() {
        assert(s.subrange(0, j) =~= s);
        assert(s.subrange(j, s.len() as int) =~= Seq::<A>::empty());
        assert(encode_all(s.subrange(0, j), f) + encode_all(Seq::<A>::empty(), f) =~= encode_all(s, f));
    } else {
        lemma_encode_all_split(s.drop_last(), f, j);
        assert(s.drop_last().subrange(0, j) =~= s.subrange(0, j));
        let t = s.subrange(j, s.len() as int);
        assert(t.drop_last() =~= s.drop_last().subrange(j, s.drop_last().len() as int));
        assert(t.last() == s.last());
        assert(encode_all(s, f) =~= encode_all(s.subrange(0, j), f) + encode_all(t, f));
    }
}

pub proof fn lemma_encode_all_single<A>(x: A, f: spec_fn(A) -> Seq<u8>)
    ensures
        encode_all(seq![x], f) == f(x),
{
    let s = seq![x];
    assert(s.drop_last() =~= Seq::<A>::empty());
    assert(encode_all(s.drop_last(), f) == Seq::<u8>::empty());
    assert(s.last() == x);
    assert(encode_all(s, f) == encode_all(s.drop_last(), f) + f(s.last()));
    assert(encode_all(s, f) =~= f(x));
}

pub open spec fn txout_encoder() -> spec_fn(TxOutModel) -> Seq<u8> {
    |o: TxOutModel| encode_txout(o)
}

pub open spec fn txin_encoder() -> spec_fn(TxInModel) -> Seq<u8> {
    |i: TxInModel| encode_txin(i)
}

pub open spec fn item_encoder() -> spec_fn(Seq<u8>) -> Seq<u8> {
    |b: Seq<u8>| encode_bytes(b)
}

pub open spec fn witness_encoder() -> spec_fn(TxInModel) -> Seq<u8> {
    |i: TxInModel| encode_witness(i.witness)
}

/// The witness stack of one input: its item count, then each item.
pub open spec fn encode_witness(w: Seq<Seq<u8>>) -> Seq<u8> {
    compact_size(w.len()) + encode_items(w)
}

pub open spec fn encode_txouts(s: Seq<TxOutModel>) -> Seq<u8> {
    encode_all(s, txout_encoder())
}

pub open spec fn encode_txins(s: Seq<TxInModel>) -> Seq<u8> {
    encode_all(s, txin_encoder())
}

pub open spec fn encode_items(s: Seq<Seq<u8>>) -> Seq<u8> {
    encode_all(s, item_encoder())
}

pub open spec fn encode_witnesses(s: Seq<TxInModel>) -> Seq<u8> {
    encode_all(s, witness_encoder())
}

pub open spec fn has_witness(t: TransactionModel) -> bool {
    exists|k: int| 0 <= k < t.input.len() && #[trigger] t.input[k].witness.len() > 0
}

/// The consensus encoding of a transaction: without witness data where no input has
/// any, else in the segwit layout with marker and flag.
#[verifier::opaque]
pub open spec fn encode_transaction(t: TransactionModel) -> Seq<u8> {
    if has_witness(t) {
        le_u32(t.version as nat) + seq![0u8, 1u8] + compact_size(t.input.len()) + encode_txins(
            t.input,
        ) + compact_size(t.output.len()) + encode_txouts(t.output) + encode_witnesses(t.input)
            + le_u32(t.lock_time as nat)
    } else {
        le_u32(t.version as nat) + compact_size(t.input.len()) + encode_txins(t.input)
            + compact_size(t.output.len()) + encode_txouts(t.output) + le_u32(t.lock_time as nat)
    }
}

pub fn write_u32(out: &mut Vec<u8>, v: u32)
    ensures
        final(out)@ == old(out)@ + le_u32(v as nat),
{
    out.push((v % 256) as u8);
    out.push(((v / 0x100) % 256) as u8);
    out.push(((v / 0x1_0000) % 256) as u8);
    out.push(((v / 0x100_0000) % 256) as u8);
    assert(out@ =~= old(out)@ + le_u32(v as nat));
}

pub fn write_u64(out: &mut Vec<u8>, v: u64)
    ensures
        final(out)@ == old(out)@ + le_u64(v as nat),
{
    write_u32(out, (v % 0x1_0000_0000) as u32);
    write_u32(out, (v / 0x1_0000_0000) as u32);
    assert(out@ =~= old(out)@ + le_u64(v as nat));
}

pub fn write_compact_size(out: &mut Vec<u8>, n: u64)
    ensures
        final(out)@ == old(out)@ + compact_size(n as nat),
{
    if n < 0xfd {
        out.push(n as u8);
    } else if n <= 0xffff {
        out.push(0xfd);
        out.push((n % 256) as u8);
        out.push(((n / 256) % 256) as u8);
    } else if n <= 0xffff_ffff {
        out.push(0xfe);
        write_u32(out, n as u32);
    } else {
        out.push(0xff);
        write_u64(out, n);
    }
    reveal(compact_size);
    assert(out@ =~= old(out)@ + compact_size(n as nat));
}

pub fn write_raw(out: &mut Vec<u8>, b: &[u8])
    ensures
        final(out)@ == old(out)@ + b@,
{
    let mut i: usize = 0;
    while i < b.len()
        invariant
            i <= b@.len(),
            out@ == old(out)@ + b@.subrange(0, i as int),
        decreases b@.len() - i,
    {
        out.push(b[i]);
        i = i + 1;
        assert(out@ =~= old(out)@ + b@.subrange(0, i as int));
    }
    assert(b@.subrange(0, b@.len() as int) =~= b@);
}

pub fn write_bytes(out: &mut Vec<u8>, b: &Vec<u8>)
    ensures
        final(out)@ == old(out)@ + encode_bytes(b@),
{
    write_compact_size(out, b.len() as u64);
    write_raw(out, b.as_slice());
    assert(out@ =~= old(out)@ + encode_bytes(b@));
}

pub fn write_outpoint(out: &mut Vec<u8>, o: &OutPoint)
    ensures
        final(out)@ == old(out)@ + encode_outpoint(*o),
{
    write_raw(out, o.txid.as_slice());
    write_u32(out, o.vout);
    assert(out@ =~= old(out)@ + encode_outpoint(*o));
}

pub fn write_txin(out: &mut Vec<u8>, i: &TxIn)
    ensures
        final(out)@ == old(out)@ + encode_txin(i@),
{
    write_outpoint(out, &i.previous_output);
    write_bytes(out, &i.script_sig);
    write_u32(out, i.sequence);
    assert(out@ =~= old(out)@ + encode_txin(i@));
}

pub fn write_txout(out: &mut Vec<u8>, o: &TxOut)
    ensures
        final(out)@ == old(out)@ + encode_txout(o@),
{
    write_u64(out, o.value);
    write_bytes(out, &o.script_pubkey);
    assert(out@ =~= old(out)@ + encode_txout(o@));
}

pub fn write_txouts(out: &mut Vec<u8>, s: &Vec<TxOut>)
    ensures
        final(out)@ == old(out)@ + encode_txouts(s@.map_values(|o: TxOut| o@)),
{
    let ghost m = s@.map_values(|o: TxOut| o@);
    let mut k: usize = 0;
    while k < s.len()
        invariant
            k <= s@.len(),
            m == s@.map_values(|o: TxOut| o@),
            out@ == old(out)@ + encode_txouts(m.subrange(0, k as int)),
        decreases s@.len() - k,
    {
        write_txout(out, &s[k]);
        k = k + 1;
        assert(m.subrange(0, k as int).drop_last() =~= m.subrange(0, k - 1));
        assert(out@ =~= old(out)@ + encode_txouts(m.subrange(0, k as int)));
    }
    assert(m.subrange(0, s@.len() as int) =~= m);
}

pub fn write_txins(out: &mut Vec<u8>, s: &Vec<TxIn>)
    ensures
        final(out)@ == old(out)@ + encode_txins(s@.map_values(|i: TxIn| i@)),
{
    let ghost m = s@.map_values(|i: TxIn| i@);
    let mut k: usize = 0;
    while k < s.len()
        invariant
            k <= s@.len(),
            m == s@.map_values(|i: TxIn| i@),
            out@ == old(out)@ + encode_txins(m.subrange(0, k as int)),
        decreases s@.len() - k,
    {
        write_txin(out, &s[k]);
        k = k + 1;
        assert(m.subrange(0, k as int).drop_last() =~= m.subrange(0, k - 1));
        assert(out@ =~= old(out)@ + encode_txins(m.subrange(0, k as int)));
    }
    assert(m.subrange(0, s@.len() as int) =~= m);
}

pub fn write_items(out: &mut Vec<u8>, s: &Vec<Vec<u8>>)
    ensures
        final(out)@ == old(out)@ + encode_items(s@.map_values(|b: Vec<u8>| b@)),
{
    let ghost m = s@.map_values(|b: Vec<u8>| b@);
    let mut k: usize = 0;
    while k < s.len()
        invariant
            k <= s@.len(),
            m == s@.map_values(|b: Vec<u8>| b@),
            out@ == old(out)@ + encode_items(m.subrange(0, k as int)),
        decreases s@.len() - k,
    {
        write_bytes(out, &s[k]);
        k = k + 1;
        assert(m.subrange(0, k as int).drop_last() =~= m.subrange(0, k - 1));
        assert(out@ =~= old(out)@ + encode_items(m.subrange(0, k as int)));
    }
    assert(m.subrange(0, s@.len() as int) =~= m);
}

pub fn write_witnesses(out: &mut Vec<u8>, s: &Vec<TxIn>)
    ensures
        final(out)@ == old(out)@ + encode_witnesses(s@.map_values(|i: TxIn| i@)),
{
    let ghost m = s@.map_values(|i: TxIn| i@);
    let mut k: usize = 0;
    while k < s.len()
        invariant
            k <= s@.len(),
            m == s@.map_values(|i: TxIn| i@),
            out@ == old(out)@ + encode_witnesses(m.subrange(0, k as int)),
        decreases s@.len() - k,
    {
        write_compact_size(out, s[k].witness.len() as u64);
        write_items(out, &s[k].witness);
        k = k + 1;
        assert(m.subrange(0, k as int).drop_last() =~= m.subrange(0, k - 1));
        assert(out@ =~= old(out)@ + encode_witnesses(m.subrange(0, k as int)));
    }
    assert(m.subrange(0, s@.len() as int) =~= m);
}

/// Whether any input carries witness data.
pub fn any_witness(t: &Transaction) -> (r: bool)
    ensures
        r == has_witness(t@),
{
    let mut k: usize = 0;
    while k < t.input.len()
        invariant
            k <= t.input@.len(),
            forall|j: int| 0 <= j < k ==> t.input@[j].witness@.len() == 0,
        decreases t.input@.len() - k,
    {
        if t.input[k].witness.len() > 0 {
            assert(t@.input[k as int].witness.len() > 0);
            return true;
        }
        k = k + 1;
    }
    assert forall|j: int| 0 <= j < t@.input.len() implies #[trigger] t@.input[j].witness.len()
        == 0 by {
        assert(t@.input[j].witness.len() == t.input@[j].witness@.len());
    }
    false
}

/// The consensus encoding of a transaction.
pub fn serialize_transaction(t: &Transaction) -> (r: Vec<u8>)
    ensures
        r@ == encode_transaction(t@),
{
    let mut out: Vec<u8> = Vec::new();
    let segwit = any_witness(t);
    write_u32(&mut out, t.version);
    if segwit {
        out.push(0);
        out.push(1);
    }
    write_compact_size(&mut out, t.input.len() as u64);
    write_txins(&mut out, &t.input);
    write_compact_size(&mut out, t.output.len() as u64);
    write_txouts(&mut out, &t.output);
    if segwit {
        write_witnesses(&mut out, &t.input);
    }
    write_u32(&mut out, t.lock_time);
    reveal(encode_transaction);
    assert(out@ =~= encode_transaction(t@));
    out
}

} // verus!
