use vstd::prelude::*;

use crate::encode::{
    compact_size, encode_all, encode_transaction, has_witness, encode_bytes, encode_items, encode_outpoint, encode_txin,
    encode_txins, encode_txout, encode_txouts, encode_witness, encode_witnesses, item_encoder,
    le_u32, le_u64, lemma_encode_all_single, lemma_encode_all_split, txin_encoder,
    txout_encoder, witness_encoder,
};
use crate::types::{
    copy_bytes, copy_stack, OutPoint, Transaction, TransactionModel, TxIn, TxInModel, TxOut,
    TxOutModel,
};

verus! {

/// `b` holds `e` from position `pos` on.
#[verifier::opaque]
pub open spec fn bytes_at(b: Seq<u8>, pos: int, e: Seq<u8>) -> bool {
    0 <= pos && pos + e.len() <= b.len() && b.subrange(pos, pos + e.len()) == e
}

pub proof fn lemma_bytes_at_part(b: Seq<u8>, pos: int, e: Seq<u8>, i: int, j: int)
    requires
        bytes_at(b, pos, e),
        0 <= i <= j <= e.len(),
    ensures
        bytes_at(b, pos + i, e.subrange(i, j)),
{
    reveal(bytes_at);
    assert(b.subrange(pos + i, pos + j) =~= b.subrange(pos, pos + e.len()).subrange(i, j));
}

proof fn lemma_u16_value(v: u16, b0: u16, b1: u16)
    requires
        b0 == v % 256,
        b1 == (v / 256) % 256,
    ensures
        v == b0 + b1 * 256,
{
    reveal(bytes_at);
    assert(v == b0 + b1 * 256) by (bit_vector)
        requires
            b0 == v % 256,
            b1 == (v / 256) % 256,
    ;
}

proof fn lemma_u32_value(v: u32, b0: u32, b1: u32, b2: u32, b3: u32)
    requires
        b0 == v % 256,
        b1 == (v / 0x100) % 256,
        b2 == (v / 0x1_0000) % 256,
        b3 == (v / 0x100_0000) % 256,
    ensures
        v == b0 + b1 * 0x100 + b2 * 0x1_0000 + b3 * 0x100_0000,
{
    reveal(bytes_at);
    assert(v == b0 + b1 * 0x100 + b2 * 0x1_0000 + b3 * 0x100_0000) by (bit_vector)
        requires
            b0 == v % 256,
            b1 == (v / 0x100) % 256,
            b2 == (v / 0x1_0000) % 256,
            b3 == (v / 0x100_0000) % 256,
    ;
}

pub(crate) fn read_u32(b: &Vec<u8>, pos: usize) -> (r: Option<(u32, usize)>)
    ensures
        forall|v: u32|
            #[trigger] bytes_at(b@, pos as int, le_u32(v as nat)) ==> r == Some((v, (pos + 4) as usize)),
{
    proof {
        reveal(bytes_at);
    }
    proof {
        }
    if pos > b.len() || b.len() - pos < 4 {
        return None;
    }
    let b0 = b[pos] as u32;
    let b1 = b[pos + 1] as u32;
    let b2 = b[pos + 2] as u32;
    let b3 = b[pos + 3] as u32;
    let w = b0 + b1 * 0x100 + b2 * 0x1_0000 + b3 * 0x100_0000;
    assert forall|v: u32| #[trigger] bytes_at(b@, pos as int, le_u32(v as nat)) implies w == v by {
        let e = le_u32(v as nat);
        assert(b@[pos as int] == b@.subrange(pos as int, pos + 4)[0]);
        assert(b@[pos + 1] == b@.subrange(pos as int, pos + 4)[1]);
        assert(b@[pos + 2] == b@.subrange(pos as int, pos + 4)[2]);
        assert(b@[pos + 3] == b@.subrange(pos as int, pos + 4)[3]);
        lemma_u32_value(v, b0, b1, b2, b3);
    }
    Some((w, pos + 4))
}

proof fn lemma_u64_parts(b: Seq<u8>, pos: int, v: u64)
    requires
        bytes_at(b, pos, le_u64(v as nat)),
    ensures
        bytes_at(b, pos, le_u32(((v % 0x1_0000_0000) as u32) as nat)),
        bytes_at(b, pos + 4, le_u32(((v / 0x1_0000_0000) as u32) as nat)),
        v == (v % 0x1_0000_0000) + (v / 0x1_0000_0000) * 0x1_0000_0000,
{
    reveal(bytes_at);
    let e = le_u64(v as nat);
    let lv = (v % 0x1_0000_0000) as u32;
    let hv = (v / 0x1_0000_0000) as u32;
    assert(lv as nat == (v as nat) % 0x1_0000_0000);
    assert(hv as nat == (v as nat) / 0x1_0000_0000);
    lemma_bytes_at_part(b, pos, e, 0, 4);
    lemma_bytes_at_part(b, pos, e, 4, 8);
    assert(e.subrange(0, 4) =~= le_u32(lv as nat));
    assert(e.subrange(4, 8) =~= le_u32(hv as nat));
    assert(v == (v % 0x1_0000_0000) + (v / 0x1_0000_0000) * 0x1_0000_0000) by (nonlinear_arith);
}

pub(crate) fn read_u64(b: &Vec<u8>, pos: usize) -> (r: Option<(u64, usize)>)
    ensures
        forall|v: u64|
            #[trigger] bytes_at(b@, pos as int, le_u64(v as nat)) ==> r == Some((v, (pos + 8) as usize)),
{
    proof {
        reveal(bytes_at);
    }
    let len = b.len();
    let r1 = read_u32(b, pos);
    if r1.is_none() {
        assert forall|v: u64| #[trigger] bytes_at(b@, pos as int, le_u64(v as nat)) implies false by {
            lemma_u64_parts(b@, pos as int, v);
            let lv = (v % 0x1_0000_0000) as u32;
            assert(bytes_at(b@, pos as int, le_u32(lv as nat)));
        }
        return None;
    }
    let (lo, p) = r1.unwrap();
    let r2 = read_u32(b, p);
    if r2.is_none() {
        assert forall|v: u64| #[trigger] bytes_at(b@, pos as int, le_u64(v as nat)) implies false by {
            lemma_u64_parts(b@, pos as int, v);
            let lv = (v % 0x1_0000_0000) as u32;
            let hv = (v / 0x1_0000_0000) as u32;
            assert(bytes_at(b@, pos as int, le_u32(lv as nat)));
            assert(b@.len() == len);
            assert(p == pos + 4);
            assert(bytes_at(b@, p as int, le_u32(hv as nat)));
        }
        return None;
    }
    let (hi, q) = r2.unwrap();
    let w = lo as u64 + (hi as u64) * 0x1_0000_0000;
    assert forall|v: u64| #[trigger] bytes_at(b@, pos as int, le_u64(v as nat)) implies w == v && q
        == pos + 8 by {
        lemma_u64_parts(b@, pos as int, v);
        let lv = (v % 0x1_0000_0000) as u32;
        let hv = (v / 0x1_0000_0000) as u32;
        assert(bytes_at(b@, pos as int, le_u32(lv as nat)));
        assert(r1 == Some((lv, (pos + 4) as usize)));
        assert(b@.len() == len);
        assert(p == pos + 4);
        assert(bytes_at(b@, p as int, le_u32(hv as nat)));
        assert(r2 == Some((hv, (p + 4) as usize)));
    }
    Some((w, q))
}

pub(crate) fn read_compact_size(b: &Vec<u8>, pos: usize) -> (r: Option<(u64, usize)>)
    ensures
        forall|n: u64|
            #[trigger] bytes_at(b@, pos as int, compact_size(n as nat)) ==> r == Some(
                (n, (pos + compact_size(n as nat).len()) as usize),
            ),
{
    proof {
        reveal(bytes_at);
    }
    proof {
            reveal(compact_size);
    }
    if pos >= b.len() {
        return None;
    }
    let c = b[pos];
    if c < 0xfd {
        assert forall|n: u64| #[trigger] bytes_at(b@, pos as int, compact_size(n as nat)) implies n
            == c as u64 && compact_size(n as nat).len() == 1 by {
            assert(b@[pos as int] == b@.subrange(pos as int, pos + compact_size(n as nat).len())[0]);
        }
        Some((c as u64, pos + 1))
    } else if c == 0xfd {
        if b.len() - pos < 3 {
            assert forall|n: u64| #[trigger]
                bytes_at(b@, pos as int, compact_size(n as nat)) implies false by {
                assert(b@[pos as int] == b@.subrange(pos as int, pos + compact_size(n as nat).len())[0]);
            }
            return None;
        }
        let b0 = b[pos + 1] as u16;
        let b1 = b[pos + 2] as u16;
        let w = b0 + b1 * 256;
        assert forall|n: u64| #[trigger] bytes_at(b@, pos as int, compact_size(n as nat)) implies n
            == w as u64 && compact_size(n as nat).len() == 3 by {
            let e = compact_size(n as nat);
            assert(b@[pos as int] == b@.subrange(pos as int, pos + e.len())[0]);
            assert(0xfd <= n <= 0xffff);
            assert(b@[pos + 1] == b@.subrange(pos as int, pos + e.len())[1]);
            assert(b@[pos + 2] == b@.subrange(pos as int, pos + e.len())[2]);
            lemma_u16_value(n as u16, b0, b1);
        }
        Some((w as u64, pos + 3))
    } else if c == 0xfe {
        let (w, p) = match read_u32(b, pos + 1) {
            Some(x) => x,
            None => {
                assert forall|n: u64| #[trigger]
                    bytes_at(b@, pos as int, compact_size(n as nat)) implies false by {
                    let e = compact_size(n as nat);
                    assert(b@[pos as int] == b@.subrange(pos as int, pos + e.len())[0]);
                    lemma_bytes_at_part(b@, pos as int, e, 1, 5);
                    assert(e.subrange(1, 5) =~= le_u32(n as nat));
                    assert(bytes_at(b@, pos + 1, le_u32((n as u32) as nat)));
                }
                return None;
            },
        };
        assert forall|n: u64| #[trigger] bytes_at(b@, pos as int, compact_size(n as nat)) implies n
            == w as u64 && compact_size(n as nat).len() == 5 && p == pos + 5 by {
            let e = compact_size(n as nat);
            assert(b@[pos as int] == b@.subrange(pos as int, pos + e.len())[0]);
            lemma_bytes_at_part(b@, pos as int, e, 1, 5);
            assert(e.subrange(1, 5) =~= le_u32(n as nat));
            assert(bytes_at(b@, pos + 1, le_u32((n as u32) as nat)));
        }
        Some((w as u64, p))
    } else {
        let (w, p) = match read_u64(b, pos + 1) {
            Some(x) => x,
            None => {
                assert forall|n: u64| #[trigger]
                    bytes_at(b@, pos as int, compact_size(n as nat)) implies false by {
                    let e = compact_size(n as nat);
                    assert(b@[pos as int] == b@.subrange(pos as int, pos + e.len())[0]);
                    lemma_bytes_at_part(b@, pos as int, e, 1, 9);
                    assert(e.subrange(1, 9) =~= le_u64(n as nat));
                    assert(bytes_at(b@, pos + 1, le_u64(n as nat)));
                }
                return None;
            },
        };
        assert forall|n: u64| #[trigger] bytes_at(b@, pos as int, compact_size(n as nat)) implies n
            == w && compact_size(n as nat).len() == 9 && p == pos + 9 by {
            let e = compact_size(n as nat);
            assert(b@[pos as int] == b@.subrange(pos as int, pos + e.len())[0]);
            lemma_bytes_at_part(b@, pos as int, e, 1, 9);
            assert(e.subrange(1, 9) =~= le_u64(n as nat));
            assert(bytes_at(b@, pos + 1, le_u64(n as nat)));
        }
        Some((w, p))
    }
}


pub proof fn lemma_bytes_at_concat(b: Seq<u8>, pos: int, x: Seq<u8>, y: Seq<u8>)
    requires
        bytes_at(b, pos, x + y),
    ensures
        bytes_at(b, pos, x),
        bytes_at(b, pos + x.len(), y),
{
    reveal(bytes_at);
    lemma_bytes_at_part(b, pos, x + y, 0, x.len() as int);
    lemma_bytes_at_part(b, pos, x + y, x.len() as int, (x + y).len() as int);
    assert((x + y).subrange(0, x.len() as int) =~= x);
    assert((x + y).subrange(x.len() as int, (x + y).len() as int) =~= y);
}

pub(crate) fn read_bytes(b: &Vec<u8>, pos: usize) -> (r: Option<(Vec<u8>, usize)>)
    ensures
        forall|s: Seq<u8>| #[trigger]
            bytes_at(b@, pos as int, encode_bytes(s)) ==> (r matches Some((v, p)) && v@ == s && p
                == pos + encode_bytes(s).len()),
{
    proof {
        reveal(bytes_at);
    }
    proof {
        }
    let len = b.len();
    let r1 = read_compact_size(b, pos);
    if r1.is_none() {
        assert forall|s: Seq<u8>| #[trigger] bytes_at(b@, pos as int, encode_bytes(s)) implies false by {
            lemma_bytes_at_concat(b@, pos as int, compact_size(s.len()), s);
            assert(((s.len() as u64) as nat) == s.len());
            assert(bytes_at(b@, pos as int, compact_size((s.len() as u64) as nat)));
        }
        return None;
    }
    let (n, p) = r1.unwrap();
    if p > len || n > (len - p) as u64 {
        assert forall|s: Seq<u8>| #[trigger] bytes_at(b@, pos as int, encode_bytes(s)) implies false by {
            lemma_bytes_at_concat(b@, pos as int, compact_size(s.len()), s);
            assert(((s.len() as u64) as nat) == s.len());
            assert(bytes_at(b@, pos as int, compact_size((s.len() as u64) as nat)));
        }
        return None;
    }
    let end = p + n as usize;
    let mut v: Vec<u8> = Vec::new();
    let mut i: usize = p;
    while i < end
        invariant
            p <= i <= end <= len,
            len == b@.len(),
            v@ == b@.subrange(p as int, i as int),
        decreases end - i,
    {
        v.push(b[i]);
        i = i + 1;
        assert(v@ =~= b@.subrange(p as int, i as int));
    }
    assert forall|s: Seq<u8>| #[trigger] bytes_at(b@, pos as int, encode_bytes(s)) implies v@ == s
        && end == pos + encode_bytes(s).len() by {
        lemma_bytes_at_concat(b@, pos as int, compact_size(s.len()), s);
        assert(((s.len() as u64) as nat) == s.len());
        assert(bytes_at(b@, pos as int, compact_size((s.len() as u64) as nat)));
        assert(n == s.len() && p == pos + compact_size(s.len()).len());
    }
    Some((v, end))
}

pub(crate) fn read_outpoint(b: &Vec<u8>, pos: usize) -> (r: Option<(OutPoint, usize)>)
    ensures
        forall|o: OutPoint| #[trigger]
            bytes_at(b@, pos as int, encode_outpoint(o)) ==> (r matches Some((x, p)) && x == o && p
                == pos + 36),
{
    proof {
        reveal(bytes_at);
    }
    proof {
        }
    let len = b.len();
    if pos > len || len - pos < 36 {
        assert forall|o: OutPoint| #[trigger] bytes_at(b@, pos as int, encode_outpoint(o)) implies false by {
            assert(o.txid@.len() == 32);
        }
        return None;
    }
    let mut txid: [u8; 32] = [0u8; 32];
    let mut i: usize = 0;
    while i < 32
        invariant
            i <= 32,
            pos + 36 <= len,
            len == b@.len(),
            forall|k: int| 0 <= k < i ==> txid@[k] == b@[pos + k],
        decreases 32 - i,
    {
        txid[i] = b[pos + i];
        i = i + 1;
    }
    let r2 = read_u32(b, pos + 32);
    if r2.is_none() {
        assert forall|o: OutPoint| #[trigger] bytes_at(b@, pos as int, encode_outpoint(o)) implies false by {
            assert(o.txid@.len() == 32);
            lemma_bytes_at_concat(b@, pos as int, o.txid@, le_u32(o.vout as nat));
        }
        return None;
    }
    let (vout, p) = r2.unwrap();
    let x = OutPoint { txid, vout };
    assert forall|o: OutPoint| #[trigger] bytes_at(b@, pos as int, encode_outpoint(o)) implies x
        == o && p == pos + 36 by {
        assert(o.txid@.len() == 32);
        lemma_bytes_at_concat(b@, pos as int, o.txid@, le_u32(o.vout as nat));
        assert forall|k: int| 0 <= k < 32 implies txid@[k] == o.txid@[k] by {
            assert(b@.subrange(pos as int, pos + 32)[k] == b@[pos + k]);
        }
        assert(txid =~= o.txid);
    }
    Some((x, p))
}

pub(crate) fn read_txout(b: &Vec<u8>, pos: usize) -> (r: Option<(TxOut, usize)>)
    ensures
        forall|o: TxOutModel| #[trigger]
            bytes_at(b@, pos as int, encode_txout(o)) ==> (r matches Some((x, p)) && x@ == o && p
                == pos + encode_txout(o).len()),
{
    proof {
        reveal(bytes_at);
    }
    let len = b.len();
    let r1 = read_u64(b, pos);
    if r1.is_none() {
        assert forall|o: TxOutModel| #[trigger] bytes_at(b@, pos as int, encode_txout(o)) implies false by {
            lemma_bytes_at_concat(b@, pos as int, le_u64(o.value as nat), encode_bytes(o.script_pubkey));
        }
        return None;
    }
    let (value, p) = r1.unwrap();
    let r2 = read_bytes(b, p);
    if r2.is_none() {
        assert forall|o: TxOutModel| #[trigger] bytes_at(b@, pos as int, encode_txout(o)) implies false by {
            lemma_bytes_at_concat(b@, pos as int, le_u64(o.value as nat), encode_bytes(o.script_pubkey));
            assert(b@.len() == len);
            assert(p == pos + 8);
        }
        return None;
    }
    let (script_pubkey, q) = r2.unwrap();
    let x = TxOut { value, script_pubkey };
    assert forall|o: TxOutModel| #[trigger] bytes_at(b@, pos as int, encode_txout(o)) implies x@ == o
        && q == pos + encode_txout(o).len() by {
        lemma_bytes_at_concat(b@, pos as int, le_u64(o.value as nat), encode_bytes(o.script_pubkey));
        assert(b@.len() == len);
        assert(p == pos + 8);
    }
    Some((x, q))
}

/// Reads an input in the layout without witness; its witness is left empty.
pub(crate) fn read_txin(b: &Vec<u8>, pos: usize) -> (r: Option<(TxIn, usize)>)
    ensures
        forall|i: TxInModel| #[trigger]
            bytes_at(b@, pos as int, encode_txin(i)) ==> (r matches Some((x, p)) && x@ == without_witness(i) && p
                == pos + encode_txin(i).len()),
{
    proof {
        reveal(bytes_at);
    }
    let len = b.len();
    let r1 = read_outpoint(b, pos);
    if r1.is_none() {
        assert forall|i: TxInModel| #[trigger] bytes_at(b@, pos as int, encode_txin(i)) implies false by {
            lemma_bytes_at_concat(b@, pos as int, encode_outpoint(i.previous_output) + encode_bytes(i.script_sig), le_u32(i.sequence as nat));
            lemma_bytes_at_concat(b@, pos as int, encode_outpoint(i.previous_output), encode_bytes(i.script_sig));
        }
        return None;
    }
    let (previous_output, p) = r1.unwrap();
    let r2 = read_bytes(b, p);
    if r2.is_none() {
        assert forall|i: TxInModel| #[trigger] bytes_at(b@, pos as int, encode_txin(i)) implies false by {
            lemma_bytes_at_concat(b@, pos as int, encode_outpoint(i.previous_output) + encode_bytes(i.script_sig), le_u32(i.sequence as nat));
            lemma_bytes_at_concat(b@, pos as int, encode_outpoint(i.previous_output), encode_bytes(i.script_sig));
            assert(b@.len() == len);
            assert(o_len(i) == 36);
            assert(p == pos + 36);
        }
        return None;
    }
    let (script_sig, q) = r2.unwrap();
    let r3 = read_u32(b, q);
    if r3.is_none() {
        assert forall|i: TxInModel| #[trigger] bytes_at(b@, pos as int, encode_txin(i)) implies false by {
            lemma_bytes_at_concat(b@, pos as int, encode_outpoint(i.previous_output) + encode_bytes(i.script_sig), le_u32(i.sequence as nat));
            lemma_bytes_at_concat(b@, pos as int, encode_outpoint(i.previous_output), encode_bytes(i.script_sig));
            assert(b@.len() == len);
            assert(o_len(i) == 36);
            assert(p == pos + 36);
            assert(q == pos + 36 + encode_bytes(i.script_sig).len());
        }
        return None;
    }
    let (sequence, e) = r3.unwrap();
    let x = TxIn { previous_output, script_sig, sequence, witness: Vec::new() };
    assert forall|i: TxInModel| #[trigger] bytes_at(b@, pos as int, encode_txin(i)) implies x@
        == without_witness(i) && e == pos + encode_txin(i).len() by {
        lemma_bytes_at_concat(b@, pos as int, encode_outpoint(i.previous_output) + encode_bytes(i.script_sig), le_u32(i.sequence as nat));
        lemma_bytes_at_concat(b@, pos as int, encode_outpoint(i.previous_output), encode_bytes(i.script_sig));
        assert(b@.len() == len);
        assert(o_len(i) == 36);
        assert(p == pos + 36);
        assert(q == pos + 36 + encode_bytes(i.script_sig).len());
        assert(x.witness@.map_values(|w: Vec<u8>| w@) =~= Seq::<Seq<u8>>::empty());
    }
    Some((x, e))
}

/// An input with its witness replaced by `w`.
pub open spec fn with_stack(i: TxInModel, w: Seq<Seq<u8>>) -> TxInModel {
    TxInModel { witness: w, ..i }
}

/// An input with its witness removed.
pub open spec fn without_witness(i: TxInModel) -> TxInModel {
    TxInModel { witness: seq![], ..i }
}

spec fn o_len(i: TxInModel) -> int {
    encode_outpoint(i.previous_output).len() as int
}


pub proof fn lemma_list_step<A>(b: Seq<u8>, pos: int, s: Seq<A>, f: spec_fn(A) -> Seq<u8>, k: int)
    requires
        bytes_at(b, pos, encode_all(s, f)),
        0 <= k < s.len(),
    ensures
        bytes_at(b, pos + encode_all(s.subrange(0, k), f).len(), f(s[k])),
        encode_all(s.subrange(0, k + 1), f) == encode_all(s.subrange(0, k), f) + f(s[k]),
{
    reveal(bytes_at);
    lemma_encode_all_split(s, f, k);
    let t = s.subrange(k, s.len() as int);
    lemma_encode_all_split(t, f, 1);
    assert(t.subrange(0, 1) =~= seq![s[k]]);
    lemma_encode_all_single(s[k], f);
    lemma_bytes_at_concat(b, pos, encode_all(s.subrange(0, k), f), encode_all(t, f));
    lemma_bytes_at_concat(
        b,
        pos + encode_all(s.subrange(0, k), f).len(),
        f(s[k]),
        encode_all(t.subrange(1, t.len() as int), f),
    );
    assert(s.subrange(0, k + 1).drop_last() =~= s.subrange(0, k));
    assert(s.subrange(0, k + 1).last() == s[k]);
}

pub proof fn lemma_list_whole<A>(s: Seq<A>, f: spec_fn(A) -> Seq<u8>)
    ensures
        encode_all(s.subrange(0, s.len() as int), f) == encode_all(s, f),
{
    reveal(bytes_at);
    assert(s.subrange(0, s.len() as int) =~= s);
}

pub(crate) fn read_txouts(b: &Vec<u8>, pos: usize, count: u64) -> (r: Option<(Vec<TxOut>, usize)>)
    ensures
        forall|s: Seq<TxOutModel>|
            s.len() == count && #[trigger] bytes_at(b@, pos as int, encode_txouts(s)) ==> (r matches Some(
                (v, p),
            ) && v@.map_values(|o: TxOut| o@) == s && p == pos + encode_txouts(s).len()),
{
    proof {
        reveal(bytes_at);
    }
    let mut out: Vec<TxOut> = Vec::new();
    let mut p: usize = pos;
    let mut k: u64 = 0;
    while k < count
        invariant
            k <= count,
            forall|s: Seq<TxOutModel>|
                s.len() == count && #[trigger] bytes_at(b@, pos as int, encode_txouts(s)) ==> (out@.len()
                    == k && (forall|j: int| 0 <= j < k ==> (#[trigger] out@[j])@ == s[j]) && p == pos
                    + encode_all(s.subrange(0, k as int), txout_encoder()).len()),
        decreases count - k,
    {
        let r1 = read_txout(b, p);
        if r1.is_none() {
            assert forall|s: Seq<TxOutModel>|
                s.len() == count && #[trigger] bytes_at(b@, pos as int, encode_txouts(s)) implies false by {
                lemma_list_step(b@, pos as int, s, txout_encoder(), k as int);
                assert(bytes_at(b@, p as int, encode_txout(s[k as int])));
            }
            return None;
        }
        let (o, np) = r1.unwrap();
        let ghost old_out = out@;
        let ghost old_p = p;
        out.push(o);
        p = np;
        k = k + 1;
        assert forall|s: Seq<TxOutModel>|
            s.len() == count && #[trigger] bytes_at(b@, pos as int, encode_txouts(s)) implies (out@.len()
                == k && (forall|j: int| 0 <= j < k ==> (#[trigger] out@[j])@ == s[j]) && p == pos
                + encode_all(s.subrange(0, k as int), txout_encoder()).len()) by {
            lemma_list_step(b@, pos as int, s, txout_encoder(), k - 1);
            assert(bytes_at(b@, old_p as int, encode_txout(s[k - 1])));
            assert forall|j: int| 0 <= j < k implies (#[trigger] out@[j])@ == s[j] by {
                if j < k - 1 {
                    assert(out@[j] == old_out[j]);
                }
            }
        }
    }
    assert forall|s: Seq<TxOutModel>|
        s.len() == count && #[trigger] bytes_at(b@, pos as int, encode_txouts(s)) implies (
        out@.map_values(|o: TxOut| o@) == s && p == pos + encode_txouts(s).len()) by {
        lemma_list_whole(s, txout_encoder());
        assert(out@.map_values(|o: TxOut| o@) =~= s);
    }
    Some((out, p))
}

pub(crate) fn read_txins(b: &Vec<u8>, pos: usize, count: u64) -> (r: Option<(Vec<TxIn>, usize)>)
    ensures
        forall|s: Seq<TxInModel>|
            s.len() == count && #[trigger] bytes_at(b@, pos as int, encode_txins(s)) ==> (r matches Some(
                (v, p),
            ) && v@.map_values(|o: TxIn| o@) == s.map_values(|i: TxInModel| without_witness(i)) && p == pos + encode_txins(s).len()),
{
    proof {
        reveal(bytes_at);
    }
    let mut out: Vec<TxIn> = Vec::new();
    let mut p: usize = pos;
    let mut k: u64 = 0;
    while k < count
        invariant
            k <= count,
            forall|s: Seq<TxInModel>|
                s.len() == count && #[trigger] bytes_at(b@, pos as int, encode_txins(s)) ==> (out@.len()
                    == k && (forall|j: int| 0 <= j < k ==> (#[trigger] out@[j])@ == without_witness(s[j])) && p == pos
                    + encode_all(s.subrange(0, k as int), txin_encoder()).len()),
        decreases count - k,
    {
        let r1 = read_txin(b, p);
        if r1.is_none() {
            assert forall|s: Seq<TxInModel>|
                s.len() == count && #[trigger] bytes_at(b@, pos as int, encode_txins(s)) implies false by {
                lemma_list_step(b@, pos as int, s, txin_encoder(), k as int);
                assert(bytes_at(b@, p as int, encode_txin(s[k as int])));
            }
            return None;
        }
        let (o, np) = r1.unwrap();
        let ghost old_out = out@;
        let ghost old_p = p;
        out.push(o);
        p = np;
        k = k + 1;
        assert forall|s: Seq<TxInModel>|
            s.len() == count && #[trigger] bytes_at(b@, pos as int, encode_txins(s)) implies (out@.len()
                == k && (forall|j: int| 0 <= j < k ==> (#[trigger] out@[j])@ == without_witness(s[j])) && p == pos
                + encode_all(s.subrange(0, k as int), txin_encoder()).len()) by {
            lemma_list_step(b@, pos as int, s, txin_encoder(), k - 1);
            assert(bytes_at(b@, old_p as int, encode_txin(s[k - 1])));
            assert forall|j: int| 0 <= j < k implies (#[trigger] out@[j])@ == without_witness(s[j]) by {
                if j < k - 1 {
                    assert(out@[j] == old_out[j]);
                }
            }
        }
    }
    assert forall|s: Seq<TxInModel>|
        s.len() == count && #[trigger] bytes_at(b@, pos as int, encode_txins(s)) implies (
        out@.map_values(|o: TxIn| o@) == s.map_values(|i: TxInModel| without_witness(i)) && p == pos + encode_txins(s).len()) by {
        lemma_list_whole(s, txin_encoder());
        assert(out@.map_values(|o: TxIn| o@) =~= s.map_values(|i: TxInModel| without_witness(i)));
    }
    Some((out, p))
}

pub(crate) fn read_items(b: &Vec<u8>, pos: usize, count: u64) -> (r: Option<(Vec<Vec<u8>>, usize)>)
    ensures
        forall|s: Seq<Seq<u8>>|
            s.len() == count && #[trigger] bytes_at(b@, pos as int, encode_items(s)) ==> (r matches Some(
                (v, p),
            ) && v@.map_values(|o: Vec<u8>| o@) == s && p == pos + encode_items(s).len()),
{
    proof {
        reveal(bytes_at);
    }
    let mut out: Vec<Vec<u8>> = Vec::new();
    let mut p: usize = pos;
    let mut k: u64 = 0;
    while k < count
        invariant
            k <= count,
            forall|s: Seq<Seq<u8>>|
                s.len() == count && #[trigger] bytes_at(b@, pos as int, encode_items(s)) ==> (out@.len()
                    == k && (forall|j: int| 0 <= j < k ==> (#[trigger] out@[j])@ == s[j]) && p == pos
                    + encode_all(s.subrange(0, k as int), item_encoder()).len()),
        decreases count - k,
    {
        let r1 = read_bytes(b, p);
        if r1.is_none() {
            assert forall|s: Seq<Seq<u8>>|
                s.len() == count && #[trigger] bytes_at(b@, pos as int, encode_items(s)) implies false by {
                lemma_list_step(b@, pos as int, s, item_encoder(), k as int);
                assert(bytes_at(b@, p as int, encode_bytes(s[k as int])));
            }
            return None;
        }
        let (o, np) = r1.unwrap();
        let ghost old_out = out@;
        let ghost old_p = p;
        out.push(o);
        p = np;
        k = k + 1;
        assert forall|s: Seq<Seq<u8>>|
            s.len() == count && #[trigger] bytes_at(b@, pos as int, encode_items(s)) implies (out@.len()
                == k && (forall|j: int| 0 <= j < k ==> (#[trigger] out@[j])@ == s[j]) && p == pos
                + encode_all(s.subrange(0, k as int), item_encoder()).len()) by {
            lemma_list_step(b@, pos as int, s, item_encoder(), k - 1);
            assert(bytes_at(b@, old_p as int, encode_bytes(s[k - 1])));
            assert forall|j: int| 0 <= j < k implies (#[trigger] out@[j])@ == s[j] by {
                if j < k - 1 {
                    assert(out@[j] == old_out[j]);
                }
            }
        }
    }
    assert forall|s: Seq<Seq<u8>>|
        s.len() == count && #[trigger] bytes_at(b@, pos as int, encode_items(s)) implies (
        out@.map_values(|o: Vec<u8>| o@) == s && p == pos + encode_items(s).len()) by {
        lemma_list_whole(s, item_encoder());
        assert(out@.map_values(|o: Vec<u8>| o@) =~= s);
    }
    Some((out, p))
}

pub proof fn lemma_items_len(s: Seq<Seq<u8>>)
    ensures
        encode_items(s).len() >= s.len(),
    decreases s.len(),
{
    reveal(bytes_at);
    reveal(compact_size);
    if s.len() > 0 {
        lemma_items_len(s.drop_last());
    }
}

pub(crate) fn read_witness(b: &Vec<u8>, pos: usize) -> (r: Option<(Vec<Vec<u8>>, usize)>)
    ensures
        forall|w: Seq<Seq<u8>>| #[trigger]
            bytes_at(b@, pos as int, encode_witness(w)) ==> (r matches Some((v, p)) && v@.map_values(
                |x: Vec<u8>| x@,
            ) == w && p == pos + encode_witness(w).len()),
{
    proof {
        reveal(bytes_at);
    }
    let len = b.len();
    let r1 = read_compact_size(b, pos);
    if r1.is_none() {
        assert forall|w: Seq<Seq<u8>>| #[trigger] bytes_at(b@, pos as int, encode_witness(w)) implies false by {
            lemma_bytes_at_concat(b@, pos as int, compact_size(w.len()), encode_items(w));
            lemma_items_len(w);
            assert(b@.len() == len);
            assert(bytes_at(b@, pos as int, compact_size((w.len() as u64) as nat)));
        }
        return None;
    }
    let (n, p) = r1.unwrap();
    let r2 = read_items(b, p, n);
    if r2.is_none() {
        assert forall|w: Seq<Seq<u8>>| #[trigger] bytes_at(b@, pos as int, encode_witness(w)) implies false by {
            lemma_bytes_at_concat(b@, pos as int, compact_size(w.len()), encode_items(w));
            lemma_items_len(w);
            assert(b@.len() == len);
            assert(bytes_at(b@, pos as int, compact_size((w.len() as u64) as nat)));
            assert(b@.len() == len);
            assert(bytes_at(b@, p as int, encode_items(w)));
        }
        return None;
    }
    let (v, q) = r2.unwrap();
    assert forall|w: Seq<Seq<u8>>| #[trigger] bytes_at(b@, pos as int, encode_witness(w)) implies
        v@.map_values(|x: Vec<u8>| x@) == w && q == pos + encode_witness(w).len() by {
        lemma_bytes_at_concat(b@, pos as int, compact_size(w.len()), encode_items(w));
        lemma_items_len(w);
        assert(b@.len() == len);
        assert(bytes_at(b@, pos as int, compact_size((w.len() as u64) as nat)));
        assert(b@.len() == len);
        assert(bytes_at(b@, p as int, encode_items(w)));
    }
    Some((v, q))
}

pub(crate) fn read_witnesses(b: &Vec<u8>, pos: usize, count: u64) -> (r: Option<(Vec<Vec<Vec<u8>>>, usize)>)
    ensures
        forall|s: Seq<TxInModel>|
            s.len() == count && #[trigger] bytes_at(b@, pos as int, encode_witnesses(s)) ==> (r matches Some(
                (v, p),
            ) && v@.len() == s.len() && (forall|j: int| 0 <= j < s.len() ==> (#[trigger] v@[j])@.map_values(
                |x: Vec<u8>| x@,
            ) == s[j].witness) && p == pos + encode_witnesses(s).len()),
{
    proof {
        reveal(bytes_at);
    }
    let mut out: Vec<Vec<Vec<u8>>> = Vec::new();
    let mut p: usize = pos;
    let mut k: u64 = 0;
    while k < count
        invariant
            k <= count,
            forall|s: Seq<TxInModel>|
                s.len() == count && #[trigger] bytes_at(b@, pos as int, encode_witnesses(s)) ==> (out@.len()
                    == k && (forall|j: int| 0 <= j < k ==> (#[trigger] out@[j])@.map_values(
                    |x: Vec<u8>| x@,
                ) == s[j].witness) && p == pos + encode_all(s.subrange(0, k as int), witness_encoder()).len()),
        decreases count - k,
    {
        let r1 = read_witness(b, p);
        if r1.is_none() {
            assert forall|s: Seq<TxInModel>|
                s.len() == count && #[trigger] bytes_at(b@, pos as int, encode_witnesses(s)) implies false by {
                lemma_list_step(b@, pos as int, s, witness_encoder(), k as int);
                assert(bytes_at(b@, p as int, encode_witness(s[k as int].witness)));
            }
            return None;
        }
        let (w, np) = r1.unwrap();
        let ghost old_out = out@;
        let ghost old_p = p;
        out.push(w);
        p = np;
        k = k + 1;
        assert forall|s: Seq<TxInModel>|
            s.len() == count && #[trigger] bytes_at(b@, pos as int, encode_witnesses(s)) implies (out@.len()
                == k && (forall|j: int| 0 <= j < k ==> (#[trigger] out@[j])@.map_values(
                |x: Vec<u8>| x@,
            ) == s[j].witness) && p == pos + encode_all(s.subrange(0, k as int), witness_encoder()).len()) by {
            lemma_list_step(b@, pos as int, s, witness_encoder(), k - 1);
            assert(bytes_at(b@, old_p as int, encode_witness(s[k - 1].witness)));
            assert forall|j: int| 0 <= j < k implies (#[trigger] out@[j])@.map_values(
                |x: Vec<u8>| x@,
            ) == s[j].witness by {
                if j < k - 1 {
                    assert(out@[j] == old_out[j]);
                }
            }
        }
    }
    assert forall|s: Seq<TxInModel>|
        s.len() == count && #[trigger] bytes_at(b@, pos as int, encode_witnesses(s)) implies p == pos
        + encode_witnesses(s).len() by {
        lemma_list_whole(s, witness_encoder());
    }
    Some((out, p))
}

proof fn lemma_segwit_parts(b: Seq<u8>, pos: int, t: TransactionModel)
    requires
        has_witness(t),
        bytes_at(b, pos, encode_transaction(t)),
    ensures
        ({
            let c1 = compact_size(t.input.len());
            let i = encode_txins(t.input);
            let c2 = compact_size(t.output.len());
            let o = encode_txouts(t.output);
            let w = encode_witnesses(t.input);
            &&& bytes_at(b, pos, le_u32(t.version as nat))
            &&& bytes_at(b, pos + 4, seq![0u8, 1u8])
            &&& bytes_at(b, pos + 6, c1)
            &&& bytes_at(b, pos + 6 + c1.len(), i)
            &&& bytes_at(b, pos + 6 + c1.len() + i.len(), c2)
            &&& bytes_at(b, pos + 6 + c1.len() + i.len() + c2.len(), o)
            &&& bytes_at(b, pos + 6 + c1.len() + i.len() + c2.len() + o.len(), w)
            &&& bytes_at(b, pos + 6 + c1.len() + i.len() + c2.len() + o.len() + w.len(), le_u32(t.lock_time as nat))
            &&& encode_transaction(t).len() == 10 + c1.len() + i.len() + c2.len() + o.len() + w.len()
        }),
{
    reveal(bytes_at);
    let a = le_u32(t.version as nat);
    let m = seq![0u8, 1u8];
    let c1 = compact_size(t.input.len());
    let i = encode_txins(t.input);
    let c2 = compact_size(t.output.len());
    let o = encode_txouts(t.output);
    let w = encode_witnesses(t.input);
    let l = le_u32(t.lock_time as nat);
    reveal(encode_transaction);
    lemma_bytes_at_concat(b, pos, a + m + c1 + i + c2 + o + w, l);
    lemma_bytes_at_concat(b, pos, a + m + c1 + i + c2 + o, w);
    lemma_bytes_at_concat(b, pos, a + m + c1 + i + c2, o);
    lemma_bytes_at_concat(b, pos, a + m + c1 + i, c2);
    lemma_bytes_at_concat(b, pos, a + m + c1, i);
    lemma_bytes_at_concat(b, pos, a + m, c1);
    lemma_bytes_at_concat(b, pos, a, m);
}

proof fn lemma_legacy_parts(b: Seq<u8>, pos: int, t: TransactionModel)
    requires
        !has_witness(t),
        bytes_at(b, pos, encode_transaction(t)),
    ensures
        ({
            let c1 = compact_size(t.input.len());
            let i = encode_txins(t.input);
            let c2 = compact_size(t.output.len());
            let o = encode_txouts(t.output);
            &&& bytes_at(b, pos, le_u32(t.version as nat))
            &&& bytes_at(b, pos + 4, c1)
            &&& bytes_at(b, pos + 4 + c1.len(), i)
            &&& bytes_at(b, pos + 4 + c1.len() + i.len(), c2)
            &&& bytes_at(b, pos + 4 + c1.len() + i.len() + c2.len(), o)
            &&& bytes_at(b, pos + 4 + c1.len() + i.len() + c2.len() + o.len(), le_u32(t.lock_time as nat))
            &&& encode_transaction(t).len() == 8 + c1.len() + i.len() + c2.len() + o.len()
        }),
{
    reveal(bytes_at);
    let a = le_u32(t.version as nat);
    let c1 = compact_size(t.input.len());
    let i = encode_txins(t.input);
    let c2 = compact_size(t.output.len());
    let o = encode_txouts(t.output);
    let l = le_u32(t.lock_time as nat);
    reveal(encode_transaction);
    lemma_bytes_at_concat(b, pos, a + c1 + i + c2 + o, l);
    lemma_bytes_at_concat(b, pos, a + c1 + i + c2, o);
    lemma_bytes_at_concat(b, pos, a + c1 + i, c2);
    lemma_bytes_at_concat(b, pos, a + c1, i);
    lemma_bytes_at_concat(b, pos, a, c1);
}

/// `b` holds, from `pos` on, the encoding of a transaction with at least one input.
pub open spec fn transaction_at(b: Seq<u8>, pos: int, t: TransactionModel) -> bool {
    t.input.len() > 0 && bytes_at(b, pos, encode_transaction(t))
}

pub open spec fn header_len(t: TransactionModel) -> int {
    if has_witness(t) { 6 } else { 4 }
}

pub open spec fn witness_len(t: TransactionModel) -> int {
    if has_witness(t) { encode_witnesses(t.input).len() as int } else { 0 }
}

pub proof fn lemma_encode_all_len<A>(s: Seq<A>, f: spec_fn(A) -> Seq<u8>)
    requires
        forall|x: A| #[trigger] f(x).len() >= 1,
    ensures
        encode_all(s, f).len() >= s.len(),
    decreases s.len(),
{
    if s.len() > 0 {
        lemma_encode_all_len(s.drop_last(), f);
    }
}

proof fn lemma_tx_parts(b: Seq<u8>, pos: int, t: TransactionModel)
    requires
        transaction_at(b, pos, t),
    ensures
        ({
            let c1 = compact_size(t.input.len());
            let i = encode_txins(t.input);
            let c2 = compact_size(t.output.len());
            let o = encode_txouts(t.output);
            let w = encode_witnesses(t.input);
            let h = header_len(t);
            &&& t.input.len() <= b.len()
            &&& t.output.len() <= b.len()
            &&& bytes_at(b, pos, le_u32(t.version as nat))
            &&& has_witness(t) ==> pos + 6 <= b.len() && b[pos + 4] == 0 && b[pos + 5] == 1
            &&& !has_witness(t) ==> pos + 5 <= b.len() && b[pos + 4] != 0
            &&& bytes_at(b, pos + h, c1)
            &&& bytes_at(b, pos + h + c1.len(), i)
            &&& bytes_at(b, pos + h + c1.len() + i.len(), c2)
            &&& bytes_at(b, pos + h + c1.len() + i.len() + c2.len(), o)
            &&& has_witness(t) ==> bytes_at(b, pos + h + c1.len() + i.len() + c2.len() + o.len(), w)
            &&& bytes_at(b, pos + h + c1.len() + i.len() + c2.len() + o.len() + witness_len(t), le_u32(t.lock_time as nat))
            &&& encode_transaction(t).len() == h + 4 + c1.len() + i.len() + c2.len() + o.len() + witness_len(t)
        }),
{
    reveal(bytes_at);
    reveal(compact_size);
    assert forall|x: TxInModel| #[trigger] txin_encoder()(x).len() >= 1 by {
        assert(encode_outpoint(x.previous_output).len() == 36);
    }
    assert forall|x: TxOutModel| #[trigger] txout_encoder()(x).len() >= 1 by {
        assert(le_u64(x.value as nat).len() == 8);
    }
    lemma_encode_all_len(t.input, txin_encoder());
    lemma_encode_all_len(t.output, txout_encoder());
    if has_witness(t) {
        lemma_segwit_parts(b, pos, t);
        assert(b[pos + 4] == b.subrange(pos + 4, pos + 6)[0]);
        assert(b[pos + 5] == b.subrange(pos + 4, pos + 6)[1]);
    } else {
        lemma_legacy_parts(b, pos, t);
        let c1 = compact_size(t.input.len());
        assert(b[pos + 4] == b.subrange(pos + 4, pos + 4 + c1.len())[0]);
    }
}

fn join_witnesses(ins: &Vec<TxIn>, ws: &Vec<Vec<Vec<u8>>>) -> (joined: Vec<TxIn>)
    requires
        ws@.len() == ins@.len(),
    ensures
        joined@.len() == ins@.len(),
        forall|j: int|
            0 <= j < ins@.len() ==> (#[trigger] joined@[j])@ == with_stack(
                ins@[j]@,
                ws@[j]@.map_values(|x: Vec<u8>| x@),
            ),
{
    let mut joined: Vec<TxIn> = Vec::new();
    let mut k: usize = 0;
    while k < ins.len()
        invariant
            k <= ins@.len(),
            ws@.len() == ins@.len(),
            joined@.len() == k,
            forall|j: int|
                0 <= j < k ==> (#[trigger] joined@[j])@ == with_stack(
                    ins@[j]@,
                    ws@[j]@.map_values(|x: Vec<u8>| x@),
                ),
        decreases ins@.len() - k,
    {
        let x = TxIn {
            previous_output: ins[k].previous_output,
            script_sig: copy_bytes(&ins[k].script_sig),
            sequence: ins[k].sequence,
            witness: copy_stack(&ws[k]),
        };
        joined.push(x);
        k = k + 1;
    }
    joined
}

pub open spec fn inputs_end(pos: int, t: TransactionModel) -> int {
    pos + header_len(t) + compact_size(t.input.len()).len() + encode_txins(t.input).len()
}

pub open spec fn outputs_end(pos: int, t: TransactionModel) -> int {
    inputs_end(pos, t) + compact_size(t.output.len()).len() + encode_txouts(t.output).len()
}

#[verifier::rlimit(60)]
/// Reads the version and the segwit marker if any.
fn read_tx_header(b: &Vec<u8>, pos: usize) -> (r: Option<(u32, bool, usize)>)
    ensures
        forall|t: TransactionModel| #[trigger]
            transaction_at(b@, pos as int, t) ==> (r matches Some((version, seg, p)) && version
                == t.version && seg == has_witness(t) && p == pos + header_len(t)),
{
    let len = b.len();
    let r1 = read_u32(b, pos);
    if r1.is_none() {
        assert forall|t: TransactionModel| #[trigger] transaction_at(b@, pos as int, t) implies false by {
            lemma_tx_parts(b@, pos as int, t);
            assert(b@.len() == len);
        }
        return None;
    }
    let (version, at0) = r1.unwrap();
    let seg = at0 < len && b[at0] == 0;
    if seg && !(at0 < len - 1 && b[at0 + 1] == 1) {
        assert forall|t: TransactionModel| #[trigger] transaction_at(b@, pos as int, t) implies false by {
            lemma_tx_parts(b@, pos as int, t);
            assert(b@.len() == len);
            assert(b@.len() == len);
            assert(at0 == pos + 4);
        }
        return None;
    }
    let at1 = if seg { at0 + 2 } else { at0 };
    assert forall|t: TransactionModel| #[trigger] transaction_at(b@, pos as int, t) implies version
        == t.version && seg == has_witness(t) && at1 == pos + header_len(t) by {
        lemma_tx_parts(b@, pos as int, t);
            assert(b@.len() == len);
        assert(b@.len() == len);
        assert(at0 == pos + 4);
    }
    Some((version, seg, at1))
}

proof fn lemma_tx_input_part(b: Seq<u8>, pos: int, t: TransactionModel)
    requires
        transaction_at(b, pos, t),
    ensures
        t.input.len() <= b.len(),
        bytes_at(b, pos + header_len(t), compact_size(t.input.len())),
        bytes_at(b, pos + header_len(t) + compact_size(t.input.len()).len(), encode_txins(t.input)),
        0 <= pos + header_len(t) <= inputs_end(pos, t) <= b.len(),
{
    lemma_tx_parts(b, pos, t);
    reveal(bytes_at);
}

proof fn lemma_tx_output_part(b: Seq<u8>, pos: int, t: TransactionModel)
    requires
        transaction_at(b, pos, t),
    ensures
        t.output.len() <= b.len(),
        bytes_at(b, inputs_end(pos, t), compact_size(t.output.len())),
        bytes_at(b, inputs_end(pos, t) + compact_size(t.output.len()).len(), encode_txouts(t.output)),
        0 <= inputs_end(pos, t) <= outputs_end(pos, t) <= b.len(),
{
    lemma_tx_parts(b, pos, t);
    reveal(bytes_at);
}

proof fn lemma_tx_tail_part(b: Seq<u8>, pos: int, t: TransactionModel)
    requires
        transaction_at(b, pos, t),
    ensures
        has_witness(t) ==> bytes_at(b, outputs_end(pos, t), encode_witnesses(t.input)),
        bytes_at(b, outputs_end(pos, t) + witness_len(t), le_u32(t.lock_time as nat)),
        0 <= outputs_end(pos, t) <= outputs_end(pos, t) + witness_len(t),
        outputs_end(pos, t) + witness_len(t) + 4 <= b.len(),
        pos + encode_transaction(t).len() == outputs_end(pos, t) + witness_len(t) + 4,
{
    lemma_tx_parts(b, pos, t);
    reveal(bytes_at);
}

/// Reads the input count and the inputs without their witnesses, from `at1` on.
fn read_tx_input_list(b: &Vec<u8>, pos: usize, at1: usize) -> (r: Option<(u64, Vec<TxIn>, usize)>)
    ensures
        forall|t: TransactionModel| #[trigger]
            transaction_at(b@, pos as int, t) && at1 == pos + header_len(t) ==> (r matches Some(
                (n, ins, p),
            ) && n == t.input.len() && ins@.map_values(|x: TxIn| x@) == t.input.map_values(
                |i: TxInModel| without_witness(i),
            ) && p == inputs_end(pos as int, t)),
{
    let len = b.len();
    let r2 = read_compact_size(b, at1);
    if r2.is_none() {
        assert forall|t: TransactionModel| #[trigger] transaction_at(b@, pos as int, t) && at1 == pos + header_len(t) implies false by {
            lemma_tx_input_part(b@, pos as int, t);
            assert(b@.len() == len);
            assert(bytes_at(b@, at1 as int, compact_size((t.input.len() as u64) as nat)));
        }
        return None;
    }
    let (n_in, at2) = r2.unwrap();
    let r3 = read_txins(b, at2, n_in);
    if r3.is_none() {
        assert forall|t: TransactionModel| #[trigger] transaction_at(b@, pos as int, t) && at1 == pos + header_len(t) implies false by {
            lemma_tx_input_part(b@, pos as int, t);
            assert(b@.len() == len);
            assert(((t.input.len() as u64) as nat) == t.input.len());
            assert(bytes_at(b@, at1 as int, compact_size((t.input.len() as u64) as nat)));
            assert(at2 == at1 + compact_size(t.input.len()).len());
            assert(bytes_at(b@, at2 as int, encode_txins(t.input)));
        }
        return None;
    }
    let (ins, at3) = r3.unwrap();
    assert forall|t: TransactionModel| #[trigger] transaction_at(b@, pos as int, t) && at1 == pos + header_len(t) implies n_in
        == t.input.len() && ins@.map_values(|x: TxIn| x@) == t.input.map_values(
        |i: TxInModel| without_witness(i),
    ) && at3 == inputs_end(pos as int, t) by {
        lemma_tx_input_part(b@, pos as int, t);
            assert(b@.len() == len);
        assert(((t.input.len() as u64) as nat) == t.input.len());
        assert(bytes_at(b@, at1 as int, compact_size((t.input.len() as u64) as nat)));
        assert(at2 == at1 + compact_size(t.input.len()).len());
        assert(bytes_at(b@, at2 as int, encode_txins(t.input)));
    }
    Some((n_in, ins, at3))
}

#[verifier::rlimit(60)]
/// Reads the outputs, which start at `p`.
fn read_tx_outputs(b: &Vec<u8>, pos: usize, p: usize) -> (r: Option<(Vec<TxOut>, usize)>)
    ensures
        forall|t: TransactionModel| #[trigger]
            transaction_at(b@, pos as int, t) && p == inputs_end(pos as int, t) ==> (r matches Some(
                (output, q),
            ) && output@.map_values(|x: TxOut| x@) == t.output && q == outputs_end(pos as int, t)),
{
    let len = b.len();
    let r4 = read_compact_size(b, p);
    if r4.is_none() {
        assert forall|t: TransactionModel| #[trigger] transaction_at(b@, pos as int, t) && p
            == inputs_end(pos as int, t) implies false by {
            lemma_tx_output_part(b@, pos as int, t);
            assert(b@.len() == len);
            assert(bytes_at(b@, p as int, compact_size((t.output.len() as u64) as nat)));
        }
        return None;
    }
    let (n_out, at4) = r4.unwrap();
    let r5 = read_txouts(b, at4, n_out);
    if r5.is_none() {
        assert forall|t: TransactionModel| #[trigger] transaction_at(b@, pos as int, t) && p
            == inputs_end(pos as int, t) implies false by {
            lemma_tx_output_part(b@, pos as int, t);
            assert(b@.len() == len);
            assert(((t.output.len() as u64) as nat) == t.output.len());
            assert(bytes_at(b@, p as int, compact_size((t.output.len() as u64) as nat)));
            assert(at4 == p + compact_size(t.output.len()).len());
            assert(bytes_at(b@, at4 as int, encode_txouts(t.output)));
        }
        return None;
    }
    let (output, at5) = r5.unwrap();
    assert forall|t: TransactionModel| #[trigger] transaction_at(b@, pos as int, t) && p
        == inputs_end(pos as int, t) implies output@.map_values(|x: TxOut| x@) == t.output && at5
        == outputs_end(pos as int, t) by {
        lemma_tx_output_part(b@, pos as int, t);
            assert(b@.len() == len);
        assert(((t.output.len() as u64) as nat) == t.output.len());
        assert(bytes_at(b@, p as int, compact_size((t.output.len() as u64) as nat)));
        assert(at4 == p + compact_size(t.output.len()).len());
        assert(bytes_at(b@, at4 as int, encode_txouts(t.output)));
    }
    Some((output, at5))
}

/// Reads the witnesses, which start at `p`, where `seg` says the layout has them, and
/// attaches them to `ins`.
fn read_tx_witnesses(b: &Vec<u8>, pos: usize, p: usize, seg: bool, ins: Vec<TxIn>) -> (r: Option<
    (Vec<TxIn>, usize),
>)
    ensures
        forall|t: TransactionModel| #[trigger]
            transaction_at(b@, pos as int, t) && p == outputs_end(pos as int, t) && seg
                == has_witness(t) && ins@.map_values(|x: TxIn| x@) == t.input.map_values(
                |i: TxInModel| without_witness(i),
            ) ==> (r matches Some((input, q)) && input@.map_values(|x: TxIn| x@) == t.input && q
                == outputs_end(pos as int, t) + witness_len(t)),
{
    let len = b.len();
    if !seg {
        assert forall|t: TransactionModel| #[trigger] transaction_at(b@, pos as int, t) && p
            == outputs_end(pos as int, t) && seg == has_witness(t) && ins@.map_values(|x: TxIn| x@)
            == t.input.map_values(|i: TxInModel| without_witness(i)) implies ins@.map_values(
            |x: TxIn| x@,
        ) == t.input by {
            assert forall|j: int| 0 <= j < t.input.len() implies t.input[j].witness =~= Seq::<
                Seq<u8>,
            >::empty() by {
                if t.input[j].witness.len() > 0 {
                    assert(has_witness(t));
                }
            }
            assert(t.input.map_values(|i: TxInModel| without_witness(i)) =~= t.input);
        }
        return Some((ins, p));
    }
    let r6 = read_witnesses(b, p, ins.len() as u64);
    if r6.is_none() {
        assert forall|t: TransactionModel| #[trigger] transaction_at(b@, pos as int, t) && p
            == outputs_end(pos as int, t) && seg == has_witness(t) && ins@.map_values(|x: TxIn| x@)
            == t.input.map_values(|i: TxInModel| without_witness(i)) implies false by {
            lemma_tx_tail_part(b@, pos as int, t);
            assert(b@.len() == len);
            assert(ins@.map_values(|x: TxIn| x@).len() == t.input.map_values(|i: TxInModel| without_witness(i)).len());
            assert(ins@.len() == t.input.len());
            assert(bytes_at(b@, p as int, encode_witnesses(t.input)));
        }
        return None;
    }
    let (ws, q) = r6.unwrap();
    if ws.len() != ins.len() {
        assert forall|t: TransactionModel| #[trigger] transaction_at(b@, pos as int, t) && p
            == outputs_end(pos as int, t) && seg == has_witness(t) && ins@.map_values(|x: TxIn| x@)
            == t.input.map_values(|i: TxInModel| without_witness(i)) implies false by {
            lemma_tx_tail_part(b@, pos as int, t);
            assert(ins@.map_values(|x: TxIn| x@).len() == t.input.map_values(|i: TxInModel| without_witness(i)).len());
            assert(ins@.len() == t.input.len());
            assert(bytes_at(b@, p as int, encode_witnesses(t.input)));
        }
        return None;
    }
    let joined = join_witnesses(&ins, &ws);
    assert forall|t: TransactionModel| #[trigger] transaction_at(b@, pos as int, t) && p
        == outputs_end(pos as int, t) && seg == has_witness(t) && ins@.map_values(|x: TxIn| x@)
        == t.input.map_values(|i: TxInModel| without_witness(i)) implies joined@.map_values(
        |x: TxIn| x@,
    ) == t.input && q == outputs_end(pos as int, t) + witness_len(t) by {
        lemma_tx_tail_part(b@, pos as int, t);
            assert(b@.len() == len);
        assert(ins@.map_values(|x: TxIn| x@).len() == t.input.map_values(|i: TxInModel| without_witness(i)).len());
        assert(ins@.len() == t.input.len());
        assert(bytes_at(b@, p as int, encode_witnesses(t.input)));
        assert forall|j: int| 0 <= j < t.input.len() implies joined@.map_values(|x: TxIn| x@)[j]
            == t.input[j] by {
            assert(ins@.map_values(|x: TxIn| x@)[j] == t.input.map_values(
                |i: TxInModel| without_witness(i),
            )[j]);
        }
        assert(joined@.map_values(|x: TxIn| x@) =~= t.input);
    }
    Some((joined, q))
}

pub(crate) fn read_transaction(b: &Vec<u8>, pos: usize) -> (r: Option<(Transaction, usize)>)
    ensures
        forall|t: TransactionModel| #[trigger]
            transaction_at(b@, pos as int, t) ==> (r matches Some((x, p)) && x@ == t && p == pos
                + encode_transaction(t).len()),
{
    let len = b.len();
    let (version, seg, at1) = match read_tx_header(b, pos) {
        Some(x) => x,
        None => return None,
    };
    let (_n_in, ins, at3) = match read_tx_input_list(b, pos, at1) {
        Some(x) => x,
        None => return None,
    };
    let (output, at5) = match read_tx_outputs(b, pos, at3) {
        Some(x) => x,
        None => return None,
    };
    let (input, at6) = match read_tx_witnesses(b, pos, at5, seg, ins) {
        Some(x) => x,
        None => return None,
    };
    let r7 = read_u32(b, at6);
    if r7.is_none() {
        assert forall|t: TransactionModel| #[trigger] transaction_at(b@, pos as int, t) implies false by {
            lemma_tx_tail_part(b@, pos as int, t);
            assert(b@.len() == len);
            assert(bytes_at(b@, at6 as int, le_u32(t.lock_time as nat)));
        }
        return None;
    }
    let (lock_time, at7) = r7.unwrap();
    let x = Transaction { version, lock_time, input, output };
    assert forall|t: TransactionModel| #[trigger] transaction_at(b@, pos as int, t) implies x@ == t
        && at7 == pos + encode_transaction(t).len() by {
        lemma_tx_tail_part(b@, pos as int, t);
            assert(b@.len() == len);
        assert(bytes_at(b@, at6 as int, le_u32(t.lock_time as nat)));
    }
    Some((x, at7))
}

} // verus!
