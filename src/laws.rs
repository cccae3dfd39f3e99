//! Properties that relate encoding and decoding.
use crate::compact_size::{compact_size_bytes, lemma_compact_size_round_trip};
use crate::le::{le_bytes, lemma_le_bytes_len, lemma_le_value_of_bytes, lemma_pow256_values};
use crate::script::{parse_script, script_bytes, script_wf};
use crate::transaction::{
    input_bytes, input_wf, inputs_bytes, parse_input, parse_inputs, parse_transaction,
    transaction_bytes, transaction_wf, BitcoinTransactionModel, TransactionInputModel,
};
use crate::txid::{
    hex_text, hex_value, is_hex_text, lemma_hex_text_value, outpoint_bytes, outpoint_wf, parse_outpoint,
    OutPointModel, Txid,
};
use vstd::prelude::*;

verus! {

/// Decoding the 36 bytes of an outpoint, whatever bytes follow them, gives
/// the outpoint back and consumes 36 bytes.
pub proof fn outpoint_round_trip(o: OutPointModel, rest: Seq<u8>)
    requires
        outpoint_wf(o),
    ensures
        outpoint_bytes(o).len() == 36,
        parse_outpoint(outpoint_bytes(o) + rest) == Some((o, 36nat)),
{
    let s = outpoint_bytes(o) + rest;
    lemma_le_bytes_len(o.vout as nat, 4);
    lemma_pow256_values();
    lemma_le_value_of_bytes(o.vout as nat, 4);
    assert(s.subrange(0, 32) =~= o.txid);
    assert(s.subrange(32, 36) =~= le_bytes(o.vout as nat, 4));
}

/// An outpoint decodes from any 36 bytes or more, and from nothing shorter.
pub proof fn outpoint_needs_36_bytes(s: Seq<u8>)
    ensures
        s.len() < 36 ==> parse_outpoint(s) is None,
        s.len() >= 36 ==> (parse_outpoint(s) matches Some((_, c)) && c == 36),
{
}

/// Decoding an encoded script, whatever bytes follow it, gives the script back
/// and consumes exactly the encoding.
pub proof fn script_round_trip(b: Seq<u8>, rest: Seq<u8>)
    requires
        script_wf(b),
    ensures
        parse_script(script_bytes(b) + rest) == Some((b, script_bytes(b).len())),
{
    let n = b.len() as u64;
    let cs = compact_size_bytes(n);
    lemma_compact_size_round_trip(n, b + rest);
    assert(script_bytes(b) + rest =~= cs + (b + rest));
    assert((cs + (b + rest)).subrange(cs.len() as int, cs.len() + n) =~= b);
}

/// Decoding an encoded transaction input, whatever bytes follow it, gives the
/// input back and consumes exactly the encoding.
pub proof fn input_round_trip(i: TransactionInputModel, rest: Seq<u8>)
    requires
        input_wf(i),
    ensures
        parse_input(input_bytes(i) + rest) == Some((i, input_bytes(i).len())),
{
    let ob = outpoint_bytes(i.previous_output);
    let sb = script_bytes(i.script_sig);
    let qb = le_bytes(i.sequence as nat, 4);
    let s = input_bytes(i) + rest;
    assert(s =~= ob + (sb + qb + rest));
    outpoint_round_trip(i.previous_output, sb + qb + rest);
    assert(s.skip(36) =~= sb + (qb + rest));
    script_round_trip(i.script_sig, qb + rest);
    lemma_le_bytes_len(i.sequence as nat, 4);
    lemma_pow256_values();
    lemma_le_value_of_bytes(i.sequence as nat, 4);
    assert(s.subrange(36 + sb.len() as int, 36 + sb.len() as int + 4) =~= qb);
}

/// Decoding the encodings of `xs` one after another, whatever bytes follow
/// them, gives `xs` back and consumes exactly those encodings.
pub proof fn inputs_round_trip(xs: Seq<TransactionInputModel>, rest: Seq<u8>)
    requires
        forall|k: int| 0 <= k < xs.len() ==> input_wf(#[trigger] xs[k]),
    ensures
        parse_inputs(inputs_bytes(xs) + rest, xs.len()) == Some((xs, inputs_bytes(xs).len())),
    decreases xs.len(),
{
    if xs.len() == 0 {
        assert(inputs_bytes(xs) + rest =~= rest);
    } else {
        let ys = xs.drop_last();
        let x = xs.last();
        let xb = input_bytes(x);
        let s = inputs_bytes(xs) + rest;
        assert(s =~= inputs_bytes(ys) + (xb + rest));
        assert forall|k: int| 0 <= k < ys.len() implies input_wf(#[trigger] ys[k]) by {
            assert(ys[k] == xs[k]);
        }
        inputs_round_trip(ys, xb + rest);
        let c = inputs_bytes(ys).len();
        assert(s.skip(c as int) =~= xb + rest);
        assert(input_wf(xs[xs.len() - 1]));
        input_round_trip(x, rest);
        assert(ys.push(x) =~= xs);
    }
}

/// Decoding an encoded transaction, whatever bytes follow it, gives the
/// transaction back and consumes exactly the encoding.
pub proof fn transaction_round_trip(t: BitcoinTransactionModel, rest: Seq<u8>)
    requires
        transaction_wf(t),
    ensures
        parse_transaction(transaction_bytes(t) + rest) == Some((t, transaction_bytes(t).len())),
{
    let vb = le_bytes(t.version as nat, 4);
    let n = t.inputs.len() as u64;
    let cb = compact_size_bytes(n);
    let ib = inputs_bytes(t.inputs);
    let lb = le_bytes(t.lock_time as nat, 4);
    let s = transaction_bytes(t) + rest;
    lemma_le_bytes_len(t.version as nat, 4);
    lemma_le_bytes_len(t.lock_time as nat, 4);
    lemma_pow256_values();
    lemma_le_value_of_bytes(t.version as nat, 4);
    lemma_le_value_of_bytes(t.lock_time as nat, 4);
    assert(s.subrange(0, 4) =~= vb);
    assert(s.skip(4) =~= cb + (ib + lb + rest));
    lemma_compact_size_round_trip(n, ib + lb + rest);
    let p = cb.len() as int;
    assert(s.skip(4 + p) =~= ib + (lb + rest));
    inputs_round_trip(t.inputs, lb + rest);
    let c = ib.len() as int;
    assert(s.subrange(4 + p + c, 4 + p + c + 4) =~= lb);
}

/// The text form of an identifier is 64 hexadecimal digits that read back as
/// the identifier.
pub proof fn txid_text_round_trip(t: Txid)
    ensures
        hex_text(t@).len() == 64,
        is_hex_text(hex_text(t@)),
        hex_value(hex_text(t@)) == t@,
{
    lemma_hex_text_value(t@);
}

} // verus!
