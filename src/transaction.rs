//! Transaction inputs and transactions made of inputs only.
use crate::compact_size::{compact_size_bytes, decode_compact_size_at, encode_compact_size, parse_compact_size};
use crate::error::BitcoinError;
use crate::le::{le_bytes, le_value, lemma_le_value_bound, lemma_pow256_values, push_le, read_le};
use crate::script::{decode_script_at, parse_script, script_bytes, script_wf, Script};
use crate::text::{decimal_text, push_decimal};
use crate::txid::{
    decode_outpoint_at, hex_encode, hex_text, outpoint_bytes, outpoint_wf, parse_outpoint, OutPoint, OutPointModel,
};
use vstd::prelude::*;

verus! {

/// What a transaction input holds.
pub struct TransactionInputModel {
    pub previous_output: OutPointModel,
    pub script_sig: Seq<u8>,
    pub sequence: u32,
}

/// What a transaction holds.
pub struct BitcoinTransactionModel {
    pub version: u32,
    pub inputs: Seq<TransactionInputModel>,
    pub lock_time: u32,
}

/// One input of a transaction: the output it spends, its script and its sequence number.
#[derive(Debug, Clone, PartialEq, Eq)]
pub struct TransactionInput {
    pub previous_output: OutPoint,
    pub script_sig: Script,
    pub sequence: u32,
}

impl View for TransactionInput {
    type V = TransactionInputModel;

    open spec fn view(&self) -> TransactionInputModel {
        TransactionInputModel {
            previous_output: self.previous_output@,
            script_sig: self.script_sig@,
            sequence: self.sequence,
        }
    }
}

/// A transaction: version, inputs in order, lock time.
#[derive(Debug, Clone, PartialEq, Eq)]
pub struct BitcoinTransaction {
    pub version: u32,
    pub inputs: Vec<TransactionInput>,
    pub lock_time: u32,
}

/// What each input of `v` holds, in order.
pub open spec fn input_views(v: Seq<TransactionInput>) -> Seq<TransactionInputModel> {
    v.map_values(|i: TransactionInput| i@)
}

impl View for BitcoinTransaction {
    type V = BitcoinTransactionModel;

    open spec fn view(&self) -> BitcoinTransactionModel {
        BitcoinTransactionModel {
            version: self.version,
            inputs: input_views(self.inputs@),
            lock_time: self.lock_time,
        }
    }
}

/// An input that a value of `TransactionInput` can hold.
pub open spec fn input_wf(i: TransactionInputModel) -> bool {
    outpoint_wf(i.previous_output) && script_wf(i.script_sig)
}

/// A transaction that a value of `BitcoinTransaction` can hold.
pub open spec fn transaction_wf(t: BitcoinTransactionModel) -> bool {
    &&& t.inputs.len() <= u64::MAX
    &&& forall|k: int| 0 <= k < t.inputs.len() ==> input_wf(#[trigger] t.inputs[k])
}

/// The outpoint, the script with its length, then the sequence number in little-endian order.
pub open spec fn input_bytes(i: TransactionInputModel) -> Seq<u8> {
    outpoint_bytes(i.previous_output) + script_bytes(i.script_sig) + le_bytes(i.sequence as nat, 4)
}

/// The inputs' encodings one after another.
pub open spec fn inputs_bytes(xs: Seq<TransactionInputModel>) -> Seq<u8>
    decreases xs.len(),
{
    if xs.len() == 0 {
        Seq::empty()
    } else {
        inputs_bytes(xs.drop_last()) + input_bytes(xs.last())
    }
}

/// Version, input count as a CompactSize, the inputs, then the lock time.
pub open spec fn transaction_bytes(t: BitcoinTransactionModel) -> Seq<u8> {
    le_bytes(t.version as nat, 4) + compact_size_bytes(t.inputs.len() as u64) + inputs_bytes(
        t.inputs,
    ) + le_bytes(t.lock_time as nat, 4)
}

/// The input at the start of `s` and the bytes it takes, or `None` when one of
/// its parts does not fit.
pub open spec fn parse_input(s: Seq<u8>) -> Option<(TransactionInputModel, nat)> {
    match parse_outpoint(s) {
        None => None,
        Some((o, a)) => match parse_script(s.skip(a as int)) {
            None => None,
            Some((sc, b)) => if s.len() < a + b + 4 {
                None
            } else {
                Some(
                    (
                        TransactionInputModel {
                            previous_output: o,
                            script_sig: sc,
                            sequence: le_value(s.subrange((a + b) as int, (a + b + 4) as int)) as u32,
                        },
                        (a + b + 4) as nat,
                    ),
                )
            },
        },
    }
}

/// `k` inputs read one after another from the start of `s`, with the bytes
/// they take, or `None` when one of them does not fit.
pub open spec fn parse_inputs(s: Seq<u8>, k: nat) -> Option<(Seq<TransactionInputModel>, nat)>
    decreases k,
{
    if k == 0 {
        Some((Seq::empty(), 0))
    } else {
        match parse_inputs(s, (k - 1) as nat) {
            None => None,
            Some((xs, c)) => match parse_input(s.skip(c as int)) {
                None => None,
                Some((x, d)) => Some((xs.push(x), c + d)),
            },
        }
    }
}

/// The transaction at the start of `s` and the bytes it takes, or `None`
/// when one of its parts does not fit.
pub open spec fn parse_transaction(s: Seq<u8>) -> Option<(BitcoinTransactionModel, nat)> {
    if s.len() < 4 {
        None
    } else {
        match parse_compact_size(s.skip(4)) {
            None => None,
            Some((n, p)) => match parse_inputs(s.skip((4 + p) as int), n as nat) {
                None => None,
                Some((xs, c)) => if s.len() < 4 + p + c + 4 {
                    None
                } else {
                    Some(
                        (
                            BitcoinTransactionModel {
                                version: le_value(s.subrange(0, 4)) as u32,
                                inputs: xs,
                                lock_time: le_value(s.subrange((4 + p + c) as int, (4 + p + c + 4) as int)) as u32,
                            },
                            (4 + p + c + 4) as nat,
                        ),
                    )
                },
            },
        }
    }
}

/// The diagnostic text of the input at position `k`: its index, the spent
/// output's identifier in hexadecimal and its index, the script's length and
/// hexadecimal bytes, and the sequence number, one per line.
pub open spec fn input_text(k: nat, i: TransactionInputModel) -> Seq<char> {
    "Input #"@ + decimal_text(k) + "\n  Previous Output TXID: "@ + hex_text(
        i.previous_output.txid,
    ) + "\n  Previous Output Vout: "@ + decimal_text(i.previous_output.vout as nat)
        + "\n  ScriptSig ("@ + decimal_text(i.script_sig.len()) + " bytes): "@ + hex_text(
        i.script_sig,
    ) + "\n  Sequence: "@ + decimal_text(i.sequence as nat) + "\n"@
}

/// The texts of the inputs of `xs`, numbered from zero, one after another.
pub open spec fn inputs_text(xs: Seq<TransactionInputModel>) -> Seq<char>
    decreases xs.len(),
{
    if xs.len() == 0 {
        Seq::empty()
    } else {
        inputs_text(xs.drop_last()) + input_text((xs.len() - 1) as nat, xs.last())
    }
}

/// The diagnostic text of a transaction: the version line, each input's
/// lines, then the lock time line.
pub open spec fn transaction_text(t: BitcoinTransactionModel) -> Seq<char> {
    "Version: "@ + decimal_text(t.version as nat) + "\n"@ + inputs_text(t.inputs) + "Lock Time: "@
        + decimal_text(t.lock_time as nat) + "\n"@
}

/// Once an input fails to fit, every longer run of inputs fails too.
pub proof fn lemma_parse_inputs_stays_none(s: Seq<u8>, k: nat, m: nat)
    requires
        k <= m,
        parse_inputs(s, k) is None,
    ensures
        parse_inputs(s, m) is None,
    decreases m,
{
    if k < m {
        lemma_parse_inputs_stays_none(s, k, (m - 1) as nat);
    }
}

/// What a successful run of inputs consumes lies within `s`.
pub proof fn lemma_parse_inputs_within(s: Seq<u8>, k: nat)
    ensures
        parse_inputs(s, k) matches Some((xs, c)) ==> c <= s.len() && xs.len() == k,
    decreases k,
{
    if k > 0 {
        lemma_parse_inputs_within(s, (k - 1) as nat);
    }
}

/// Decodes the input that starts at `pos`.
pub(crate) fn decode_input_at(bytes: &[u8], pos: usize) -> (r: Result<(TransactionInput, usize), BitcoinError>)
    requires
        pos <= bytes@.len(),
    ensures
        match r {
            Ok((i, c)) => parse_input(bytes@.skip(pos as int)) == Some((i@, c as nat)),
            Err(e) => e == BitcoinError::InsufficientBytes && parse_input(
                bytes@.skip(pos as int),
            ) is None,
        },
{
    let ghost s = bytes@.skip(pos as int);
    let len = bytes.len();
    let (previous_output, a) = match decode_outpoint_at(bytes, pos) {
        Ok(x) => x,
        Err(e) => {
            return Err(e);
        },
    };
    assert(s.skip(a as int) =~= bytes@.skip(pos + a));
    let (script_sig, b) = match decode_script_at(bytes, pos + a) {
        Ok(x) => x,
        Err(e) => {
            return Err(e);
        },
    };
    if len - pos - a - b < 4 {
        return Err(BitcoinError::InsufficientBytes);
    }
    let at = pos + a + b;
    let sequence = read_le(bytes, at, 4);
    proof {
        lemma_le_value_bound(bytes@.subrange(at as int, at + 4));
        lemma_pow256_values();
    }
    assert(bytes@.subrange(at as int, at + 4) =~= s.subrange(a + b, a + b + 4));
    Ok((TransactionInput::new(previous_output, script_sig, sequence as u32), a + b + 4))
}

/// Appends the diagnostic text of `input`, numbered `k`, to `r`.
fn push_input_text(r: &mut String, k: usize, input: &TransactionInput)
    ensures
        final(r)@ == old(r)@ + input_text(k as nat, input@),
{
    r.append("Input #");
    push_decimal(r, k as u64);
    r.append("\n  Previous Output TXID: ");
    let id = hex_encode(&input.previous_output.txid.0);
    r.append(id.as_str());
    r.append("\n  Previous Output Vout: ");
    push_decimal(r, input.previous_output.vout as u64);
    r.append("\n  ScriptSig (");
    push_decimal(r, input.script_sig.bytes.len() as u64);
    r.append(" bytes): ");
    let body = hex_encode(input.script_sig.bytes.as_slice());
    r.append(body.as_str());
    r.append("\n  Sequence: ");
    push_decimal(r, input.sequence as u64);
    r.append("\n");
    assert(r@ =~= old(r)@ + input_text(k as nat, input@));
}

impl TransactionInput {
    pub fn new(previous_output: OutPoint, script_sig: Script, sequence: u32) -> (r: Self)
        ensures
            r.previous_output == previous_output,
            r.script_sig == script_sig,
            r.sequence == sequence,
    {
        TransactionInput { previous_output, script_sig, sequence }
    }

    /// The outpoint's 36 bytes, the script with its length, then the sequence
    /// number as 4 little-endian bytes.
    pub fn to_bytes(&self) -> (r: Vec<u8>)
        ensures
            r@ == input_bytes(self@),
            input_wf(self@),
    {
        let mut r = self.previous_output.to_bytes();
        let mut sc = self.script_sig.to_bytes();
        r.append(&mut sc);
        push_le(&mut r, self.sequence as u64, 4);
        r
    }

    /// Decodes an input from the start of `bytes`, with the number of bytes consumed.
    pub fn from_bytes(bytes: &[u8]) -> (r: Result<(Self, usize), BitcoinError>)
        ensures
            match r {
                Ok((i, c)) => parse_input(bytes@) == Some((i@, c as nat)),
                Err(e) => e == BitcoinError::InsufficientBytes && parse_input(bytes@) is None,
            },
    {
        assert(bytes@.skip(0) =~= bytes@);
        decode_input_at(bytes, 0)
    }
}

impl BitcoinTransaction {
    pub fn new(version: u32, inputs: Vec<TransactionInput>, lock_time: u32) -> (r: Self)
        ensures
            r.version == version,
            r.inputs@ == inputs@,
            r.lock_time == lock_time,
    {
        BitcoinTransaction { version, inputs, lock_time }
    }

    /// Version as 4 little-endian bytes, the input count as a CompactSize,
    /// each input in order, then the lock time as 4 little-endian bytes.
    pub fn to_bytes(&self) -> (r: Vec<u8>)
        ensures
            r@ == transaction_bytes(self@),
            transaction_wf(self@),
    {
        let mut r: Vec<u8> = Vec::new();
        push_le(&mut r, self.version as u64, 4);
        let mut count = encode_compact_size(self.inputs.len() as u64);
        r.append(&mut count);
        let ghost head = r@;
        let ghost views = input_views(self.inputs@);
        let mut i: usize = 0;
        while i < self.inputs.len()
            invariant
                i <= self.inputs@.len(),
                views == input_views(self.inputs@),
                r@ == head + inputs_bytes(views.subrange(0, i as int)),
                forall|k: int| 0 <= k < i ==> input_wf(#[trigger] views[k]),
            decreases self.inputs@.len() - i,
        {
            let mut b = self.inputs[i].to_bytes();
            assert(views.subrange(0, i + 1).drop_last() =~= views.subrange(0, i as int));
            r.append(&mut b);
            assert(r@ =~= head + inputs_bytes(views.subrange(0, i + 1)));
            i = i + 1;
        }
        assert(views.subrange(0, self.inputs@.len() as int) =~= views);
        push_le(&mut r, self.lock_time as u64, 4);
        r
    }

    /// A multi-line diagnostic rendering of the transaction.
    pub fn to_text(&self) -> (r: String)
        ensures
            r@ == transaction_text(self@),
    {
        let mut r = String::new();
        r.append("Version: ");
        push_decimal(&mut r, self.version as u64);
        r.append("\n");
        let ghost head = r@;
        let ghost views = input_views(self.inputs@);
        let mut k: usize = 0;
        while k < self.inputs.len()
            invariant
                k <= self.inputs@.len(),
                views == input_views(self.inputs@),
                r@ == head + inputs_text(views.subrange(0, k as int)),
            decreases self.inputs@.len() - k,
        {
            let ghost before = r@;
            push_input_text(&mut r, k, &self.inputs[k]);
            assert(views.subrange(0, k + 1).drop_last() =~= views.subrange(0, k as int));
            assert(r@ =~= before + input_text(k as nat, views[k as int]));
            assert(r@ =~= head + inputs_text(views.subrange(0, k + 1)));
            k = k + 1;
        }
        assert(views.subrange(0, self.inputs@.len() as int) =~= views);
        r.append("Lock Time: ");
        push_decimal(&mut r, self.lock_time as u64);
        r.append("\n");
        assert(r@ =~= transaction_text(self@));
        r
    }

    /// Decodes a transaction from the start of `bytes`, with the number of
    /// bytes consumed. Fails as soon as a field does not fit, including when
    /// the input count asks for more inputs than the buffer holds.
    pub fn from_bytes(bytes: &[u8]) -> (r: Result<(Self, usize), BitcoinError>)
        ensures
            match r {
                Ok((t, c)) => parse_transaction(bytes@) == Some((t@, c as nat)),
                Err(e) => e == BitcoinError::InsufficientBytes && parse_transaction(bytes@) is None,
            },
    {
        let len = bytes.len();
        if len < 4 {
            return Err(BitcoinError::InsufficientBytes);
        }
        let version = read_le(bytes, 0, 4);
        let (count, p) = match decode_compact_size_at(bytes, 4) {
            Ok(x) => x,
            Err(e) => {
                return Err(e);
            },
        };
        let start: usize = 4 + p;
        let ghost base = bytes@.skip(start as int);
        let mut offset: usize = start;
        let mut inputs: Vec<TransactionInput> = Vec::new();
        let mut i: u64 = 0;
        while i < count
            invariant
                i <= count,
                start == 4 + p,
                parse_compact_size(bytes@.skip(4)) == Some((count, p as nat)),
                start <= offset <= len == bytes@.len(),
                base == bytes@.skip(start as int),
                parse_inputs(base, i as nat) == Some(
                    (input_views(inputs@), (offset - start) as nat),
                ),
            decreases count - i,
        {
            assert(base.skip(offset - start) =~= bytes@.skip(offset as int));
            let (input, c) = match decode_input_at(bytes, offset) {
                Ok(x) => x,
                Err(e) => {
                    proof {
                        assert(parse_input(base.skip((offset - start) as int)) is None);
                        assert(parse_inputs(base, (i + 1) as nat) is None);
                        lemma_parse_inputs_stays_none(base, (i + 1) as nat, count as nat);
                        assert(bytes@.skip(4).skip(p as int) =~= base);
                    }
                    return Err(e);
                },
            };
            let ghost before = inputs@;
            inputs.push(input);
            assert(input_views(inputs@) =~= input_views(before).push(input@));
            offset = offset + c;
            i = i + 1;
        }
        if len - offset < 4 {
            return Err(BitcoinError::InsufficientBytes);
        }
        let lock_time = read_le(bytes, offset, 4);
        proof {
            lemma_le_value_bound(bytes@.subrange(0, 4));
            lemma_le_value_bound(bytes@.subrange(offset as int, offset + 4));
            lemma_pow256_values();
            assert(bytes@.skip(4).skip(p as int) =~= base);
        }
        Ok((BitcoinTransaction::new(version as u32, inputs, lock_time as u32), offset + 4))
    }
}

} // verus!
