//! Transaction identifiers, their hexadecimal text form, and outpoints.
use crate::error::BitcoinError;
use crate::le::{le_bytes, le_value, push_le, read_le};
use vstd::prelude::*;

verus! {

/// The error type of hex::decode, carried through opaquely and mapped to
/// `BitcoinError::InvalidFormat`.
#[verifier::external_type_specification]
#[verifier::external_body]
pub struct ExFromHexError(hex::FromHexError);

/// A 32-byte transaction identifier.
#[derive(Debug, Clone, PartialEq, Eq)]
pub struct Txid(pub [u8; 32]);

impl View for Txid {
    type V = Seq<u8>;

    open spec fn view(&self) -> Seq<u8> {
        self.0@
    }
}

/// The lowercase hexadecimal digit for `d`, which is below sixteen.
pub open spec fn hex_digit(d: u8) -> char {
    if d < 10 {
        ((48 + d) as u8) as char
    } else {
        ((87 + d) as u8) as char
    }
}

/// Two lowercase hexadecimal digits for each byte of `b`, high half first.
pub open spec fn hex_text(b: Seq<u8>) -> Seq<char> {
    Seq::new(
        2 * b.len(),
        |i: int|
            if i % 2 == 0 {
                hex_digit(b[i / 2] / 16)
            } else {
                hex_digit(b[i / 2] % 16)
            },
    )
}

/// The value of a hexadecimal digit of either case.
pub open spec fn hex_char_value(c: char) -> Option<u8> {
    if '0' <= c && c <= '9' {
        Some((c as u32 - 48) as u8)
    } else if 'a' <= c && c <= 'f' {
        Some((c as u32 - 87) as u8)
    } else if 'A' <= c && c <= 'F' {
        Some((c as u32 - 55) as u8)
    } else {
        None
    }
}

/// `s` is an even number of hexadecimal digits.
pub open spec fn is_hex_text(s: Seq<char>) -> bool {
    &&& s.len() % 2 == 0
    &&& forall|i: int| 0 <= i < s.len() ==> (#[trigger] hex_char_value(s[i])) is Some
}

/// The bytes that the digit pairs of `s` stand for.
pub open spec fn hex_value(s: Seq<char>) -> Seq<u8> {
    Seq::new(
        s.len() / 2,
        |i: int|
            (hex_char_value(s[2 * i])->0 * 16 + hex_char_value(s[2 * i + 1])->0) as u8,
    )
}

/// Relies on hex::encode: two lowercase digits for each byte, high half first.
#[verifier::external_body]
pub(crate) fn hex_encode(b: &[u8]) -> (r: String)
    ensures
        r@ == hex_text(b@),
{
    hex::encode(b)
}

/// Relies on hex::decode: it accepts exactly an even number of hexadecimal
/// digits of either case, and turns each pair into one byte, high half first.
#[verifier::external_body]
fn hex_decode(s: &str) -> (r: Result<Vec<u8>, hex::FromHexError>)
    ensures
        match r {
            Ok(v) => is_hex_text(s@) && v@ == hex_value(s@),
            Err(_) => !is_hex_text(s@),
        },
{
    hex::decode(s)
}

/// Every digit that `hex_digit` writes reads back as its value.
pub proof fn lemma_hex_digit_value(d: u8)
    requires
        d < 16,
    ensures
        hex_char_value(hex_digit(d)) == Some(d),
{
}

/// The text of `b` is hexadecimal and stands for `b`.
pub proof fn lemma_hex_text_value(b: Seq<u8>)
    ensures
        is_hex_text(hex_text(b)),
        hex_value(hex_text(b)) == b,
{
    let t = hex_text(b);
    assert forall|i: int| 0 <= i < t.len() implies (#[trigger] hex_char_value(t[i])) is Some by {
        lemma_hex_digit_value(b[i / 2] / 16);
        lemma_hex_digit_value(b[i / 2] % 16);
    }
    assert forall|i: int| 0 <= i < b.len() implies #[trigger] hex_value(t)[i] == b[i] by {
        assert((2 * i) / 2 == i && (2 * i + 1) / 2 == i);
        lemma_hex_digit_value(b[i] / 16);
        lemma_hex_digit_value(b[i] % 16);
    }
    assert(hex_value(t) =~= b);
}

impl Txid {
    /// The identifier as 64 lowercase hexadecimal digits.
    pub fn to_hex(&self) -> (r: String)
        ensures
            r@ == hex_text(self@),
    {
        hex_encode(&self.0)
    }

    /// Reads an identifier from hexadecimal text of either case; the text must
    /// stand for exactly 32 bytes.
    pub fn from_hex(s: &str) -> (r: Result<Txid, BitcoinError>)
        ensures
            match r {
                Ok(t) => is_hex_text(s@) && s@.len() == 64 && t@ == hex_value(s@),
                Err(e) => e == BitcoinError::InvalidFormat && !(is_hex_text(s@) && s@.len()
                    == 64),
            },
    {
        match hex_decode(s) {
            Ok(v) => {
                if v.len() != 32 {
                    return Err(BitcoinError::InvalidFormat);
                }
                let mut arr = [0u8; 32];
                let mut i: usize = 0;
                while i < 32
                    invariant
                        i <= 32,
                        v@.len() == 32,
                        forall|k: int| 0 <= k < i ==> arr@[k] == v@[k],
                    decreases 32 - i,
                {
                    arr[i] = v[i];
                    i = i + 1;
                }
                assert(arr@ =~= v@);
                Ok(Txid(arr))
            },
            Err(_) => Err(BitcoinError::InvalidFormat),
        }
    }
}

/// What an outpoint holds: the identifier's bytes and the output index.
pub struct OutPointModel {
    pub txid: Seq<u8>,
    pub vout: u32,
}

/// A reference to one output of an earlier transaction.
#[derive(Debug, Clone, PartialEq, Eq)]
pub struct OutPoint {
    pub txid: Txid,
    pub vout: u32,
}

impl View for OutPoint {
    type V = OutPointModel;

    open spec fn view(&self) -> OutPointModel {
        OutPointModel { txid: self.txid@, vout: self.vout }
    }
}

/// An outpoint that a value of `OutPoint` can hold: its identifier has 32 bytes.
pub open spec fn outpoint_wf(o: OutPointModel) -> bool {
    o.txid.len() == 32
}

/// The 36 bytes of an outpoint: the identifier, then the index in little-endian order.
pub open spec fn outpoint_bytes(o: OutPointModel) -> Seq<u8> {
    o.txid + le_bytes(o.vout as nat, 4)
}

/// The outpoint at the start of `s` and the 36 bytes it takes, or `None` when
/// fewer than 36 bytes are there.
pub open spec fn parse_outpoint(s: Seq<u8>) -> Option<(OutPointModel, nat)> {
    if s.len() < 36 {
        None
    } else {
        Some(
            (
                OutPointModel {
                    txid: s.subrange(0, 32),
                    vout: le_value(s.subrange(32, 36)) as u32,
                },
                36,
            ),
        )
    }
}

/// Appends the bytes of `b` to `out`.
pub(crate) fn push_all(out: &mut Vec<u8>, b: &[u8])
    ensures
        final(out)@ == old(out)@ + b@,
{
    let mut i: usize = 0;
    while i < b.len()
        invariant
            i <= b@.len(),
            out@ == old(out)@ + b@.subrange(0, i as int),
        decreases b@.len() - i,
    {
        out.push(b[i]);
        assert(b@.subrange(0, i + 1) =~= b@.subrange(0, i as int).push(b@[i as int]));
        i = i + 1;
    }
    assert(b@.subrange(0, b@.len() as int) =~= b@);
}

/// Decodes the outpoint that starts at `pos`.
pub(crate) fn decode_outpoint_at(bytes: &[u8], pos: usize) -> (r: Result<(OutPoint, usize), BitcoinError>)
    requires
        pos <= bytes@.len(),
    ensures
        match r {
            Ok((o, c)) => parse_outpoint(bytes@.skip(pos as int)) == Some((o@, c as nat)),
            Err(e) => e == BitcoinError::InsufficientBytes && parse_outpoint(
                bytes@.skip(pos as int),
            ) is None,
        },
{
    let ghost s = bytes@.skip(pos as int);
    let len = bytes.len();
    if len - pos < 36 {
        return Err(BitcoinError::InsufficientBytes);
    }
    let mut arr = [0u8; 32];
    let mut i: usize = 0;
    while i < 32
        invariant
            i <= 32,
            pos + 36 <= len == bytes@.len(),
            forall|k: int| 0 <= k < i ==> arr@[k] == bytes@[pos + k],
        decreases 32 - i,
    {
        arr[i] = bytes[pos + i];
        i = i + 1;
    }
    let vout = read_le(bytes, pos + 32, 4);
    proof {
        crate::le::lemma_le_value_bound(bytes@.subrange(pos + 32, pos + 36));
        crate::le::lemma_pow256_values();
    }
    assert(arr@ =~= s.subrange(0, 32));
    assert(bytes@.subrange(pos + 32, pos + 36) =~= s.subrange(32, 36));
    Ok((OutPoint::new(arr, vout as u32), 36))
}

impl OutPoint {
    pub fn new(txid: [u8; 32], vout: u32) -> (r: Self)
        ensures
            r.txid.0 == txid,
            r.vout == vout,
    {
        OutPoint { txid: Txid(txid), vout }
    }

    /// The identifier's 32 bytes followed by the index as 4 little-endian bytes.
    pub fn to_bytes(&self) -> (r: Vec<u8>)
        ensures
            r@ == outpoint_bytes(self@),
            outpoint_wf(self@),
    {
        let mut r: Vec<u8> = Vec::new();
        push_all(&mut r, &self.txid.0);
        push_le(&mut r, self.vout as u64, 4);
        r
    }

    /// Decodes an outpoint from the first 36 bytes of `bytes`.
    pub fn from_bytes(bytes: &[u8]) -> (r: Result<(Self, usize), BitcoinError>)
        ensures
            match r {
                Ok((o, c)) => parse_outpoint(bytes@) == Some((o@, c as nat)),
                Err(e) => e == BitcoinError::InsufficientBytes && parse_outpoint(bytes@) is None,
            },
    {
        assert(bytes@.skip(0) =~= bytes@);
        decode_outpoint_at(bytes, 0)
    }
}

} // verus!
