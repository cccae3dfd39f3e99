//! Bitcoin's variable-length unsigned integer ("CompactSize").
use crate::error::BitcoinError;
use crate::le::{
    le_bytes, le_value, lemma_le_bytes_len, lemma_le_value_of_bytes, lemma_pow256_values, push_le,
    read_le,
};
use vstd::prelude::*;

verus! {

/// A 64-bit unsigned value carried in the CompactSize format.
#[derive(Debug, Clone, PartialEq, Eq, Structural)]
pub struct CompactSize {
    pub value: u64,
}

/// The shortest CompactSize encoding of `v`.
pub open spec fn compact_size_bytes(v: u64) -> Seq<u8> {
    if v <= 0xFC {
        seq![v as u8]
    } else if v <= 0xFFFF {
        seq![0xFDu8] + le_bytes(v as nat, 2)
    } else if v <= 0xFFFF_FFFF {
        seq![0xFEu8] + le_bytes(v as nat, 4)
    } else {
        seq![0xFFu8] + le_bytes(v as nat, 8)
    }
}

/// How many bytes an encoding that starts with `first` occupies in all.
pub open spec fn compact_size_width(first: u8) -> nat {
    if first <= 0xFC {
        1
    } else if first == 0xFD {
        3
    } else if first == 0xFE {
        5
    } else {
        9
    }
}

/// The value at the start of `s` and the number of bytes it takes, or `None`
/// when `s` is empty or shorter than its first byte demands.
pub open spec fn parse_compact_size(s: Seq<u8>) -> Option<(u64, nat)> {
    if s.len() == 0 {
        None
    } else {
        let w = compact_size_width(s[0]);
        if s.len() < w {
            None
        } else if w == 1 {
            Some((s[0] as u64, 1))
        } else {
            Some((le_value(s.subrange(1, w as int)) as u64, w))
        }
    }
}

/// The encoding is one, three, five or nine bytes long.
pub proof fn lemma_compact_size_len(v: u64)
    ensures
        compact_size_bytes(v).len() == if v <= 0xFC {
            1nat
        } else if v <= 0xFFFF {
            3nat
        } else if v <= 0xFFFF_FFFF {
            5nat
        } else {
            9nat
        },
{
    lemma_le_bytes_len(v as nat, 2);
    lemma_le_bytes_len(v as nat, 4);
    lemma_le_bytes_len(v as nat, 8);
}

/// Decoding the encoding of `v`, whatever follows it, gives `v` and the
/// encoding's length.
pub proof fn lemma_compact_size_round_trip(v: u64, rest: Seq<u8>)
    ensures
        parse_compact_size(compact_size_bytes(v) + rest) == Some(
            (v, compact_size_bytes(v).len()),
        ),
        compact_size_bytes(v).len() <= 9,
{
    let e = compact_size_bytes(v);
    let s = e + rest;
    lemma_compact_size_len(v);
    lemma_pow256_values();
    if v > 0xFC {
        let w: nat = if v <= 0xFFFF {
            3
        } else if v <= 0xFFFF_FFFF {
            5
        } else {
            9
        };
        assert(s.subrange(1, w as int) =~= le_bytes(v as nat, (w - 1) as nat));
        lemma_le_value_of_bytes(v as nat, (w - 1) as nat);
    }
}

/// Encodes `n` in the shortest CompactSize form.
pub fn encode_compact_size(n: u64) -> (r: Vec<u8>)
    ensures
        r@ == compact_size_bytes(n),
{
    if n <= 0xFC {
        let r = vec![n as u8];
        assert(r@ =~= seq![n as u8]);
        r
    } else {
        let mut r: Vec<u8> = Vec::new();
        if n <= 0xFFFF {
            r.push(0xFD);
            push_le(&mut r, n, 2);
        } else if n <= 0xFFFF_FFFF {
            r.push(0xFE);
            push_le(&mut r, n, 4);
        } else {
            r.push(0xFF);
            push_le(&mut r, n, 8);
        }
        r
    }
}

/// Decodes the CompactSize value that starts at `pos`.
pub(crate) fn decode_compact_size_at(bytes: &[u8], pos: usize) -> (r: Result<(u64, usize), BitcoinError>)
    requires
        pos <= bytes@.len(),
    ensures
        match r {
            Ok((v, c)) => parse_compact_size(bytes@.skip(pos as int)) == Some((v, c as nat)),
            Err(e) => e == BitcoinError::InsufficientBytes && parse_compact_size(
                bytes@.skip(pos as int),
            ) is None,
        },
{
    let ghost s = bytes@.skip(pos as int);
    let len = bytes.len();
    if pos == len {
        return Err(BitcoinError::InsufficientBytes);
    }
    let first = bytes[pos];
    let width: usize = if first <= 0xFC {
        1
    } else if first == 0xFD {
        3
    } else if first == 0xFE {
        5
    } else {
        9
    };
    if len - pos < width {
        return Err(BitcoinError::InsufficientBytes);
    }
    if width == 1 {
        Ok((first as u64, 1))
    } else {
        let v = read_le(bytes, pos + 1, width - 1);
        assert(bytes@.subrange(pos + 1, pos + width) =~= s.subrange(1, width as int));
        Ok((v, width))
    }
}

/// Decodes the CompactSize value at the start of `bytes`, with the number of
/// bytes it occupies.
pub fn decode_compact_size(bytes: &[u8]) -> (r: Result<(u64, usize), BitcoinError>)
    ensures
        match r {
            Ok((v, c)) => parse_compact_size(bytes@) == Some((v, c as nat)),
            Err(e) => e == BitcoinError::InsufficientBytes && parse_compact_size(bytes@) is None,
        },
{
    assert(bytes@.skip(0) =~= bytes@);
    decode_compact_size_at(bytes, 0)
}

impl CompactSize {
    pub fn new(value: u64) -> (r: Self)
        ensures
            r.value == value,
    {
        CompactSize { value }
    }

    /// The shortest encoding of the value.
    pub fn to_bytes(&self) -> (r: Vec<u8>)
        ensures
            r@ == compact_size_bytes(self.value),
    {
        encode_compact_size(self.value)
    }

    /// Decodes a value from the start of `bytes`, with the number of bytes consumed.
    pub fn from_bytes(bytes: &[u8]) -> (r: Result<(Self, usize), BitcoinError>)
        ensures
            match r {
                Ok((cs, c)) => parse_compact_size(bytes@) == Some((cs.value, c as nat)),
                Err(e) => e == BitcoinError::InsufficientBytes && parse_compact_size(bytes@) is None,
            },
    {
        match decode_compact_size(bytes) {
            Ok((v, c)) => Ok((CompactSize::new(v), c)),
            Err(e) => Err(e),
        }
    }
}

} // verus!
