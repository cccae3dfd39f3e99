//! Scripts: opaque byte strings behind a CompactSize length.
use crate::compact_size::{
    compact_size_bytes, decode_compact_size_at, encode_compact_size, lemma_compact_size_len,
    parse_compact_size,
};
use crate::error::BitcoinError;
use crate::txid::push_all;
use vstd::prelude::*;

verus! {

/// An uninterpreted byte string, possibly empty.
#[derive(Debug, Clone, PartialEq, Eq)]
pub struct Script {
    pub bytes: Vec<u8>,
}

impl View for Script {
    type V = Seq<u8>;

    open spec fn view(&self) -> Seq<u8> {
        self.bytes@
    }
}

/// A script whose length a CompactSize can carry.
pub open spec fn script_wf(b: Seq<u8>) -> bool {
    b.len() <= u64::MAX
}

/// The length of `b` as a CompactSize, followed by `b` itself.
pub open spec fn script_bytes(b: Seq<u8>) -> Seq<u8> {
    compact_size_bytes(b.len() as u64) + b
}

/// The script at the start of `s` and the bytes it takes, or `None` when the
/// length prefix or the body it declares does not fit in `s`.
pub open spec fn parse_script(s: Seq<u8>) -> Option<(Seq<u8>, nat)> {
    match parse_compact_size(s) {
        None => None,
        Some((n, p)) => if s.len() < p + n {
            None
        } else {
            Some((s.subrange(p as int, p + n), (p + n) as nat))
        },
    }
}

/// Decodes the script that starts at `pos`.
pub(crate) fn decode_script_at(bytes: &[u8], pos: usize) -> (r: Result<(Script, usize), BitcoinError>)
    requires
        pos <= bytes@.len(),
    ensures
        match r {
            Ok((sc, c)) => parse_script(bytes@.skip(pos as int)) == Some((sc@, c as nat)),
            Err(e) => e == BitcoinError::InsufficientBytes && parse_script(
                bytes@.skip(pos as int),
            ) is None,
        },
{
    let ghost s = bytes@.skip(pos as int);
    let (n, p) = match decode_compact_size_at(bytes, pos) {
        Ok(x) => x,
        Err(e) => {
            return Err(e);
        },
    };
    let len = bytes.len();
    if ((len - pos - p) as u64) < n {
        return Err(BitcoinError::InsufficientBytes);
    }
    let n = n as usize;
    let start = pos + p;
    let mut body: Vec<u8> = Vec::new();
    let mut i: usize = 0;
    while i < n
        invariant
            i <= n,
            start + n <= len == bytes@.len(),
            body@ == bytes@.subrange(start as int, start + i),
        decreases n - i,
    {
        body.push(bytes[start + i]);
        assert(bytes@.subrange(start as int, start + i + 1) =~= bytes@.subrange(
            start as int,
            start + i,
        ).push(bytes@[start + i]));
        i = i + 1;
    }
    assert(body@ =~= s.subrange(p as int, p + n));
    Ok((Script::new(body), p + n))
}

impl Script {
    pub fn new(bytes: Vec<u8>) -> (r: Self)
        ensures
            r@ == bytes@,
    {
        Script { bytes }
    }

    /// The length as a CompactSize, then the bytes.
    pub fn to_bytes(&self) -> (r: Vec<u8>)
        ensures
            r@ == script_bytes(self@),
            script_wf(self@),
    {
        let mut r = encode_compact_size(self.bytes.len() as u64);
        push_all(&mut r, self.bytes.as_slice());
        r
    }

    /// Decodes a script from the start of `bytes`, with the number of bytes consumed.
    pub fn from_bytes(bytes: &[u8]) -> (r: Result<(Self, usize), BitcoinError>)
        ensures
            match r {
                Ok((sc, c)) => parse_script(bytes@) == Some((sc@, c as nat)),
                Err(e) => e == BitcoinError::InsufficientBytes && parse_script(bytes@) is None,
            },
    {
        assert(bytes@.skip(0) =~= bytes@);
        decode_script_at(bytes, 0)
    }
}

impl core::ops::Deref for Script {
    type Target = Vec<u8>;

    fn deref(&self) -> (r: &Vec<u8>)
        ensures
            r@ == self@,
    {
        &self.bytes
    }
}

} // verus!
