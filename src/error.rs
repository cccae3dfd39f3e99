use vstd::prelude::*;

verus! {

/// The two ways a decode can fail.
#[derive(Debug, Clone, Copy, PartialEq, Eq, Structural)]
pub enum BitcoinError {
    /// The buffer is shorter than a field's fixed or declared width.
    InsufficientBytes,
    /// Text that is not hexadecimal, or that decodes to the wrong number of bytes.
    InvalidFormat,
}

} // verus!
