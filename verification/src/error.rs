use vstd::prelude::*;

verus! {

/// The ways record parsing and encoding can fail.
///
/// `InvalidRecord` marks an unrecognized record content-type tag;
/// `InvalidLength` a bounds-checked read that ran past the end of its
/// buffer; `InvalidHandshake` a malformed handshake message;
/// `InvalidExtensionsLength` a declared extension-block length that does
/// not match the bytes actually present; `Unimplemented` a syntactically
/// valid but unsupported wire value; `InsufficientSpace` a fixed-capacity
/// destination too small for the encoded record; `ConnectionClosed` a
/// transport stream that ended before a full read completed.
#[derive(Clone, Copy, PartialEq, Eq, Structural, Debug)]
pub enum TlsError {
    InvalidRecord,
    InvalidLength,
    InvalidHandshake,
    InvalidExtensionsLength,
    Unimplemented,
    InsufficientSpace,
    ConnectionClosed,
}

} // verus!
