//! Error kinds of the loader.
//!
//! All of these are fatal at boot: the caller prints a diagnostic and halts.
//! The one exception is `SwapCrypto` when raised by a pager reading swap RAM
//! back, which is recoverable by the kernel.

use vstd::prelude::*;

verus! {

/// Everything that can go wrong while the loader runs.
#[derive(Clone, Copy, Debug, PartialEq, Eq, Structural)]
pub enum LoaderError {
    /// The argument stream is not well framed: missing or malformed first
    /// record, a length field that disagrees with the stream, or a record
    /// that overruns the stream.
    BadFraming,
    /// The checksum stored in the first record does not match the checksum
    /// of its payload.
    BadCrc,
    /// A process image lists sections whose virtual addresses decrease.
    NonMonotonicSections,
    /// An allocation would fall below the bottom of main RAM.
    OutOfRam,
    /// Authentication failed while decrypting a page of the swap source
    /// image in FLASH: the boot image is corrupt or tampered with.
    SrcCrypto,
    /// Authentication failed while decrypting a page of swap RAM.
    SwapCrypto,
}

} // verus!
