//! Lazy, double-ended views of a byte source as nibbles or as lowercase
//! hexadecimal characters.
//!
//! A byte is split into its high and its low nibble, in that order. The
//! adaptors read their source one byte at a time and hold at most one byte
//! per end, so nothing is buffered.

use vstd::prelude::*;

pub mod aux;
pub mod ends;
pub mod hexed;
pub mod hexes;
pub mod nibbles;
pub mod source;

pub use crate::aux::NibbleState;
pub use crate::hexed::Hexed;
pub use crate::hexes::Hexes;
pub use crate::nibbles::Nibbles;
pub use crate::source::{ByteSource, DoubleEndedByteSource, IntoByteSource, SliceBytes};

verus! {

/// The hexadecimal characters of anything that turns into a byte source.
pub fn hexed<I: IntoByteSource>(iterable: I) -> (hexed: Hexed<I::Source>)
    ensures
        hexed@ == crate::hexed::hex_of(iterable.bytes()),
        hexed.inner().unread() == iterable.bytes(),
{
    Hexed::from(iterable.into_source())
}

/// The nibbles of anything that turns into a byte source.
pub fn nibbles<I: IntoByteSource>(iterable: I) -> (nibbles: Nibbles<I::Source>)
    ensures
        nibbles@ == crate::nibbles::nibbles_of(iterable.bytes()),
        nibbles.unread() == iterable.bytes(),
{
    Nibbles::from(iterable.into_source())
}

/// Gives every byte source the adaptors of this crate as methods.
pub trait Hexers: ByteSource + Sized {
    /// The nibbles of the bytes of this source, high before low.
    fn nibbles(self) -> (nibbles: Nibbles<Self>)
        ensures
            nibbles@ == crate::nibbles::nibbles_of(self.pending()),
            nibbles.unread() == self.pending(),
    {
        Nibbles::from(self)
    }

    /// The hexadecimal characters of the bytes of this source.
    fn hexed(self) -> (hexed: Hexed<Self>)
        ensures
            hexed@ == crate::hexed::hex_of(self.pending()),
            hexed.inner().unread() == self.pending(),
    {
        Hexed::from(self)
    }
}

impl<T: ByteSource> Hexers for T {
}

} // verus!
