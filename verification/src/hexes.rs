//! The hexadecimal characters of a byte source, under a second name.

use vstd::prelude::*;
use crate::ends::{pull, End};
use crate::hexed::{hex_digit, hex_of, to_hex};
use crate::nibbles::{nibbles_of, Nibbles};
use crate::source::{ByteSource, DoubleEndedByteSource};

verus! {

/// The lowercase hexadecimal characters of a byte source: the sequence
/// that [`crate::hexed::Hexed`] produces, with the same contracts.
pub struct Hexes<T> {
    nibbles: Nibbles<T>,
}

impl<T: ByteSource> View for Hexes<T> {
    type V = Seq<char>;

    /// The characters yet to be produced, in order: the digits of the
    /// nibbles yet to be produced.
    open spec fn view(&self) -> Seq<char> {
        self.inner()@.map_values(|nibble: u8| hex_digit(nibble))
    }
}

impl<T> Hexes<T> {
    /// The nibbles whose digits are produced.
    pub closed spec fn inner(&self) -> Nibbles<T> {
        self.nibbles
    }
}

impl<T: Clone> Clone for Hexes<T> {
    /// A copy over a clone of the nibbles.
    fn clone(&self) -> (copy: Self)
        ensures
            cloned::<Nibbles<T>>(self.inner(), copy.inner()),
    {
        Hexes { nibbles: self.nibbles.clone() }
    }
}

impl<T: ByteSource> Hexes<T> {
    /// The hexadecimal characters of the bytes of `iter`. Nothing is read
    /// from `iter` yet.
    pub fn from(iter: T) -> (hexes: Self)
        ensures
            hexes@ == hex_of(iter.pending()),
            hexes.inner()@ == nibbles_of(iter.pending()),
            hexes.inner().source() == iter,
            hexes.inner().front_held() == Seq::<u8>::empty(),
            hexes.inner().back_held() == Seq::<u8>::empty(),
    {
        Hexes { nibbles: Nibbles::from(iter) }
    }

    /// Produces the first character that is left, or nothing once none is
    /// left: the digit of the first nibble that is left.
    pub fn next(&mut self) -> (digit: Option<char>)
        ensures
            digit == pull(old(self)@, End::Front).0,
            final(self)@ == pull(old(self)@, End::Front).1,
            final(self).inner()@ == pull(old(self).inner()@, End::Front).1,
            final(self).inner().unread() == if old(self).inner().front_held().len() > 0 {
                old(self).inner().unread()
            } else {
                pull(old(self).inner().unread(), End::Front).1
            },
    {
        match self.nibbles.next() {
            Some(nibble) => to_hex(nibble),
            None => None,
        }
    }
}

impl<T: DoubleEndedByteSource> Hexes<T> {
    /// Produces the last character that is left, or nothing once none is
    /// left: the digit of the last nibble that is left.
    pub fn next_back(&mut self) -> (digit: Option<char>)
        ensures
            digit == pull(old(self)@, End::Back).0,
            final(self)@ == pull(old(self)@, End::Back).1,
            final(self).inner()@ == pull(old(self).inner()@, End::Back).1,
            final(self).inner().unread() == if old(self).inner().back_held().len() > 0 {
                old(self).inner().unread()
            } else {
                pull(old(self).inner().unread(), End::Back).1
            },
    {
        match self.nibbles.next_back() {
            Some(nibble) => to_hex(nibble),
            None => None,
        }
    }
}

} // verus!
