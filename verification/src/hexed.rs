//! The lowercase hexadecimal characters of a byte source, as a lazy
//! sequence that is consumed from either end.

use vstd::prelude::*;
use crate::aux::{high, low};
use crate::ends::{lemma_pulls_at_front, lemma_pulls_produce_all, pull, pulls, End};
use crate::nibbles::{nibbles_of, Nibbles};
use crate::source::{ByteSource, DoubleEndedByteSource};

verus! {

/// The lowercase hexadecimal digit for a nibble: the character at that
/// place in `0123456789abcdef`.
pub open spec fn hex_digit(nibble: u8) -> char
    recommends
        nibble < 16,
{
    "0123456789abcdef"@[nibble as int]
}

/// The hexadecimal characters of a sequence of bytes: two for each byte,
/// the digit of its high nibble before that of its low nibble.
pub open spec fn hex_of(bytes: Seq<u8>) -> Seq<char> {
    nibbles_of(bytes).map_values(|nibble: u8| hex_digit(nibble))
}

/// However the hexadecimal characters of `bytes` are pulled, from the
/// front, from the back or from both in any order, exactly the first
/// `2 * bytes.len()` pulls produce a character.
pub proof fn lemma_hex_total_count(bytes: Seq<u8>, ends: Seq<End>)
    ensures
        hex_of(bytes).len() == 2 * bytes.len(),
        pulls(hex_of(bytes), ends).len() == ends.len(),
        forall|i: int|
            0 <= i < ends.len() ==> ((#[trigger] pulls(hex_of(bytes), ends)[i]) is Some <==> i < 2
                * bytes.len()),
{
    lemma_pulls_produce_all(hex_of(bytes), ends);
}

/// Pulled from the front, the hexadecimal characters of `bytes` come byte
/// by byte in the order of the bytes, the digit of the high nibble of each
/// before the digit of its low nibble.
pub proof fn lemma_hex_forward_order(bytes: Seq<u8>, ends: Seq<End>)
    requires
        forall|i: int| 0 <= i < ends.len() ==> ends[i] == End::Front,
    ensures
        pulls(hex_of(bytes), ends).len() == ends.len(),
        forall|i: int|
            0 <= i < ends.len() && i < 2 * bytes.len() ==> #[trigger] pulls(hex_of(bytes), ends)[i]
                == Some(
                hex_digit(
                    if i % 2 == 0 {
                        high(bytes[i / 2])
                    } else {
                        low(bytes[i / 2])
                    },
                ),
            ),
{
    lemma_pulls_at_front(hex_of(bytes), ends);
}

/// The hexadecimal digit for `n`, or nothing where `n` is no nibble.
pub fn to_hex(n: u8) -> (digit: Option<char>)
    ensures
        digit == if n < 16 {
            Some(hex_digit(n))
        } else {
            None
        },
{
    proof {
        reveal_strlit("0123456789abcdef");
    }
    if n < 10 {
        Some(('0' as u8 + n) as char)
    } else if n < 16 {
        Some(('a' as u8 + (n - 10)) as char)
    } else {
        None
    }
}

/// The lowercase hexadecimal characters of a byte source.
///
/// The characters are the digits of the nibbles of the source, and are
/// produced as the nibbles are: nothing else is held.
pub struct Hexed<T> {
    nibbles: Nibbles<T>,
}

impl<T: ByteSource> View for Hexed<T> {
    type V = Seq<char>;

    /// The characters yet to be produced, in order: the digits of the
    /// nibbles yet to be produced.
    open spec fn view(&self) -> Seq<char> {
        self.inner()@.map_values(|nibble: u8| hex_digit(nibble))
    }
}

impl<T> Hexed<T> {
    /// The nibbles whose digits are produced.
    pub closed spec fn inner(&self) -> Nibbles<T> {
        self.nibbles
    }
}

impl<T: Clone> Clone for Hexed<T> {
    /// A copy over a clone of the nibbles.
    fn clone(&self) -> (copy: Self)
        ensures
            cloned::<Nibbles<T>>(self.inner(), copy.inner()),
    {
        Hexed { nibbles: self.nibbles.clone() }
    }
}

impl<T: ByteSource> Hexed<T> {
    /// The hexadecimal characters of the bytes of `iter`. Nothing is read
    /// from `iter` yet.
    pub fn from(iter: T) -> (hexed: Self)
        ensures
            hexed@ == hex_of(iter.pending()),
            hexed.inner()@ == nibbles_of(iter.pending()),
            hexed.inner().source() == iter,
            hexed.inner().front_held() == Seq::<u8>::empty(),
            hexed.inner().back_held() == Seq::<u8>::empty(),
    {
        Hexed { nibbles: Nibbles::from(iter) }
    }

    /// Produces the first character that is left, or nothing once none is
    /// left: the digit of the first nibble that is left.
    pub fn next(&mut self) -> (digit: Option<char>)
        ensures
            digit == pull(old(self)@, End::Front).0,
            final(self)@ == pull(old(self)@, End::Front).1,
            final(self).inner()@ == pull(old(self).inner()@, End::Front).1,
            final(self).inner().unread() == if old(self).inner().front_held().len() > 0 {
                old(self).inner().unread()
            } else {
                pull(old(self).inner().unread(), End::Front).1
            },
    {
        match self.nibbles.next() {
            Some(nibble) => to_hex(nibble),
            None => None,
        }
    }
}

impl<T: DoubleEndedByteSource> Hexed<T> {
    /// Produces the last character that is left, or nothing once none is
    /// left: the digit of the last nibble that is left.
    pub fn next_back(&mut self) -> (digit: Option<char>)
        ensures
            digit == pull(old(self)@, End::Back).0,
            final(self)@ == pull(old(self)@, End::Back).1,
            final(self).inner()@ == pull(old(self).inner()@, End::Back).1,
            final(self).inner().unread() == if old(self).inner().back_held().len() > 0 {
                old(self).inner().unread()
            } else {
                pull(old(self).inner().unread(), End::Back).1
            },
    {
        match self.nibbles.next_back() {
            Some(nibble) => to_hex(nibble),
            None => None,
        }
    }
}

} // verus!
