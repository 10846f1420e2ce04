//! The two nibbles of one byte, produced one at a time from either end.

use vstd::prelude::*;
use crate::ends::{pull, End};

verus! {

/// The high nibble of a byte: its upper four bits.
pub open spec fn high(byte: u8) -> u8 {
    byte >> 4
}

/// The low nibble of a byte: its lower four bits.
pub open spec fn low(byte: u8) -> u8 {
    byte & 0xf
}

/// Both nibbles lie in `0..16`, and together they determine the byte.
pub proof fn lemma_nibble_bounds(byte: u8)
    ensures
        high(byte) < 16,
        low(byte) < 16,
        high(byte) == byte / 16,
        low(byte) == byte % 16,
        16 * high(byte) + low(byte) == byte,
{
    assert(byte >> 4 < 16) by (bit_vector);
    assert(byte & 0xf < 16) by (bit_vector);
    assert(byte >> 4 == byte / 16) by (bit_vector);
    assert(byte & 0xf == byte % 16) by (bit_vector);
}

/// What is left of one byte: both nibbles, only the low one, only the high
/// one, or nothing.
#[derive(Clone, Copy, Debug, PartialEq, Eq, Structural)]
pub enum NibbleState {
    Both(u8),
    Lo(u8),
    Hi(u8),
    Empty,
}

impl View for NibbleState {
    type V = Seq<u8>;

    /// The nibbles not yet produced, high before low.
    open spec fn view(&self) -> Seq<u8> {
        match *self {
            NibbleState::Both(b) => seq![high(b), low(b)],
            NibbleState::Lo(b) => seq![low(b)],
            NibbleState::Hi(b) => seq![high(b)],
            NibbleState::Empty => Seq::empty(),
        }
    }
}

impl NibbleState {
    /// A splitter for `byte` with both nibbles still to come.
    pub fn from_byte(byte: u8) -> (state: Self)
        ensures
            state == NibbleState::Both(byte),
            state@ == seq![high(byte), low(byte)],
    {
        NibbleState::Both(byte)
    }

    /// Produces the first nibble that is left: the high one if it is still
    /// there, else the low one.
    pub fn next(&mut self) -> (nibble: Option<u8>)
        ensures
            nibble == pull(old(self)@, End::Front).0,
            final(self)@ == pull(old(self)@, End::Front).1,
            nibble matches Some(n) ==> n < 16,
            *final(self) == (match *old(self) {
                NibbleState::Both(b) => NibbleState::Lo(b),
                _ => NibbleState::Empty,
            }),
    {
        match *self {
            NibbleState::Both(b) => {
                proof {
                    lemma_nibble_bounds(b);
                }
                *self = NibbleState::Lo(b);
                Some(b >> 4)
            },
            NibbleState::Lo(b) => {
                proof {
                    lemma_nibble_bounds(b);
                }
                *self = NibbleState::Empty;
                Some(b & 0xf)
            },
            NibbleState::Hi(b) => {
                proof {
                    lemma_nibble_bounds(b);
                }
                *self = NibbleState::Empty;
                Some(b >> 4)
            },
            NibbleState::Empty => None,
        }
    }

    /// Produces the last nibble that is left: the low one if it is still
    /// there, else the high one.
    pub fn next_back(&mut self) -> (nibble: Option<u8>)
        ensures
            nibble == pull(old(self)@, End::Back).0,
            final(self)@ == pull(old(self)@, End::Back).1,
            nibble matches Some(n) ==> n < 16,
            *final(self) == (match *old(self) {
                NibbleState::Both(b) => NibbleState::Hi(b),
                _ => NibbleState::Empty,
            }),
    {
        match *self {
            NibbleState::Both(b) => {
                proof {
                    lemma_nibble_bounds(b);
                }
                *self = NibbleState::Hi(b);
                Some(b & 0xf)
            },
            NibbleState::Hi(b) => {
                proof {
                    lemma_nibble_bounds(b);
                }
                *self = NibbleState::Empty;
                Some(b >> 4)
            },
            NibbleState::Lo(b) => {
                proof {
                    lemma_nibble_bounds(b);
                }
                *self = NibbleState::Empty;
                Some(b & 0xf)
            },
            NibbleState::Empty => None,
        }
    }
}

} // verus!
