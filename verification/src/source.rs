//! Byte sources: lazy sequences of bytes that the adaptors of this crate
//! consume.

use vstd::prelude::*;
use crate::ends::{pull, End};

verus! {

/// A lazy sequence of bytes that is consumed from the front.
pub trait ByteSource {
    /// The bytes that the source has yet to produce, in order.
    spec fn pending(&self) -> Seq<u8>;

    /// The bounds that `size_hint` reports.
    spec fn bounds(&self) -> (usize, Option<usize>);

    /// Produces the first pending byte, or nothing once none is pending.
    fn next_byte(&mut self) -> (byte: Option<u8>)
        ensures
            byte == pull(old(self).pending(), End::Front).0,
            final(self).pending() == pull(old(self).pending(), End::Front).1,
    ;

    /// A lower and, where known, an upper bound on the number of pending
    /// bytes.
    fn size_hint(&self) -> (hint: (usize, Option<usize>))
        ensures
            hint == self.bounds(),
            hint.0 <= self.pending().len(),
            hint.1 matches Some(upper) ==> self.pending().len() <= upper,
    ;
}

/// A byte source that can also be consumed from the back.
pub trait DoubleEndedByteSource: ByteSource {
    /// Produces the last pending byte, or nothing once none is pending.
    fn next_byte_back(&mut self) -> (byte: Option<u8>)
        ensures
            byte == pull(old(self).pending(), End::Back).0,
            final(self).pending() == pull(old(self).pending(), End::Back).1,
    ;
}

/// A byte source over a slice of bytes.
pub struct SliceBytes<'a> {
    data: &'a [u8],
    start: usize,
    end: usize,
}

impl<'a> SliceBytes<'a> {
    #[verifier::type_invariant]
    spec fn in_range(&self) -> bool {
        self.start <= self.end <= self.data@.len()
    }

    /// A source that produces the bytes of `data` in order.
    pub fn new(data: &'a [u8]) -> (source: Self)
        ensures
            source.pending() == data@,
    {
        let source = SliceBytes { data, start: 0, end: data.len() };
        assert(data@.subrange(0, data@.len() as int) =~= data@);
        source
    }
}

impl<'a> Clone for SliceBytes<'a> {
    /// A source over the same slice with the same bytes pending.
    fn clone(&self) -> (copy: Self)
        ensures
            copy == *self,
    {
        proof {
            use_type_invariant(self);
        }
        SliceBytes { data: self.data, start: self.start, end: self.end }
    }
}

impl<'a> ByteSource for SliceBytes<'a> {
    closed spec fn pending(&self) -> Seq<u8> {
        self.data@.subrange(self.start as int, self.end as int)
    }

    open spec fn bounds(&self) -> (usize, Option<usize>) {
        (self.pending().len() as usize, Some(self.pending().len() as usize))
    }

    fn next_byte(&mut self) -> (byte: Option<u8>) {
        proof {
            use_type_invariant(&*self);
        }
        if self.start < self.end {
            let byte = self.data[self.start];
            self.start = self.start + 1;
            Some(byte)
        } else {
            None
        }
    }

    fn size_hint(&self) -> (hint: (usize, Option<usize>)) {
        proof {
            use_type_invariant(self);
        }
        let left = self.end - self.start;
        (left, Some(left))
    }
}

impl<'a> DoubleEndedByteSource for SliceBytes<'a> {
    fn next_byte_back(&mut self) -> (byte: Option<u8>) {
        proof {
            use_type_invariant(&*self);
        }
        if self.start < self.end {
            self.end = self.end - 1;
            Some(self.data[self.end])
        } else {
            None
        }
    }
}

impl ByteSource for core::ops::Range<u8> {
    /// The bytes from `start` up to, but not including, `end`.
    open spec fn pending(&self) -> Seq<u8> {
        Seq::new(
            if self.start < self.end {
                (self.end - self.start) as nat
            } else {
                0
            },
            |i: int| (self.start + i) as u8,
        )
    }

    open spec fn bounds(&self) -> (usize, Option<usize>) {
        (self.pending().len() as usize, Some(self.pending().len() as usize))
    }

    fn next_byte(&mut self) -> (byte: Option<u8>) {
        if self.start < self.end {
            let byte = self.start;
            self.start = byte + 1;
            Some(byte)
        } else {
            None
        }
    }

    fn size_hint(&self) -> (hint: (usize, Option<usize>)) {
        if self.start < self.end {
            let left = (self.end - self.start) as usize;
            (left, Some(left))
        } else {
            (0, Some(0))
        }
    }
}

impl DoubleEndedByteSource for core::ops::Range<u8> {
    fn next_byte_back(&mut self) -> (byte: Option<u8>) {
        if self.start < self.end {
            self.end = self.end - 1;
            Some(self.end)
        } else {
            None
        }
    }
}

/// A borrowed source is a source: what is read through the borrow is gone
/// from the source that was lent.
impl<'a, T: ByteSource> ByteSource for &'a mut T {
    open spec fn pending(&self) -> Seq<u8> {
        (**self).pending()
    }

    open spec fn bounds(&self) -> (usize, Option<usize>) {
        (**self).bounds()
    }

    fn next_byte(&mut self) -> (byte: Option<u8>) {
        (**self).next_byte()
    }

    fn size_hint(&self) -> (hint: (usize, Option<usize>)) {
        (**self).size_hint()
    }
}

impl<'a, T: DoubleEndedByteSource> DoubleEndedByteSource for &'a mut T {
    fn next_byte_back(&mut self) -> (byte: Option<u8>) {
        (**self).next_byte_back()
    }
}

/// A value that can be turned into a byte source.
pub trait IntoByteSource {
    /// The source that the value turns into.
    type Source: ByteSource;

    /// The bytes that the source will produce, in order.
    spec fn bytes(&self) -> Seq<u8>;

    /// Turns the value into a source of its bytes.
    fn into_source(self) -> (source: Self::Source)
        ensures
            source.pending() == self.bytes(),
    ;
}

impl<T: ByteSource> IntoByteSource for T {
    type Source = T;

    open spec fn bytes(&self) -> Seq<u8> {
        self.pending()
    }

    fn into_source(self) -> (source: T)
        ensures
            source == self,
    {
        self
    }
}

impl<'a> IntoByteSource for &'a [u8] {
    type Source = SliceBytes<'a>;

    open spec fn bytes(&self) -> Seq<u8> {
        self@
    }

    fn into_source(self) -> (source: SliceBytes<'a>) {
        SliceBytes::new(self)
    }
}

impl<'a> IntoByteSource for &'a Vec<u8> {
    type Source = SliceBytes<'a>;

    open spec fn bytes(&self) -> Seq<u8> {
        self@
    }

    fn into_source(self) -> (source: SliceBytes<'a>) {
        SliceBytes::new(self.as_slice())
    }
}

impl<'a, const N: usize> IntoByteSource for &'a [u8; N] {
    type Source = SliceBytes<'a>;

    open spec fn bytes(&self) -> Seq<u8> {
        self@
    }

    fn into_source(self) -> (source: SliceBytes<'a>) {
        SliceBytes::new(self.as_slice())
    }
}

} // verus!
