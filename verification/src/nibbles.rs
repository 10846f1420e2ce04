//! The nibbles of a byte source, as a lazy sequence that is consumed from
//! either end.

use vstd::prelude::*;
use crate::aux::{high, low, NibbleState};
use crate::ends::{
    left_after, lemma_places_differ, lemma_pulls, lemma_pulls_at_back, lemma_pulls_at_front,
    lemma_pulls_meet, lemma_pulls_produce_all, place, pull, pulls, run, values, End,
};
use crate::source::{ByteSource, DoubleEndedByteSource};

verus! {

/// The nibbles of a sequence of bytes: for each byte in turn its high
/// nibble, then its low nibble.
pub open spec fn nibbles_of(bytes: Seq<u8>) -> Seq<u8> {
    Seq::new(
        2 * bytes.len(),
        |i: int|
            if i % 2 == 0 {
                high(bytes[i / 2])
            } else {
                low(bytes[i / 2])
            },
    )
}

/// The nibbles of no bytes are no nibbles.
pub proof fn lemma_nibbles_of_empty()
    ensures
        nibbles_of(Seq::<u8>::empty()) == Seq::<u8>::empty(),
{
    assert(nibbles_of(Seq::<u8>::empty()) =~= Seq::<u8>::empty());
}

/// The nibbles of a sequence start with the two nibbles of its first byte.
pub proof fn lemma_nibbles_of_first(bytes: Seq<u8>)
    requires
        bytes.len() > 0,
    ensures
        nibbles_of(bytes) == seq![high(bytes.first()), low(bytes.first())] + nibbles_of(
            bytes.drop_first(),
        ),
{
    let rest = bytes.drop_first();
    let joined = seq![high(bytes.first()), low(bytes.first())] + nibbles_of(rest);
    assert forall|i: int| 0 <= i < nibbles_of(bytes).len() implies nibbles_of(bytes)[i]
        == joined[i] by {
        if i >= 2 {
            assert((i - 2) / 2 == i / 2 - 1);
            assert((i - 2) % 2 == i % 2);
            assert(rest[(i - 2) / 2] == bytes[i / 2]);
        }
    }
    assert(nibbles_of(bytes) =~= joined);
}

/// The nibbles of a sequence end with the two nibbles of its last byte.
pub proof fn lemma_nibbles_of_last(bytes: Seq<u8>)
    requires
        bytes.len() > 0,
    ensures
        nibbles_of(bytes) == nibbles_of(bytes.drop_last()) + seq![
            high(bytes.last()),
            low(bytes.last()),
        ],
{
    let joined = nibbles_of(bytes.drop_last()) + seq![high(bytes.last()), low(bytes.last())];
    assert forall|i: int| 0 <= i < nibbles_of(bytes).len() implies nibbles_of(bytes)[i]
        == joined[i] by {
        if i >= 2 * (bytes.len() - 1) {
            assert(i / 2 == bytes.len() - 1);
        } else {
            assert(i / 2 < bytes.len() - 1);
        }
    }
    assert(nibbles_of(bytes) =~= joined);
}

/// However the nibbles of `bytes` are pulled, from the front, from the back
/// or from both in any order, exactly the first `2 * bytes.len()` pulls
/// produce a nibble.
pub proof fn lemma_total_count(bytes: Seq<u8>, ends: Seq<End>)
    ensures
        nibbles_of(bytes).len() == 2 * bytes.len(),
        pulls(nibbles_of(bytes), ends).len() == ends.len(),
        forall|i: int|
            0 <= i < ends.len() ==> ((#[trigger] pulls(nibbles_of(bytes), ends)[i]) is Some <==> i
                < 2 * bytes.len()),
{
    lemma_pulls_produce_all(nibbles_of(bytes), ends);
}

/// Pulled from the front, the nibbles of `bytes` come byte by byte in the
/// order of the bytes, the high nibble of each before its low nibble: pull
/// number `i`, counted from zero, produces a nibble of byte number `i / 2`,
/// the high one where `i` is even and the low one where it is odd.
pub proof fn lemma_forward_order(bytes: Seq<u8>, ends: Seq<End>)
    requires
        forall|i: int| 0 <= i < ends.len() ==> ends[i] == End::Front,
    ensures
        pulls(nibbles_of(bytes), ends).len() == ends.len(),
        forall|i: int|
            0 <= i < ends.len() && i < 2 * bytes.len() ==> #[trigger] pulls(
                nibbles_of(bytes),
                ends,
            )[i] == Some(
                if i % 2 == 0 {
                    high(bytes[i / 2])
                } else {
                    low(bytes[i / 2])
                },
            ),
{
    lemma_pulls_at_front(nibbles_of(bytes), ends);
}

/// Pulled from the back, the nibbles of `bytes` come byte by byte in the
/// reverse order of the bytes, the low nibble of each before its high
/// nibble: pull number `i`, counted from zero, produces a nibble of the
/// byte that is `i / 2` places before the last, the low one where `i` is
/// even and the high one where it is odd.
pub proof fn lemma_backward_order(bytes: Seq<u8>, ends: Seq<End>)
    requires
        forall|i: int| 0 <= i < ends.len() ==> ends[i] == End::Back,
    ensures
        pulls(nibbles_of(bytes), ends).len() == ends.len(),
        forall|i: int|
            0 <= i < ends.len() && i < 2 * bytes.len() ==> #[trigger] pulls(
                nibbles_of(bytes),
                ends,
            )[i] == Some(
                if i % 2 == 0 {
                    low(bytes[bytes.len() - 1 - i / 2])
                } else {
                    high(bytes[bytes.len() - 1 - i / 2])
                },
            ),
{
    let nibbles = nibbles_of(bytes);
    lemma_pulls_at_back(nibbles, ends);
    assert forall|i: int| 0 <= i < ends.len() && i < 2 * bytes.len() implies #[trigger] pulls(
        nibbles,
        ends,
    )[i] == Some(
        if i % 2 == 0 {
            low(bytes[bytes.len() - 1 - i / 2])
        } else {
            high(bytes[bytes.len() - 1 - i / 2])
        },
    ) by {
        let j = nibbles.len() - 1 - i;
        assert(j / 2 == bytes.len() - 1 - i / 2);
        assert(j % 2 == 0 <==> i % 2 != 0);
    }
}

/// Pulled `2 * bytes.len()` times, at the front and at the back in any
/// order, the nibbles of `bytes` are all produced: every pull produces one,
/// no two pulls take theirs from the same place, and together they are the
/// nibbles that as many pulls at the front produce, each as often as it
/// occurs there. Nothing is left afterwards.
pub proof fn lemma_meet_in_the_middle(bytes: Seq<u8>, ends: Seq<End>)
    requires
        ends.len() == 2 * bytes.len(),
    ensures
        forall|i: int|
            0 <= i < ends.len() ==> #[trigger] pulls(nibbles_of(bytes), ends)[i] == Some(
                nibbles_of(bytes)[place(ends, i, nibbles_of(bytes).len())],
            ),
        forall|i: int, j: int|
            0 <= i < j < ends.len() ==> place(ends, i, nibbles_of(bytes).len()) != place(
                ends,
                j,
                nibbles_of(bytes).len(),
            ),
        values(pulls(nibbles_of(bytes), run(End::Front, 2 * bytes.len()))) == nibbles_of(bytes),
        values(pulls(nibbles_of(bytes), ends)).to_multiset() == values(
            pulls(nibbles_of(bytes), run(End::Front, 2 * bytes.len())),
        ).to_multiset(),
        left_after(nibbles_of(bytes), ends) == Seq::<u8>::empty(),
{
    let nibbles = nibbles_of(bytes);
    let forward = run(End::Front, 2 * bytes.len());
    lemma_pulls(nibbles, ends);
    lemma_pulls_meet(nibbles, ends);
    lemma_pulls_meet(nibbles, forward);
    lemma_pulls_at_front(nibbles, forward);
    assert(values(pulls(nibbles, forward)) =~= nibbles);
    assert forall|i: int, j: int| 0 <= i < j < ends.len() implies place(ends, i, nibbles.len())
        != place(ends, j, nibbles.len()) by {
        lemma_places_differ(ends, i, j, nibbles.len());
    }
}

/// The nibbles that a splitter slot still holds, high before low.
spec fn held(slot: Option<NibbleState>) -> Seq<u8> {
    match slot {
        Some(state) => state@,
        None => Seq::empty(),
    }
}

/// Whether both bounds can be doubled within `usize`.
pub open spec fn can_double(bounds: (usize, Option<usize>)) -> bool {
    &&& 2 * bounds.0 <= usize::MAX
    &&& bounds.1 matches Some(upper) ==> 2 * upper <= usize::MAX
}

/// Twice each bound; an unknown upper bound stays unknown.
pub open spec fn doubled(bounds: (usize, Option<usize>)) -> (usize, Option<usize>)
    recommends
        can_double(bounds),
{
    (
        (2 * bounds.0) as usize,
        match bounds.1 {
            Some(upper) => Some((2 * upper) as usize),
            None => None,
        },
    )
}

/// The nibbles of a byte source, high before low.
///
/// Bytes are read from the source one at a time, and only when a nibble is
/// asked for that no byte read earlier can supply. What is left of the
/// byte last read from the front is held apart from what is left of the
/// byte last read from the back, so the two are never the same byte of the
/// source, and the one from the front comes before the one from the back.
pub struct Nibbles<T> {
    bytes: T,
    front: Option<NibbleState>,
    back: Option<NibbleState>,
}

impl<T: ByteSource> View for Nibbles<T> {
    type V = Seq<u8>;

    /// The nibbles yet to be produced, in order: those left of the byte
    /// read from the front, those of the bytes not read yet, and those left
    /// of the byte read from the back.
    open spec fn view(&self) -> Seq<u8> {
        self.front_held() + nibbles_of(self.unread()) + self.back_held()
    }
}

impl<T> Nibbles<T> {
    /// The byte source as it stands.
    pub closed spec fn source(&self) -> T {
        self.bytes
    }

    /// The nibbles left of the byte that was last read from the front.
    pub closed spec fn front_held(&self) -> Seq<u8> {
        held(self.front)
    }

    /// The nibbles left of the byte that was last read from the back.
    pub closed spec fn back_held(&self) -> Seq<u8> {
        held(self.back)
    }
}

impl<T: Clone> Clone for Nibbles<T> {
    /// A copy that holds the same nibbles over a clone of the source.
    fn clone(&self) -> (copy: Self)
        ensures
            cloned::<T>(self.source(), copy.source()),
            copy.front_held() == self.front_held(),
            copy.back_held() == self.back_held(),
    {
        Nibbles { bytes: self.bytes.clone(), front: self.front, back: self.back }
    }
}

impl<T: ByteSource> Nibbles<T> {
    /// The bytes that have not been read from the source.
    pub open spec fn unread(&self) -> Seq<u8> {
        self.source().pending()
    }

    /// Pulls at the front of what is held at the front.
    fn try_next(&mut self) -> (nibble: Option<u8>)
        ensures
            nibble == pull(held(old(self).front), End::Front).0,
            held(final(self).front) == pull(held(old(self).front), End::Front).1,
            nibble matches Some(n) ==> n < 16,
            final(self).bytes == old(self).bytes,
            final(self).back == old(self).back,
    {
        match &mut self.front {
            Some(state) => state.next(),
            None => None,
        }
    }

    /// Pulls at the front of what is held at the back.
    fn try_next_last(&mut self) -> (nibble: Option<u8>)
        ensures
            nibble == pull(held(old(self).back), End::Front).0,
            held(final(self).back) == pull(held(old(self).back), End::Front).1,
            nibble matches Some(n) ==> n < 16,
            final(self).bytes == old(self).bytes,
            final(self).front == old(self).front,
    {
        match &mut self.back {
            Some(state) => state.next(),
            None => None,
        }
    }

    /// Pulls at the back of what is held at the back.
    fn try_next_back(&mut self) -> (nibble: Option<u8>)
        ensures
            nibble == pull(held(old(self).back), End::Back).0,
            held(final(self).back) == pull(held(old(self).back), End::Back).1,
            nibble matches Some(n) ==> n < 16,
            final(self).bytes == old(self).bytes,
            final(self).front == old(self).front,
    {
        match &mut self.back {
            Some(state) => state.next_back(),
            None => None,
        }
    }

    /// Pulls at the back of what is held at the front.
    fn try_next_back_last(&mut self) -> (nibble: Option<u8>)
        ensures
            nibble == pull(held(old(self).front), End::Back).0,
            held(final(self).front) == pull(held(old(self).front), End::Back).1,
            nibble matches Some(n) ==> n < 16,
            final(self).bytes == old(self).bytes,
            final(self).back == old(self).back,
    {
        match &mut self.front {
            Some(state) => state.next_back(),
            None => None,
        }
    }

    /// The nibbles of the bytes of `iter`. Nothing is read from `iter` yet.
    pub fn from(iter: T) -> (nibbles: Self)
        ensures
            nibbles@ == nibbles_of(iter.pending()),
            nibbles.source() == iter,
            nibbles.front_held() == Seq::<u8>::empty(),
            nibbles.back_held() == Seq::<u8>::empty(),
    {
        Nibbles { bytes: iter, front: None, back: None }
    }

    /// Produces the first nibble that is left, or nothing once none is
    /// left.
    ///
    /// A byte is read from the front of the source only if no nibble is
    /// held at the front. Only once the source is empty as well is the
    /// nibble taken from what is held at the back.
    pub fn next(&mut self) -> (nibble: Option<u8>)
        ensures
            nibble == pull(old(self)@, End::Front).0,
            final(self)@ == pull(old(self)@, End::Front).1,
            nibble matches Some(n) ==> n < 16,
            final(self).unread() == if old(self).front_held().len() > 0 {
                old(self).unread()
            } else {
                pull(old(self).unread(), End::Front).1
            },
            final(self).back_held() == if old(self).front_held().len() > 0 || old(
                self,
            ).unread().len() > 0 {
                old(self).back_held()
            } else {
                pull(old(self).back_held(), End::Front).1
            },
    {
        match self.try_next() {
            Some(nibble) => Some(nibble),
            None => {
                proof {
                    if self.bytes.pending().len() > 0 {
                        lemma_nibbles_of_first(self.bytes.pending());
                    } else {
                        lemma_nibbles_of_empty();
                    }
                }
                self.front = match self.bytes.next_byte() {
                    Some(byte) => Some(NibbleState::from_byte(byte)),
                    None => None,
                };
                match self.try_next() {
                    Some(nibble) => Some(nibble),
                    None => self.try_next_last(),
                }
            },
        }
    }

    /// Twice the bounds that the source reports on its unread bytes: a
    /// lower and, where known, an upper bound on the nibbles of the bytes
    /// not read yet. The nibbles held at either end are not counted.
    pub fn size_hint(&self) -> (hint: (usize, Option<usize>))
        requires
            can_double(self.source().bounds()),
        ensures
            hint == doubled(self.source().bounds()),
            hint.0 <= 2 * self.unread().len() <= self@.len(),
            hint.1 matches Some(upper) ==> 2 * self.unread().len() <= upper,
    {
        let (lower, upper) = self.bytes.size_hint();
        (
            lower * 2,
            match upper {
                Some(upper) => Some(upper * 2),
                None => None,
            },
        )
    }

    /// The result of `size_hint` where the bounds that the source reports
    /// can be doubled within `usize`, and nothing where they cannot.
    pub fn checked_size_hint(&self) -> (hint: Option<(usize, Option<usize>)>)
        ensures
            hint == if can_double(self.source().bounds()) {
                Some(doubled(self.source().bounds()))
            } else {
                None
            },
    {
        let (lower, upper) = self.bytes.size_hint();
        let fits = lower <= usize::MAX / 2 && match upper {
            Some(upper) => upper <= usize::MAX / 2,
            None => true,
        };
        if fits {
            Some(self.size_hint())
        } else {
            None
        }
    }
}

impl<T: DoubleEndedByteSource> Nibbles<T> {
    /// Produces the last nibble that is left, or nothing once none is left.
    ///
    /// A byte is read from the back of the source only if no nibble is
    /// held at the back. Only once the source is empty as well is the
    /// nibble taken from what is held at the front.
    pub fn next_back(&mut self) -> (nibble: Option<u8>)
        ensures
            nibble == pull(old(self)@, End::Back).0,
            final(self)@ == pull(old(self)@, End::Back).1,
            nibble matches Some(n) ==> n < 16,
            final(self).unread() == if old(self).back_held().len() > 0 {
                old(self).unread()
            } else {
                pull(old(self).unread(), End::Back).1
            },
            final(self).front_held() == if old(self).back_held().len() > 0 || old(
                self,
            ).unread().len() > 0 {
                old(self).front_held()
            } else {
                pull(old(self).front_held(), End::Back).1
            },
    {
        match self.try_next_back() {
            Some(nibble) => Some(nibble),
            None => {
                proof {
                    if self.bytes.pending().len() > 0 {
                        lemma_nibbles_of_last(self.bytes.pending());
                    } else {
                        lemma_nibbles_of_empty();
                    }
                }
                self.back = match self.bytes.next_byte_back() {
                    Some(byte) => Some(NibbleState::from_byte(byte)),
                    None => None,
                };
                match self.try_next_back() {
                    Some(nibble) => Some(nibble),
                    None => self.try_next_back_last(),
                }
            },
        }
    }
}

} // verus!
