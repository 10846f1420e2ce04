//! A mathematical model of a sequence that is consumed from either end.
//!
//! Every lazy sequence in this crate has a view of type `Seq<_>`: the values
//! it has yet to produce, in logical order. A pull takes one value off one
//! end of that view. The functions here say what a pull, and a run of pulls,
//! produces; the contracts of the executable pulls are stated with them, and
//! the lemmas say what holds of every run.

use vstd::multiset::Multiset;
use vstd::prelude::*;

verus! {

/// The end of a sequence that a pull takes from.
#[derive(Clone, Copy, Debug, PartialEq, Eq, Structural)]
pub enum End {
    Front,
    Back,
}

/// One pull: the value produced, if any, and what is left afterwards.
///
/// On an empty sequence nothing is produced and nothing changes.
pub open spec fn pull<A>(s: Seq<A>, end: End) -> (Option<A>, Seq<A>) {
    if s.len() == 0 {
        (None, s)
    } else {
        match end {
            End::Front => (Some(s.first()), s.drop_first()),
            End::Back => (Some(s.last()), s.drop_last()),
        }
    }
}

/// What is left of `s` after one pull at each of `ends` in turn.
pub open spec fn left_after<A>(s: Seq<A>, ends: Seq<End>) -> Seq<A>
    decreases ends.len(),
{
    if ends.len() == 0 {
        s
    } else {
        pull(left_after(s, ends.drop_last()), ends.last()).1
    }
}

/// What one pull at each of `ends` in turn produces from `s`: one entry for
/// each pull.
pub open spec fn pulls<A>(s: Seq<A>, ends: Seq<End>) -> Seq<Option<A>>
    decreases ends.len(),
{
    if ends.len() == 0 {
        Seq::empty()
    } else {
        pulls(s, ends.drop_last()).push(pull(left_after(s, ends.drop_last()), ends.last()).0)
    }
}

/// How many of `ends` are `end`.
pub open spec fn count(ends: Seq<End>, end: End) -> nat
    decreases ends.len(),
{
    if ends.len() == 0 {
        0
    } else {
        count(ends.drop_last(), end) + if ends.last() == end {
            1nat
        } else {
            0nat
        }
    }
}

/// The place in a sequence of length `len` that pull number `i` of `ends`
/// takes its value from, while values are left: fronts count up from the
/// first place, backs count down from the last.
pub open spec fn place(ends: Seq<End>, i: int, len: nat) -> int {
    match ends[i] {
        End::Front => count(ends.take(i), End::Front) as int,
        End::Back => len - 1 - count(ends.take(i), End::Back),
    }
}

/// A run of `n` pulls that are all at `end`.
pub open spec fn run(end: End, n: nat) -> Seq<End> {
    Seq::new(n, |i: int| end)
}

/// The values inside a sequence of results that are all `Some`.
pub open spec fn values<A>(results: Seq<Option<A>>) -> Seq<A> {
    results.map_values(|r: Option<A>| r->0)
}

/// Every end is the front or the back.
pub proof fn lemma_count_total(ends: Seq<End>)
    ensures
        count(ends, End::Front) + count(ends, End::Back) == ends.len(),
    decreases ends.len(),
{
    if ends.len() > 0 {
        lemma_count_total(ends.drop_last());
    }
}

/// A longer run has at least as many pulls at each end, and more of them
/// if the pull that the shorter run stops before is at that end.
pub proof fn lemma_count_grows(ends: Seq<End>, i: int, j: int, end: End)
    requires
        0 <= i <= j <= ends.len(),
    ensures
        count(ends.take(i), end) <= count(ends.take(j), end),
        i < j && ends[i] == end ==> count(ends.take(i), end) < count(ends.take(j), end),
    decreases j - i,
{
    if i < j {
        assert(ends.take(j).drop_last() =~= ends.take(j - 1));
        lemma_count_grows(ends, i, j - 1, end);
    }
}

/// After a run of pulls the middle of the sequence is left: as many values
/// are gone from the front as there were pulls at the front, and likewise
/// at the back. Once there were as many pulls as values, nothing is left.
pub proof fn lemma_left_after<A>(s: Seq<A>, ends: Seq<End>)
    ensures
        ends.len() <= s.len() ==> left_after(s, ends) == s.subrange(
            count(ends, End::Front) as int,
            s.len() - count(ends, End::Back),
        ),
        ends.len() >= s.len() ==> left_after(s, ends) == Seq::<A>::empty(),
        left_after(s, ends).len() == if ends.len() <= s.len() {
            s.len() - ends.len()
        } else {
            0
        },
    decreases ends.len(),
{
    lemma_count_total(ends);
    if ends.len() == 0 {
        assert(s.subrange(0, s.len() as int) =~= s);
    } else {
        let before = ends.drop_last();
        lemma_left_after(s, before);
        lemma_count_total(before);
        let front = count(before, End::Front) as int;
        let back = count(before, End::Back) as int;
        if before.len() < s.len() {
            let left = s.subrange(front, s.len() - back);
            assert(left_after(s, before) == left);
            match ends.last() {
                End::Front => {
                    assert(left.drop_first() =~= s.subrange(front + 1, s.len() - back));
                },
                End::Back => {
                    assert(left.drop_last() =~= s.subrange(front, s.len() - back - 1));
                },
            }
            if ends.len() == s.len() {
                assert(left_after(s, ends) =~= Seq::<A>::empty());
            }
        }
    }
}

/// Each pull of a run, in closed form: while values are left, a pull at the
/// front produces the value after those that earlier pulls took from the
/// front, and a pull at the back the value before those that earlier pulls
/// took from the back. Once there were as many pulls as values, every pull
/// produces nothing.
pub proof fn lemma_pulls<A>(s: Seq<A>, ends: Seq<End>)
    ensures
        pulls(s, ends).len() == ends.len(),
        forall|i: int|
            0 <= i < ends.len() && i < s.len() ==> 0 <= #[trigger] place(ends, i, s.len())
                < s.len(),
        forall|i: int|
            0 <= i < ends.len() && i < s.len() ==> #[trigger] pulls(s, ends)[i] == Some(
                s[place(ends, i, s.len())],
            ),
        forall|i: int|
            0 <= i < ends.len() && i >= s.len() ==> (#[trigger] pulls(s, ends)[i]) is None,
    decreases ends.len(),
{
    assert forall|i: int| 0 <= i < ends.len() && i < s.len() implies 0 <= #[trigger] place(
        ends,
        i,
        s.len(),
    ) < s.len() by {
        lemma_count_total(ends.take(i));
    }
    if ends.len() > 0 {
        let before = ends.drop_last();
        let last = ends.len() - 1;
        lemma_pulls(s, before);
        lemma_left_after(s, before);
        lemma_count_total(before);
        assert(ends.take(last) =~= before);
        assert forall|i: int| 0 <= i < ends.len() && i < s.len() implies #[trigger] pulls(
            s,
            ends,
        )[i] == Some(s[place(ends, i, s.len())]) by {
            if i < last {
                assert(before.take(i) =~= ends.take(i));
                assert(place(before, i, s.len()) == place(ends, i, s.len()));
                assert(pulls(s, ends)[i] == pulls(s, before)[i]);
            }
        }
        assert forall|i: int| 0 <= i < ends.len() && i >= s.len() implies (#[trigger] pulls(
            s,
            ends,
        )[i]) is None by {
            if i < last {
                assert(pulls(s, ends)[i] == pulls(s, before)[i]);
            }
        }
    }
}

/// A run of pulls produces a value exactly as long as values are left:
/// the first `s.len()` pulls produce one each, whatever their ends, and no
/// later pull produces any.
pub proof fn lemma_pulls_produce_all<A>(s: Seq<A>, ends: Seq<End>)
    ensures
        pulls(s, ends).len() == ends.len(),
        forall|i: int|
            0 <= i < ends.len() ==> ((#[trigger] pulls(s, ends)[i]) is Some <==> i < s.len()),
{
    lemma_pulls(s, ends);
}

/// Pulls at the front produce the values in order.
pub proof fn lemma_pulls_at_front<A>(s: Seq<A>, ends: Seq<End>)
    requires
        forall|i: int| 0 <= i < ends.len() ==> ends[i] == End::Front,
    ensures
        pulls(s, ends).len() == ends.len(),
        forall|i: int|
            0 <= i < ends.len() ==> #[trigger] pulls(s, ends)[i] == if i < s.len() {
                Some(s[i])
            } else {
                None
            },
{
    lemma_pulls(s, ends);
    assert forall|i: int| 0 <= i < ends.len() implies #[trigger] pulls(s, ends)[i] == if i
        < s.len() {
        Some(s[i])
    } else {
        None
    } by {
        lemma_all_at_one_end(ends.take(i), End::Front);
    }
}

/// Pulls at the back produce the values in reverse order.
pub proof fn lemma_pulls_at_back<A>(s: Seq<A>, ends: Seq<End>)
    requires
        forall|i: int| 0 <= i < ends.len() ==> ends[i] == End::Back,
    ensures
        pulls(s, ends).len() == ends.len(),
        forall|i: int|
            0 <= i < ends.len() ==> #[trigger] pulls(s, ends)[i] == if i < s.len() {
                Some(s[s.len() - 1 - i])
            } else {
                None
            },
{
    lemma_pulls(s, ends);
    assert forall|i: int| 0 <= i < ends.len() implies #[trigger] pulls(s, ends)[i] == if i
        < s.len() {
        Some(s[s.len() - 1 - i])
    } else {
        None
    } by {
        lemma_all_at_one_end(ends.take(i), End::Back);
    }
}

/// Where every pull is at `end`, the pulls at `end` are all the pulls.
pub proof fn lemma_all_at_one_end(ends: Seq<End>, end: End)
    requires
        forall|i: int| 0 <= i < ends.len() ==> ends[i] == end,
    ensures
        count(ends, end) == ends.len(),
    decreases ends.len(),
{
    if ends.len() > 0 {
        lemma_all_at_one_end(ends.drop_last(), end);
    }
}

/// While values are left, no two pulls of a run take their value from the
/// same place, whatever their ends.
pub proof fn lemma_places_differ(ends: Seq<End>, i: int, j: int, len: nat)
    requires
        0 <= i < j < ends.len(),
        j < len,
    ensures
        0 <= place(ends, i, len) < len,
        0 <= place(ends, j, len) < len,
        place(ends, i, len) != place(ends, j, len),
{
    lemma_count_total(ends.take(i));
    lemma_count_total(ends.take(j));
    lemma_count_grows(ends, i, j, End::Front);
    lemma_count_grows(ends, i, j, End::Back);
}

/// Nothing is lost and nothing is produced twice: the values that a run of
/// pulls has produced, together with those that are left, are the values of
/// the sequence, each as often as it occurs there.
pub proof fn lemma_pulls_keep_values<A>(s: Seq<A>, ends: Seq<End>)
    requires
        ends.len() <= s.len(),
    ensures
        values(pulls(s, ends)).to_multiset().add(left_after(s, ends).to_multiset())
            == s.to_multiset(),
    decreases ends.len(),
{
    broadcast use vstd::seq_lib::group_to_multiset_ensures;

    if ends.len() == 0 {
        assert(values(pulls(s, ends)) =~= Seq::<A>::empty());
        assert(values(pulls(s, ends)).to_multiset().add(left_after(s, ends).to_multiset())
            =~= s.to_multiset());
    } else {
        let before = ends.drop_last();
        lemma_pulls_keep_values(s, before);
        lemma_left_after(s, before);
        lemma_pulls(s, before);
        let left = left_after(s, before);
        let (result, rest) = pull(left, ends.last());
        let value = result->0;
        assert(values(pulls(s, ends)) =~= values(pulls(s, before)).push(value));
        match ends.last() {
            End::Front => {
                assert(rest =~= left.remove(0));
            },
            End::Back => {
                assert(rest =~= left.remove(left.len() - 1));
            },
        }
        assert(rest.to_multiset() == left.to_multiset().remove(value));
        assert(left.to_multiset().count(value) > 0);
        assert(values(pulls(s, ends)).to_multiset().add(rest.to_multiset()) =~= values(
            pulls(s, before),
        ).to_multiset().add(left.to_multiset()));
    }
}

/// A run of as many pulls as there are values, at whatever ends, produces
/// every value: each pull produces one, and together they are the values
/// of the sequence, each as often as it occurs there.
pub proof fn lemma_pulls_meet<A>(s: Seq<A>, ends: Seq<End>)
    requires
        ends.len() == s.len(),
    ensures
        pulls(s, ends).len() == s.len(),
        forall|i: int| 0 <= i < ends.len() ==> (#[trigger] pulls(s, ends)[i]) is Some,
        values(pulls(s, ends)).to_multiset() == s.to_multiset(),
        left_after(s, ends) == Seq::<A>::empty(),
{
    lemma_pulls(s, ends);
    lemma_left_after(s, ends);
    lemma_pulls_keep_values(s, ends);
    assert(left_after(s, ends).to_multiset() =~= Multiset::<A>::empty()) by {
        vstd::seq_lib::to_multiset_len(left_after(s, ends));
        vstd::multiset::lemma_multiset_empty_len(left_after(s, ends).to_multiset());
    }
    assert(values(pulls(s, ends)).to_multiset().add(Multiset::<A>::empty()) =~= values(
        pulls(s, ends),
    ).to_multiset());
}

/// Once a pull has produced nothing, nothing is left, and every later pull
/// of the run produces nothing, at whichever end.
pub proof fn lemma_exhaustion_lasts<A>(s: Seq<A>, ends: Seq<End>, i: int, j: int)
    requires
        0 <= i <= j < ends.len(),
        pulls(s, ends)[i] is None,
    ensures
        pulls(s, ends)[j] is None,
        left_after(s, ends.take(i)) == Seq::<A>::empty(),
        left_after(s, ends.take(j + 1)) == Seq::<A>::empty(),
{
    lemma_pulls(s, ends);
    lemma_left_after(s, ends.take(i));
    lemma_left_after(s, ends.take(j + 1));
}

} // verus!
