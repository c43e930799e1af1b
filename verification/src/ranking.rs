//! Picking the best few of some things.

use vstd::prelude::*;

verus! {

/// What things are ranked by.
pub trait Rank: Sized {
    /// Whether this ranks before another.
    spec fn before(self, other: Self) -> bool;

    /// Nothing ranks before itself, nor before what ranks before it.
    proof fn one_way(self, other: Self)
        ensures
            !self.before(self),
            self.before(other) ==> !other.before(self),
    ;

    /// What does not rank behind something does not rank behind anything that
    /// does not rank before it either.
    proof fn chained(self, middle: Self, other: Self)
        requires
            !middle.before(self),
            !other.before(middle),
        ensures
            !other.before(self),
    ;
}

/// A thing with a rank.
pub trait Ranked: Sized {
    type Key: Rank;

    /// The thing's rank.
    spec fn key(&self) -> Self::Key;

    /// Whether this ranks before another.
    fn ranks_before(&self, other: &Self) -> (before: bool)
        ensures
            before == self.key().before(other.key()),
    ;
}

/// The ranks of some things.
pub open spec fn keys<T: Ranked>(items: Seq<T>) -> Seq<T::Key> {
    items.map_values(|item: T| item.key())
}

/// Where the best rank stands: the first which none ranks before.
pub open spec fn best_at<K: Rank>(ranks: Seq<K>) -> int
    decreases ranks.len(),
{
    if ranks.len() <= 1 {
        0
    } else {
        let earlier = best_at(ranks.drop_last());
        if ranks.last().before(ranks[earlier]) {
            ranks.len() - 1
        } else {
            earlier
        }
    }
}

/// The best ranks, best first, and no more than there is room for.
pub open spec fn best<K: Rank>(ranks: Seq<K>, room: nat) -> Seq<K>
    decreases room,
{
    if room == 0 || ranks.len() == 0 {
        Seq::empty()
    } else {
        seq![ranks[best_at(ranks)]] + best(ranks.remove(best_at(ranks)), (room - 1) as nat)
    }
}

/// The best rank stands within the ranks, and none ranks before it.
proof fn lemma_best_at<K: Rank>(ranks: Seq<K>)
    requires
        ranks.len() > 0,
    ensures
        0 <= best_at(ranks) < ranks.len(),
        forall|i: int| 0 <= i < ranks.len() ==> !(#[trigger] ranks[i]).before(ranks[best_at(ranks)]),
    decreases ranks.len(),
{
    if ranks.len() == 1 {
        ranks[0].one_way(ranks[0]);
    } else {
        let front = ranks.drop_last();
        lemma_best_at(front);
        let earlier = best_at(front);
        assert(front[earlier] == ranks[earlier]);
        assert forall|i: int| 0 <= i < ranks.len() implies !(#[trigger] ranks[i]).before(
            ranks[best_at(ranks)],
        ) by {
            ranks[i].one_way(ranks[i]);
            if ranks.last().before(ranks[earlier]) {
                ranks.last().one_way(ranks[earlier]);
                if i < front.len() {
                    assert(front[i] == ranks[i]);
                    ranks.last().chained(ranks[earlier], ranks[i]);
                }
            } else if i < front.len() {
                assert(front[i] == ranks[i]);
            }
        }
    }
}

/// Picks the best of some things, best first.
pub fn best_of<T: Ranked>(items: Vec<T>, room: usize) -> (picked: Vec<T>)
    ensures
        keys(picked@) == best(keys(items@), room as nat),
{
    let mut left = items;
    let mut picked: Vec<T> = Vec::new();
    let mut room_left: usize = room;
    let ghost all = keys(items@);
    assert(keys(picked@) + best(all, room as nat) == best(all, room as nat));
    while room_left > 0 && left.len() > 0
        invariant
            keys(picked@) + best(keys(left@), room_left as nat) == best(all, room as nat),
        decreases room_left,
    {
        let mut at: usize = 0;
        assert(keys(left@).take(1).len() == 1);
        for i in 1..left.len()
            invariant
                left.len() > 0,
                at < i,
                at == best_at(keys(left@).take(i as int)),
        {
            let ghost seen = keys(left@).take(i + 1);
            assert(seen.drop_last() == keys(left@).take(i as int));
            assert(seen.last() == left@[i as int].key());
            assert(seen[at as int] == left@[at as int].key());
            if left[i].ranks_before(&left[at]) {
                at = i;
            }
        }
        assert(keys(left@).take(left.len() as int) == keys(left@));
        let ghost before = left@;
        let ghost had = picked@;
        let item = left.remove(at);
        picked.push(item);
        assert(keys(before)[at as int] == item.key());
        assert(keys(before).remove(at as int) == keys(left@));
        assert(keys(picked@) == keys(had).push(item.key()));
        assert(best(keys(before), room_left as nat) == seq![item.key()] + best(
            keys(left@),
            (room_left - 1) as nat,
        ));
        assert(keys(had).push(item.key()) + best(keys(left@), (room_left - 1) as nat) == keys(had)
            + (seq![item.key()] + best(keys(left@), (room_left - 1) as nat)));
        room_left = room_left - 1;
    }
    assert(best(keys(left@), room_left as nat) == Seq::<T::Key>::empty());
    assert(keys(picked@) + Seq::<T::Key>::empty() == keys(picked@));
    picked
}

/// No more are picked than there is room for or than there are, and each of
/// them is one of the ranks.
pub proof fn the_best_are_few<K: Rank>(ranks: Seq<K>, room: nat)
    ensures
        best(ranks, room).len() == if ranks.len() <= room { ranks.len() } else { room },
        forall|i: int|
            0 <= i < best(ranks, room).len() ==> ranks.contains(#[trigger] best(ranks, room)[i]),
    decreases room,
{
    if room > 0 && ranks.len() > 0 {
        lemma_best_at(ranks);
        let at = best_at(ranks);
        let rest = ranks.remove(at);
        let picked = best(ranks, room);
        the_best_are_few(rest, (room - 1) as nat);
        assert forall|i: int| 0 <= i < picked.len() implies ranks.contains(#[trigger] picked[i]) by {
            if i == 0 {
                assert(picked[0] == ranks[at]);
            } else {
                assert(picked[i] == best(rest, (room - 1) as nat)[i - 1]);
                let j = choose|j: int| 0 <= j < rest.len() && rest[j] == picked[i];
                assert(rest[j] == if j < at { ranks[j] } else { ranks[j + 1] });
            }
        }
    }
}

/// The best come first: none of them ranks before an earlier one.
pub proof fn the_best_come_first<K: Rank>(ranks: Seq<K>, room: nat, i: int, j: int)
    requires
        0 <= i < j < best(ranks, room).len(),
    ensures
        !best(ranks, room)[j].before(best(ranks, room)[i]),
    decreases room,
{
    let at = best_at(ranks);
    let rest = ranks.remove(at);
    let picked = best(ranks, room);
    let fewer = best(rest, (room - 1) as nat);
    lemma_best_at(ranks);
    assert(picked[j] == fewer[j - 1]);
    if i == 0 {
        the_best_are_few(rest, (room - 1) as nat);
        assert(rest.contains(fewer[j - 1]));
        let k = choose|k: int| 0 <= k < rest.len() && rest[k] == fewer[j - 1];
        assert(rest[k] == if k < at { ranks[k] } else { ranks[k + 1] });
        assert(picked[0] == ranks[at]);
    } else {
        assert(picked[i] == fewer[i - 1]);
        the_best_come_first(rest, (room - 1) as nat, i - 1, j - 1);
    }
}

/// Whatever was not picked ranks before nothing which was.
pub proof fn nothing_better_is_left_out<K: Rank>(ranks: Seq<K>, room: nat, i: int, j: int)
    requires
        0 <= i < ranks.len(),
        !best(ranks, room).contains(ranks[i]),
        0 <= j < best(ranks, room).len(),
    ensures
        !ranks[i].before(best(ranks, room)[j]),
    decreases room,
{
    let at = best_at(ranks);
    let rest = ranks.remove(at);
    let picked = best(ranks, room);
    let fewer = best(rest, (room - 1) as nat);
    lemma_best_at(ranks);
    assert(picked[0] == ranks[at]);
    if j > 0 {
        assert(picked[j] == fewer[j - 1]);
        assert(i != at);
        let k = if i < at { i } else { i - 1 };
        assert(rest[k] == ranks[i]);
        assert forall|n: int| 0 <= n < fewer.len() implies fewer[n] != ranks[i] by {
            assert(picked[n + 1] == fewer[n]);
        }
        nothing_better_is_left_out(rest, (room - 1) as nat, k, j - 1);
    }
}

/// Where there is room for everything, everything is picked.
pub proof fn everything_is_picked_where_there_is_room<K: Rank>(ranks: Seq<K>, room: nat, i: int)
    requires
        0 <= i < ranks.len() <= room,
    ensures
        best(ranks, room).contains(ranks[i]),
    decreases room,
{
    let at = best_at(ranks);
    let rest = ranks.remove(at);
    let picked = best(ranks, room);
    lemma_best_at(ranks);
    assert(picked[0] == ranks[at]);
    if i != at {
        let k = if i < at {
            i
        } else {
            i - 1
        };
        assert(rest[k] == ranks[i]);
        everything_is_picked_where_there_is_room(rest, (room - 1) as nat, k);
        let fewer = best(rest, (room - 1) as nat);
        let n = choose|n: int| 0 <= n < fewer.len() && fewer[n] == ranks[i];
        assert(picked[n + 1] == ranks[i]);
    }
}

} // verus!
