//! A merge sort.
use vstd::prelude::*;

verus! {

/// Values that a total preorder ranks.
pub trait Ranked: Sized {
    /// This value may stand before `other`.
    spec fn ranks_before(&self, other: &Self) -> bool;

    proof fn lemma_total(&self, other: &Self)
        ensures
            self.ranks_before(other) || other.ranks_before(self),
    ;

    proof fn lemma_transitive(&self, middle: &Self, other: &Self)
        requires
            self.ranks_before(middle),
            middle.ranks_before(other),
        ensures
            self.ranks_before(other),
    ;

    fn may_precede(&self, other: &Self) -> (may: bool)
        ensures
            may == self.ranks_before(other),
    ;
}

/// Every value may stand before all that follow it.
pub open spec fn is_ranked<T: Ranked>(s: Seq<T>) -> bool {
    forall|i: int, j: int|
        #![trigger s[i], s[j]]
        0 <= i < j < s.len() ==> s[i].ranks_before(&s[j])
}

/// Merge two ranked lists into one.
fn merge<T: Ranked>(left: Vec<T>, right: Vec<T>) -> (merged: Vec<T>)
    requires
        is_ranked(left@),
        is_ranked(right@),
    ensures
        is_ranked(merged@),
        merged@.to_multiset() == left@.to_multiset().add(right@.to_multiset()),
{
    // Both lists are consumed from the back, so the result grows in reverse.
    let ghost whole_left = left@;
    let ghost whole_right = right@;
    let mut left = left;
    let mut right = right;
    let mut reversed: Vec<T> = Vec::new();
    proof {
        broadcast use vstd::seq_lib::group_to_multiset_ensures;

        assert(left@.to_multiset().add(right@.to_multiset()).add(reversed@.to_multiset())
            =~= left@.to_multiset().add(right@.to_multiset()));
    }
    while left.len() > 0 || right.len() > 0
        invariant
            is_ranked(left@),
            is_ranked(right@),
            is_ranked(reversed@.reverse()),
            forall|i: int, j: int|
                #![trigger left@[i], reversed@[j]]
                0 <= i < left@.len() && 0 <= j < reversed@.len() ==> left@[i].ranks_before(
                    &reversed@[j],
                ),
            forall|i: int, j: int|
                #![trigger right@[i], reversed@[j]]
                0 <= i < right@.len() && 0 <= j < reversed@.len() ==> right@[i].ranks_before(
                    &reversed@[j],
                ),
            left@.to_multiset().add(right@.to_multiset()).add(reversed@.to_multiset())
                == whole_left.to_multiset().add(whole_right.to_multiset()),
        decreases left@.len() + right@.len(),
    {
        let ghost left_before = left@;
        let ghost right_before = right@;
        let ghost reversed_before = reversed@;
        let take_left = if right.len() == 0 {
            true
        } else if left.len() == 0 {
            false
        } else {
            !left[left.len() - 1].may_precede(&right[right.len() - 1])
        };
        let taken = if take_left {
            left.pop()
        } else {
            right.pop()
        };
        match taken {
            Some(value) => {
                proof {
                    if take_left {
                        lemma_pop_multiset(left_before, value);
                        assert(left@ =~= left_before.drop_last());
                        assert(right@ == right_before);
                        assert forall|i: int| 0 <= i < right@.len() implies (
                        #[trigger] right@[i]).ranks_before(&value) by {
                            let last = right@[right@.len() - 1];
                            value.lemma_total(&last);
                            if i < right@.len() - 1 {
                                right@[i].lemma_transitive(&last, &value);
                            }
                        }
                    } else {
                        lemma_pop_multiset(right_before, value);
                        assert(right@ =~= right_before.drop_last());
                        assert(left@ == left_before);
                        assert forall|i: int| 0 <= i < left@.len() implies (
                        #[trigger] left@[i]).ranks_before(&value) by {
                            let last = left@[left@.len() - 1];
                            if i < left@.len() - 1 {
                                left@[i].lemma_transitive(&last, &value);
                            }
                        }
                    }
                    lemma_push_multiset(reversed_before, value);
                    assert(reversed_before.push(value).reverse() =~= seq![value]
                        + reversed_before.reverse());
                }
                reversed.push(value);
                proof {
                    let front = seq![value] + reversed_before.reverse();
                    assert(reversed@.reverse() =~= front);
                    assert forall|i: int, j: int| #![trigger front[i], front[j]]
                        0 <= i < j < front.len() implies front[i].ranks_before(&front[j]) by {
                        if i == 0 {
                            let k = reversed_before.len() - j;
                            assert(front[j] == reversed_before[k]);
                        } else {
                            assert(front[i] == reversed_before.reverse()[i - 1]);
                            assert(front[j] == reversed_before.reverse()[j - 1]);
                        }
                    }
                    assert(left@.to_multiset().add(right@.to_multiset()).add(
                        reversed@.to_multiset(),
                    ) =~= left_before.to_multiset().add(right_before.to_multiset()).add(
                        reversed_before.to_multiset(),
                    ));
                }
            },
            None => {
                assert(false);
            },
        }
    }
    let merged = reverse(reversed);
    proof {
        broadcast use vstd::seq_lib::group_to_multiset_ensures;

        assert(left@.to_multiset().add(right@.to_multiset()).add(reversed@.to_multiset())
            =~= reversed@.to_multiset());
    }
    merged
}

proof fn lemma_pop_multiset<T>(s: Seq<T>, value: T)
    requires
        s.len() > 0,
        s.last() == value,
    ensures
        s.to_multiset() == s.drop_last().to_multiset().insert(value),
{
    broadcast use vstd::seq_lib::group_to_multiset_ensures;

    assert(s =~= s.drop_last().push(value));
}

proof fn lemma_push_multiset<T>(s: Seq<T>, value: T)
    ensures
        s.push(value).to_multiset() == s.to_multiset().insert(value),
{
    broadcast use vstd::seq_lib::group_to_multiset_ensures;

}

/// The list back to front.
fn reverse<T>(list: Vec<T>) -> (reversed: Vec<T>)
    ensures
        reversed@ == list@.reverse(),
        reversed@.to_multiset() == list@.to_multiset(),
{
    let ghost whole = list@;
    let mut list = list;
    let mut reversed: Vec<T> = Vec::new();
    proof {
        broadcast use vstd::seq_lib::group_to_multiset_ensures;

        assert(list@.to_multiset().add(reversed@.to_multiset()) =~= whole.to_multiset());
        assert(whole.skip(list@.len() as int).reverse() =~= reversed@);
    }
    while list.len() > 0
        invariant
            list@.len() <= whole.len(),
            list@ == whole.take(list@.len() as int),
            reversed@ == whole.skip(list@.len() as int).reverse(),
            list@.to_multiset().add(reversed@.to_multiset()) == whole.to_multiset(),
        decreases list@.len(),
    {
        let ghost before = list@;
        let ghost reversed_before = reversed@;
        match list.pop() {
            Some(value) => {
                reversed.push(value);
                proof {
                    lemma_pop_multiset(before, value);
                    lemma_push_multiset(reversed_before, value);
                    assert(list@ =~= before.drop_last());
                    assert(list@ =~= whole.take(list@.len() as int));
                    assert(reversed@ =~= whole.skip(list@.len() as int).reverse());
                    assert(list@.to_multiset().add(reversed@.to_multiset())
                        =~= before.to_multiset().add(reversed_before.to_multiset()));
                }
            },
            None => {
                assert(false);
            },
        }
    }
    proof {
        broadcast use vstd::seq_lib::group_to_multiset_ensures;

        assert(list@ =~= Seq::<T>::empty());
        assert(list@.to_multiset().add(reversed@.to_multiset()) =~= reversed@.to_multiset());
        assert(whole.skip(0) =~= whole);
    }
    reversed
}

/// The same values, ranked.
pub fn merge_sort<T: Ranked>(list: Vec<T>) -> (sorted: Vec<T>)
    ensures
        is_ranked(sorted@),
        sorted@.to_multiset() == list@.to_multiset(),
    decreases list@.len(),
{
    if list.len() <= 1 {
        return list;
    }
    let ghost whole = list@;
    let mut left = list;
    let middle = left.len() / 2;
    let right = left.split_off(middle);
    proof {
        assert(whole =~= left@ + right@);
        vstd::seq_lib::lemma_multiset_commutative(left@, right@);
    }
    merge(merge_sort(left), merge_sort(right))
}

} // verus!
