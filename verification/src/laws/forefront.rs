//! Laws on the forefront list: what enters it, what leaves it, and in what order it is fetched.
use vstd::prelude::*;

use crate::add::PendingView;
use crate::candidates::is_candidate_order;
use crate::clock::Timestamp;
use crate::laws::fetching::{
    last_place, law_candidates_are_the_fetchable, law_forefront_is_last_in_first_out,
    law_forefront_precedes_regular, law_regular_is_first_in_first_out,
};
use crate::open::{still_pending, RebuildView};
use crate::settle::{all_but, MarkView, ReclaimView};
use crate::state::{QueueView, RequestEntry};

verus! {

/// The list has, in order, what stands at these places of another list.
pub open spec fn picks<T>(part: Seq<T>, whole: Seq<T>, places: Seq<int>) -> bool {
    &&& places.len() == part.len()
    &&& forall|i: int, j: int|
        #![trigger places[i], places[j]]
        0 <= i < j < places.len() ==> places[i] < places[j]
    &&& forall|i: int|
        #![trigger places[i]]
        #![trigger part[i]]
        0 <= i < part.len() ==> 0 <= places[i] < whole.len() && part[i] == whole[places[i]]
}

/// Where a key stands last in a list: it stands there, and nowhere behind.
pub proof fn law_where_a_key_stands_last(list: Seq<Seq<char>>, key: Seq<char>, i: int)
    ensures
        list.contains(key) ==> {
            &&& 0 <= last_place(list, key) < list.len()
            &&& list[last_place(list, key)] == key
        },
        last_place(list, key) < i < list.len() ==> list[i] != key,
        !list.contains(key) ==> last_place(list, key) == -1,
        -1 <= last_place(list, key) < list.len(),
    decreases list.len(),
{
    if list.len() > 0 {
        let shorter = list.drop_last();
        law_where_a_key_stands_last(shorter, key, i);
        if list.last() == key {
            assert(list[list.len() - 1] == key);
        } else {
            if list.contains(key) {
                let p = choose|p: int| 0 <= p < list.len() && list[p] == key;
                assert(shorter[p] == key);
            }
            if shorter.contains(key) {
                let p = choose|p: int| 0 <= p < shorter.len() && shorter[p] == key;
                assert(list[p] == key);
            }
            if last_place(list, key) < i < shorter.len() {
                assert(shorter[i] == list[i]);
            }
        }
    }
}

/// Where a list keeps all occurrences of a key, its last occurrence is kept last.
proof fn lemma_last_place_is_kept(
    part: Seq<Seq<char>>,
    whole: Seq<Seq<char>>,
    places: Seq<int>,
    key: Seq<char>,
)
    requires
        picks(part, whole, places),
        whole.contains(key),
        forall|p: int|
            0 <= p < whole.len() && #[trigger] whole[p] == key ==> places.contains(p),
    ensures
        part.contains(key),
        places[last_place(part, key)] == last_place(whole, key),
{
    let last = last_place(whole, key);
    law_where_a_key_stands_last(whole, key, 0);
    assert(places.contains(last));
    let i = choose|i: int| 0 <= i < places.len() && places[i] == last;
    assert(part[i] == key);
    let m = last_place(part, key);
    law_where_a_key_stands_last(part, key, i);
    assert(part[m] == whole[places[m]]);
    law_where_a_key_stands_last(whole, key, places[m]);
    if i < m {
        assert(places[i] < places[m]);
    }
}

/// Where a list keeps all occurrences of two keys, it keeps which of them stands last.
proof fn lemma_which_stands_last_is_kept(
    part: Seq<Seq<char>>,
    whole: Seq<Seq<char>>,
    places: Seq<int>,
    a: Seq<char>,
    b: Seq<char>,
)
    requires
        picks(part, whole, places),
        whole.contains(a),
        whole.contains(b),
        forall|p: int|
            0 <= p < whole.len() && (#[trigger] whole[p] == a || whole[p] == b)
                ==> places.contains(p),
    ensures
        part.contains(a),
        part.contains(b),
        last_place(part, a) > last_place(part, b) <==> last_place(whole, a) > last_place(whole, b),
{
    lemma_last_place_is_kept(part, whole, places, a);
    lemma_last_place_is_kept(part, whole, places, b);
    law_where_a_key_stands_last(part, a, 0);
    law_where_a_key_stands_last(part, b, 0);
    let i = last_place(part, a);
    let j = last_place(part, b);
    if i < j {
        assert(places[i] < places[j]);
    }
    if j < i {
        assert(places[j] < places[i]);
    }
}

proof fn lemma_picks_one_more(
    part: Seq<Seq<char>>,
    whole: Seq<Seq<char>>,
    places: Seq<int>,
    key: Seq<char>,
)
    requires
        picks(part, whole, places),
    ensures
        picks(part, whole.push(key), places),
        picks(part.push(key), whole.push(key), places.push(whole.len() as int)),
{
    let more = places.push(whole.len() as int);
    assert forall|i: int, j: int|
        #![trigger more[i], more[j]]
        0 <= i < j < more.len() implies more[i] < more[j] by {
        assert(more[i] == places[i]);
        if j < places.len() {
            assert(more[j] == places[j]);
        }
    }
    assert forall|i: int| 0 <= i < part.push(key).len() implies 0 <= more[i] < whole.push(key).len()
        && part.push(key)[i] == whole.push(key)[#[trigger] more[i]] by {
        if i < part.len() {
            assert(more[i] == places[i]);
            assert(part[i] == whole[places[i]]);
        }
    }
}

proof fn lemma_places_of_the_pending(
    list: Seq<Seq<char>>,
    requests: Map<Seq<char>, RequestEntry>,
) -> (places: Seq<int>)
    ensures
        picks(still_pending(list, requests), list, places),
        forall|p: int|
            #![trigger list[p]]
            0 <= p < list.len() ==> (places.contains(p) <==> requests.contains_key(list[p])
                && requests[list[p]].order_no is Some),
    decreases list.len(),
{
    reveal(Seq::filter);
    if list.len() == 0 {
        Seq::empty()
    } else {
        let shorter = list.drop_last();
        let last = list.last();
        let before = lemma_places_of_the_pending(shorter, requests);
        assert(list =~= shorter.push(last));
        lemma_picks_one_more(still_pending(shorter, requests), shorter, before, last);
        let pending = requests.contains_key(last) && requests[last].order_no is Some;
        let places = if pending {
            before.push(shorter.len() as int)
        } else {
            before
        };
        assert(still_pending(list, requests) == if pending {
            still_pending(shorter, requests).push(last)
        } else {
            still_pending(shorter, requests)
        });
        lemma_one_more_place(before, shorter.len() as int);
        assert forall|p: int|
            #![trigger list[p]]
            0 <= p < list.len() implies (places.contains(p) <==> requests.contains_key(list[p])
            && requests[list[p]].order_no is Some) by {
            if p < shorter.len() {
                assert(shorter[p] == list[p]);
            } else if before.contains(p) {
                let i = choose|i: int| 0 <= i < before.len() && before[i] == p;
                assert(before[i] < shorter.len());
            }
        }
        places
    }
}

proof fn lemma_places_of_the_others(list: Seq<Seq<char>>, key: Seq<char>) -> (places: Seq<int>)
    ensures
        picks(all_but(list, key), list, places),
        forall|p: int|
            #![trigger list[p]]
            0 <= p < list.len() ==> (places.contains(p) <==> list[p] != key),
    decreases list.len(),
{
    reveal(Seq::filter);
    if list.len() == 0 {
        Seq::empty()
    } else {
        let shorter = list.drop_last();
        let last = list.last();
        let before = lemma_places_of_the_others(shorter, key);
        assert(list =~= shorter.push(last));
        lemma_picks_one_more(all_but(shorter, key), shorter, before, last);
        let places = if last != key {
            before.push(shorter.len() as int)
        } else {
            before
        };
        assert(all_but(list, key) == if last != key {
            all_but(shorter, key).push(last)
        } else {
            all_but(shorter, key)
        });
        lemma_one_more_place(before, shorter.len() as int);
        assert forall|p: int|
            #![trigger list[p]]
            0 <= p < list.len() implies (places.contains(p) <==> list[p] != key) by {
            if p < shorter.len() {
                assert(shorter[p] == list[p]);
            } else if before.contains(p) {
                let i = choose|i: int| 0 <= i < before.len() && before[i] == p;
                assert(before[i] < shorter.len());
            }
        }
        places
    }
}

proof fn lemma_one_more_place(places: Seq<int>, place: int)
    ensures
        forall|p: int| #[trigger]
            places.push(place).contains(p) <==> p == place || places.contains(p),
{
    let more = places.push(place);
    assert forall|p: int| #[trigger] more.contains(p) <==> p == place || places.contains(p) by {
        assert(more[places.len() as int] == place);
        if places.contains(p) {
            let i = choose|i: int| 0 <= i < places.len() && places[i] == p;
            assert(more[i] == p);
        }
        if more.contains(p) && p != place {
            let i = choose|i: int| 0 <= i < more.len() && more[i] == p;
            assert(places[i] == p);
        }
    }
}

/// The forefront list of an opened queue is the list on record, in its order, at just the places
/// whose keys are pending.
pub proof fn law_restored_forefront_keeps_the_recorded_order(rebuild: RebuildView) -> (places: Seq<
    int,
>)
    ensures
        picks(rebuild.finished().metadata.forefront, rebuild.metadata.forefront, places),
        forall|p: int|
            #![trigger rebuild.metadata.forefront[p]]
            0 <= p < rebuild.metadata.forefront.len() ==> (places.contains(p) <==> {
                let key = rebuild.metadata.forefront[p];
                rebuild.requests.contains_key(key) && rebuild.requests[key].order_no is Some
            }),
{
    lemma_places_of_the_pending(rebuild.metadata.forefront, rebuild.requests)
}

/// Of two keys of the forefront list on record that are still pending, the one that stands later
/// there stands later when the queue is opened.
pub proof fn law_opening_keeps_which_entered_the_forefront_last(
    rebuild: RebuildView,
    a: Seq<char>,
    b: Seq<char>,
)
    requires
        rebuild.metadata.forefront.contains(a),
        rebuild.metadata.forefront.contains(b),
        rebuild.requests.contains_key(a) && rebuild.requests[a].order_no is Some,
        rebuild.requests.contains_key(b) && rebuild.requests[b].order_no is Some,
    ensures
        last_place(rebuild.finished().metadata.forefront, a) > last_place(
            rebuild.finished().metadata.forefront,
            b,
        ) <==> last_place(rebuild.metadata.forefront, a) > last_place(
            rebuild.metadata.forefront,
            b,
        ),
{
    let places = law_restored_forefront_keeps_the_recorded_order(rebuild);
    lemma_which_stands_last_is_kept(
        rebuild.finished().metadata.forefront,
        rebuild.metadata.forefront,
        places,
        a,
        b,
    );
}

/// An opened queue hands its forefront out by the list on record: of two candidates that are on
/// it, the one that stands later is fetched earlier.
pub proof fn law_opened_queue_fetches_by_the_recorded_forefront(
    rebuild: RebuildView,
    now: int,
    keys: Seq<Seq<char>>,
    i: int,
    j: int,
)
    requires
        is_candidate_order(rebuild.finished(), now, keys),
        0 <= i < keys.len(),
        0 <= j < keys.len(),
        rebuild.metadata.forefront.contains(keys[i]),
        rebuild.metadata.forefront.contains(keys[j]),
    ensures
        i < j <==> last_place(rebuild.metadata.forefront, keys[i]) > last_place(
            rebuild.metadata.forefront,
            keys[j],
        ),
{
    let opened = rebuild.finished();
    law_candidates_are_the_fetchable(opened, now, keys);
    assert(keys.contains(keys[i]) && keys.contains(keys[j]));
    assert(opened.is_fetchable(keys[i], now) && opened.is_fetchable(keys[j], now));
    let places = law_restored_forefront_keeps_the_recorded_order(rebuild);
    lemma_which_stands_last_is_kept(
        opened.metadata.forefront,
        rebuild.metadata.forefront,
        places,
        keys[i],
        keys[j],
    );
    law_forefront_is_last_in_first_out(opened, now, keys, i, j);
}

/// A request that is marked leaves the forefront list, which is otherwise as it was, in its
/// order.
pub proof fn law_marking_keeps_the_rest_of_the_forefront(queue: QueueView, mark: MarkView) -> (
places: Seq<int>)
    ensures
        picks(
            mark.recorded_in(queue).metadata.forefront,
            queue.metadata.forefront,
            places,
        ),
        forall|p: int|
            #![trigger queue.metadata.forefront[p]]
            0 <= p < queue.metadata.forefront.len() ==> (places.contains(p)
                <==> queue.metadata.forefront[p] != mark.unique_key),
{
    lemma_places_of_the_others(queue.metadata.forefront, mark.unique_key)
}

/// Of two regular candidates, the one with the lower order number is fetched earlier, and of two
/// with the same order number the one that was inserted earlier.
pub proof fn law_regular_candidates_go_by_number(
    queue: QueueView,
    now: int,
    keys: Seq<Seq<char>>,
    i: int,
    j: int,
)
    requires
        is_candidate_order(queue, now, keys),
        0 <= i < keys.len(),
        0 <= j < keys.len(),
        !queue.metadata.forefront.contains(keys[i]),
        !queue.metadata.forefront.contains(keys[j]),
    ensures
        queue.requests[keys[i]].order_no is Some,
        queue.requests[keys[j]].order_no is Some,
        queue.requests[keys[i]].order_no->0 < queue.requests[keys[j]].order_no->0 ==> i < j,
        queue.requests[keys[i]].order_no == queue.requests[keys[j]].order_no
            && queue.requests[keys[i]].insertion_seq < queue.requests[keys[j]].insertion_seq ==> i
            < j,
{
    law_candidates_are_the_fetchable(queue, now, keys);
    assert(keys.contains(keys[i]) && keys.contains(keys[j]));
    assert(queue.is_fetchable(keys[i], now) && queue.is_fetchable(keys[j], now));
    let a = queue.requests[keys[i]];
    let b = queue.requests[keys[j]];
    if a.order_no->0 < b.order_no->0 || (a.order_no == b.order_no && a.insertion_seq
        < b.insertion_seq) {
        law_regular_is_first_in_first_out(queue, now, keys, i, j);
    }
}

/// What the order in which two requests are fetched rests on: their entries, whether they are in
/// the forefront list, and which of them stands last there. Where these are the same in two
/// queues, so is the order, whenever each is asked.
pub proof fn law_order_of_two_requests_is_kept(
    before: QueueView,
    after: QueueView,
    earlier: int,
    later: int,
    keys: Seq<Seq<char>>,
    keys_after: Seq<Seq<char>>,
    i: int,
    j: int,
    k: int,
    l: int,
)
    requires
        is_candidate_order(before, earlier, keys),
        is_candidate_order(after, later, keys_after),
        0 <= i < keys.len(),
        0 <= j < keys.len(),
        0 <= k < keys_after.len(),
        0 <= l < keys_after.len(),
        keys_after[k] == keys[i],
        keys_after[l] == keys[j],
        i != j,
        before.requests[keys[i]] != before.requests[keys[j]],
        after.requests[keys[i]] == before.requests[keys[i]],
        after.requests[keys[j]] == before.requests[keys[j]],
        after.metadata.forefront.contains(keys[i]) <==> before.metadata.forefront.contains(
            keys[i],
        ),
        after.metadata.forefront.contains(keys[j]) <==> before.metadata.forefront.contains(
            keys[j],
        ),
        before.metadata.forefront.contains(keys[i]) && before.metadata.forefront.contains(keys[j])
            ==> (last_place(after.metadata.forefront, keys[i]) > last_place(
            after.metadata.forefront,
            keys[j],
        ) <==> last_place(before.metadata.forefront, keys[i]) > last_place(
            before.metadata.forefront,
            keys[j],
        )),
    ensures
        i < j <==> k < l,
{
    let a = keys[i];
    let b = keys[j];
    law_candidates_are_the_fetchable(before, earlier, keys);
    assert(a != b);
    assert(k != l);
    let front = before.metadata.forefront;
    if front.contains(a) && front.contains(b) {
        law_forefront_is_last_in_first_out(before, earlier, keys, i, j);
        law_forefront_is_last_in_first_out(after, later, keys_after, k, l);
    } else if front.contains(a) {
        law_forefront_precedes_regular(before, earlier, keys, i, j);
        law_forefront_precedes_regular(after, later, keys_after, k, l);
    } else if front.contains(b) {
        law_forefront_precedes_regular(before, earlier, keys, j, i);
        law_forefront_precedes_regular(after, later, keys_after, l, k);
    } else {
        law_regular_candidates_go_by_number(before, earlier, keys, i, j);
        law_regular_candidates_go_by_number(before, earlier, keys, j, i);
        law_regular_candidates_go_by_number(after, later, keys_after, k, l);
        law_regular_candidates_go_by_number(after, later, keys_after, l, k);
    }
}

/// To append a key to a list moves no other.
proof fn lemma_appending_moves_no_other(
    list: Seq<Seq<char>>,
    key: Seq<char>,
    other: Seq<char>,
)
    requires
        other != key,
    ensures
        list.push(key).contains(other) <==> list.contains(other),
        last_place(list.push(key), other) == last_place(list, other),
{
    let more = list.push(key);
    assert(more.drop_last() =~= list);
    if list.contains(other) {
        let p = choose|p: int| 0 <= p < list.len() && list[p] == other;
        assert(more[p] == other);
    }
    if more.contains(other) {
        let p = choose|p: int| 0 <= p < more.len() && more[p] == other;
        assert(list[p] == other);
    }
}

/// Adding a request leaves the order in which two others are fetched as it was.
pub proof fn law_adding_keeps_the_order_of_others(
    queue: QueueView,
    pending: PendingView,
    earlier: int,
    later: int,
    keys: Seq<Seq<char>>,
    keys_after: Seq<Seq<char>>,
    i: int,
    j: int,
    k: int,
    l: int,
)
    requires
        is_candidate_order(queue, earlier, keys),
        is_candidate_order(pending.stored_in(queue), later, keys_after),
        0 <= i < keys.len(),
        0 <= j < keys.len(),
        0 <= k < keys_after.len(),
        0 <= l < keys_after.len(),
        keys_after[k] == keys[i],
        keys_after[l] == keys[j],
        i != j,
        queue.requests[keys[i]] != queue.requests[keys[j]],
        keys[i] != pending.unique_key,
        keys[j] != pending.unique_key,
    ensures
        i < j <==> k < l,
{
    let list = queue.metadata.forefront;
    lemma_appending_moves_no_other(list, pending.unique_key, keys[i]);
    lemma_appending_moves_no_other(list, pending.unique_key, keys[j]);
    law_order_of_two_requests_is_kept(
        queue,
        pending.stored_in(queue),
        earlier,
        later,
        keys,
        keys_after,
        i,
        j,
        k,
        l,
    );
}

/// Returning a request leaves the order in which two others are fetched as it was.
pub proof fn law_reclaiming_keeps_the_order_of_others(
    queue: QueueView,
    reclaim: ReclaimView,
    at: Timestamp,
    earlier: int,
    later: int,
    keys: Seq<Seq<char>>,
    keys_after: Seq<Seq<char>>,
    i: int,
    j: int,
    k: int,
    l: int,
)
    requires
        is_candidate_order(queue, earlier, keys),
        is_candidate_order(reclaim.recorded_in(queue, at), later, keys_after),
        0 <= i < keys.len(),
        0 <= j < keys.len(),
        0 <= k < keys_after.len(),
        0 <= l < keys_after.len(),
        keys_after[k] == keys[i],
        keys_after[l] == keys[j],
        i != j,
        queue.requests[keys[i]] != queue.requests[keys[j]],
        keys[i] != reclaim.unique_key,
        keys[j] != reclaim.unique_key,
    ensures
        i < j <==> k < l,
{
    let list = queue.metadata.forefront;
    lemma_appending_moves_no_other(list, reclaim.unique_key, keys[i]);
    lemma_appending_moves_no_other(list, reclaim.unique_key, keys[j]);
    law_order_of_two_requests_is_kept(
        queue,
        reclaim.recorded_in(queue, at),
        earlier,
        later,
        keys,
        keys_after,
        i,
        j,
        k,
        l,
    );
}

/// Marking a request leaves the order in which two others are fetched as it was.
pub proof fn law_marking_keeps_the_order_of_others(
    queue: QueueView,
    mark: MarkView,
    earlier: int,
    later: int,
    keys: Seq<Seq<char>>,
    keys_after: Seq<Seq<char>>,
    i: int,
    j: int,
    k: int,
    l: int,
)
    requires
        is_candidate_order(queue, earlier, keys),
        is_candidate_order(mark.recorded_in(queue), later, keys_after),
        0 <= i < keys.len(),
        0 <= j < keys.len(),
        0 <= k < keys_after.len(),
        0 <= l < keys_after.len(),
        keys_after[k] == keys[i],
        keys_after[l] == keys[j],
        i != j,
        queue.requests[keys[i]] != queue.requests[keys[j]],
        keys[i] != mark.unique_key,
        keys[j] != mark.unique_key,
    ensures
        i < j <==> k < l,
{
    let after = mark.recorded_in(queue);
    let list = queue.metadata.forefront;
    let list_after = after.metadata.forefront;
    let places = law_marking_keeps_the_rest_of_the_forefront(queue, mark);
    lemma_kept_where_it_was(list_after, list, places, keys[i]);
    lemma_kept_where_it_was(list_after, list, places, keys[j]);
    if list.contains(keys[i]) && list.contains(keys[j]) {
        lemma_which_stands_last_is_kept(list_after, list, places, keys[i], keys[j]);
    }
    law_order_of_two_requests_is_kept(
        queue,
        after,
        earlier,
        later,
        keys,
        keys_after,
        i,
        j,
        k,
        l,
    );
}

proof fn lemma_kept_where_it_was(
    part: Seq<Seq<char>>,
    whole: Seq<Seq<char>>,
    places: Seq<int>,
    key: Seq<char>,
)
    requires
        picks(part, whole, places),
        forall|p: int|
            0 <= p < whole.len() && #[trigger] whole[p] == key ==> places.contains(p),
    ensures
        part.contains(key) <==> whole.contains(key),
{
    if whole.contains(key) {
        lemma_last_place_is_kept(part, whole, places, key);
    }
    if part.contains(key) {
        let i = choose|i: int| 0 <= i < part.len() && part[i] == key;
        assert(whole[places[i]] == key);
    }
}

} // verus!
