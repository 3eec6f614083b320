//! Laws on which request is fetched next.
use vstd::prelude::*;

use crate::candidates::{
    entry_precedes, forefront_candidates, is_candidate_order, newest_first,
};
use crate::fetch::{after_sighting, sighting, LockView, Sighting};
use crate::ids::file_name_of;
use crate::json::json_parse;
use crate::request::order_no_of;
use crate::state::QueueView;

verus! {

/// Where the key stands last in the list, or -1 where it does not occur.
pub open spec fn last_place(list: Seq<Seq<char>>, key: Seq<char>) -> int
    decreases list.len(),
{
    if list.len() == 0 {
        -1
    } else if list.last() == key {
        list.len() - 1
    } else {
        last_place(list.drop_last(), key)
    }
}

/// No two fetchable requests have the same order number and the same place in the order of
/// insertion.
pub open spec fn ranks_are_distinct(queue: QueueView, now: int) -> bool {
    forall|a: Seq<char>, b: Seq<char>|
        #![trigger queue.requests[a], queue.requests[b]]
        {
            &&& queue.is_fetchable(a, now)
            &&& queue.is_fetchable(b, now)
            &&& entry_precedes(queue.requests[a], queue.requests[b])
            &&& entry_precedes(queue.requests[b], queue.requests[a])
        } ==> a == b
}

proof fn lemma_newest_first(
    queue: QueueView,
    now: int,
    list: Seq<Seq<char>>,
    seen: Set<Seq<char>>,
)
    ensures
        newest_first(queue, now, list, seen).no_duplicates(),
        forall|key: Seq<char>| #[trigger]
            newest_first(queue, now, list, seen).contains(key) <==> list.contains(key)
                && !seen.contains(key) && queue.is_fetchable(key, now),
        forall|i: int, j: int|
            #![trigger newest_first(queue, now, list, seen)[i], newest_first(queue, now, list, seen)[j]]
            0 <= i < j < newest_first(queue, now, list, seen).len() ==> last_place(
                list,
                newest_first(queue, now, list, seen)[i],
            ) > last_place(list, newest_first(queue, now, list, seen)[j]),
    decreases list.len(),
{
    if list.len() > 0 {
        let last = list.last();
        let shorter = list.drop_last();
        let rest = newest_first(queue, now, shorter, seen.insert(last));
        let all = newest_first(queue, now, list, seen);
        lemma_newest_first(queue, now, shorter, seen.insert(last));
        assert forall|key: Seq<char>| list.contains(key) <==> key == last || shorter.contains(
            key,
        ) by {
            assert(list[list.len() - 1] == last);
            if shorter.contains(key) {
                let i = choose|i: int| 0 <= i < shorter.len() && shorter[i] == key;
                assert(list[i] == key);
            }
            if list.contains(key) && key != last {
                let i = choose|i: int| 0 <= i < list.len() && list[i] == key;
                assert(shorter[i] == key);
            }
        }
        assert forall|key: Seq<char>| key != last implies last_place(list, key) == last_place(
            shorter,
            key,
        ) by {}
        assert forall|key: Seq<char>| #[trigger] last_place(shorter, key) < shorter.len() by {
            lemma_last_place_bound(shorter, key);
        }
        assert(!rest.contains(last));
        if !seen.contains(last) && queue.is_fetchable(last, now) {
            assert(all =~= seq![last] + rest);
            assert(all[0] == last);
            assert forall|key: Seq<char>| #[trigger] all.contains(key) <==> key == last
                || rest.contains(key) by {
                if rest.contains(key) {
                    let i = choose|i: int| 0 <= i < rest.len() && rest[i] == key;
                    assert(all[i + 1] == key);
                }
                if all.contains(key) && key != last {
                    let i = choose|i: int| 0 <= i < all.len() && all[i] == key;
                    assert(rest[i - 1] == key);
                }
            }
            assert forall|i: int, j: int|
                #![trigger all[i], all[j]]
                0 <= i < j < all.len() implies last_place(list, all[i]) > last_place(list, all[j])
                && all[i] != all[j] by {
                assert(all[j] == rest[j - 1]);
                assert(rest.contains(rest[j - 1]));
                if i > 0 {
                    assert(all[i] == rest[i - 1]);
                    assert(rest.contains(rest[i - 1]));
                }
            }
        } else {
            assert(all == rest);
            assert forall|i: int, j: int|
                #![trigger all[i], all[j]]
                0 <= i < j < all.len() implies last_place(list, all[i]) > last_place(
                list,
                all[j],
            ) by {
                assert(rest.contains(rest[i]) && rest.contains(rest[j]));
            }
        }
    }
}

proof fn lemma_last_place_bound(list: Seq<Seq<char>>, key: Seq<char>)
    ensures
        last_place(list, key) < list.len(),
    decreases list.len(),
{
    if list.len() > 0 {
        lemma_last_place_bound(list.drop_last(), key);
    }
}

/// Every candidate stands in one of the two parts of the order, and what part that is can be
/// seen from the forefront list.
proof fn lemma_two_parts(queue: QueueView, now: int, keys: Seq<Seq<char>>)
    requires
        is_candidate_order(queue, now, keys),
    ensures
        forall|i: int|
            0 <= i < keys.len() ==> queue.is_fetchable(#[trigger] keys[i], now) && (
            queue.metadata.forefront.contains(keys[i]) <==> i < forefront_candidates(
                queue,
                now,
            ).len()),
{
    let front = forefront_candidates(queue, now);
    let rest = keys.skip(front.len() as int);
    lemma_newest_first(queue, now, queue.metadata.forefront, Set::empty());
    assert forall|i: int| 0 <= i < keys.len() implies queue.is_fetchable(#[trigger] keys[i], now)
        && (queue.metadata.forefront.contains(keys[i]) <==> i < front.len()) by {
        if i < front.len() {
            assert(keys[i] == keys.take(front.len() as int)[i]);
            assert(front.contains(front[i]));
        } else {
            assert(keys[i] == rest[i - front.len()]);
            assert(rest.contains(rest[i - front.len()]));
        }
    }
}

/// The candidates are exactly the requests that can be fetched, each once.
pub proof fn law_candidates_are_the_fetchable(queue: QueueView, now: int, keys: Seq<Seq<char>>)
    requires
        is_candidate_order(queue, now, keys),
    ensures
        keys.no_duplicates(),
        forall|key: Seq<char>| #[trigger] keys.contains(key) <==> queue.is_fetchable(key, now),
{
    let front = forefront_candidates(queue, now);
    let rest = keys.skip(front.len() as int);
    lemma_newest_first(queue, now, queue.metadata.forefront, Set::empty());
    lemma_two_parts(queue, now, keys);
    assert forall|key: Seq<char>| #[trigger] keys.contains(key) <==> queue.is_fetchable(
        key,
        now,
    ) by {
        if keys.contains(key) {
            let i = choose|i: int| 0 <= i < keys.len() && keys[i] == key;
            assert(queue.is_fetchable(keys[i], now));
        }
        if queue.is_fetchable(key, now) {
            if queue.metadata.forefront.contains(key) {
                assert(front.contains(key));
                let i = choose|i: int| 0 <= i < front.len() && front[i] == key;
                assert(keys.take(front.len() as int)[i] == key);
                assert(keys[i] == key);
            } else {
                assert(rest.contains(key));
                let i = choose|i: int| 0 <= i < rest.len() && rest[i] == key;
                assert(keys[i + front.len()] == key);
            }
        }
    }
    assert forall|i: int, j: int|
        0 <= i < keys.len() && 0 <= j < keys.len() && i != j implies keys[i] != keys[j] by {
        if i < front.len() && j < front.len() {
            assert(keys[i] == keys.take(front.len() as int)[i]);
            assert(keys[j] == keys.take(front.len() as int)[j]);
        } else if i >= front.len() && j >= front.len() {
            assert(keys[i] == rest[i - front.len()]);
            assert(keys[j] == rest[j - front.len()]);
        }
    }
}

/// A queue is empty exactly when there is no candidate.
pub proof fn law_empty_queue_has_no_candidate(queue: QueueView, now: int, keys: Seq<Seq<char>>)
    requires
        is_candidate_order(queue, now, keys),
    ensures
        keys.len() == 0 <==> !queue.has_fetchable(now),
{
    law_candidates_are_the_fetchable(queue, now, keys);
    if keys.len() > 0 {
        assert(keys.contains(keys[0]));
        assert(queue.is_fetchable(keys[0], now));
    }
    if queue.has_fetchable(now) {
        let key = choose|key: Seq<char>| queue.is_fetchable(key, now);
        assert(keys.contains(key));
    }
}

/// Of two forefront requests, the one that entered the list later is fetched earlier.
pub proof fn law_forefront_is_last_in_first_out(
    queue: QueueView,
    now: int,
    keys: Seq<Seq<char>>,
    i: int,
    j: int,
)
    requires
        is_candidate_order(queue, now, keys),
        0 <= i < keys.len(),
        0 <= j < keys.len(),
        queue.metadata.forefront.contains(keys[i]),
        queue.metadata.forefront.contains(keys[j]),
    ensures
        i < j <==> last_place(queue.metadata.forefront, keys[i]) > last_place(
            queue.metadata.forefront,
            keys[j],
        ),
{
    let front = forefront_candidates(queue, now);
    lemma_two_parts(queue, now, keys);
    lemma_newest_first(queue, now, queue.metadata.forefront, Set::empty());
    assert(keys[i] == keys.take(front.len() as int)[i]);
    assert(keys[j] == keys.take(front.len() as int)[j]);
    assert(keys[i] == front[i] && keys[j] == front[j]);
}

/// A forefront request is fetched before any regular one.
pub proof fn law_forefront_precedes_regular(
    queue: QueueView,
    now: int,
    keys: Seq<Seq<char>>,
    i: int,
    j: int,
)
    requires
        is_candidate_order(queue, now, keys),
        0 <= i < keys.len(),
        0 <= j < keys.len(),
        queue.metadata.forefront.contains(keys[i]),
        !queue.metadata.forefront.contains(keys[j]),
    ensures
        i < j,
{
    lemma_two_parts(queue, now, keys);
}

/// Of two regular requests, the one with the lower order number is fetched earlier. If these are
/// the same, the one that was inserted earlier is.
pub proof fn law_regular_is_first_in_first_out(
    queue: QueueView,
    now: int,
    keys: Seq<Seq<char>>,
    i: int,
    j: int,
)
    requires
        is_candidate_order(queue, now, keys),
        0 <= i < keys.len(),
        0 <= j < keys.len(),
        !queue.metadata.forefront.contains(keys[i]),
        !queue.metadata.forefront.contains(keys[j]),
        entry_precedes(queue.requests[keys[i]], queue.requests[keys[j]]),
        !entry_precedes(queue.requests[keys[j]], queue.requests[keys[i]]),
    ensures
        i < j,
{
    let front = forefront_candidates(queue, now);
    let rest = keys.skip(front.len() as int);
    lemma_two_parts(queue, now, keys);
    assert(keys[i] == rest[i - front.len()]);
    assert(keys[j] == rest[j - front.len()]);
}

/// The order of the candidates is determined by the queue, as long as ranks are distinct.
pub proof fn law_candidate_order_is_unique(
    queue: QueueView,
    now: int,
    a: Seq<Seq<char>>,
    b: Seq<Seq<char>>,
)
    requires
        is_candidate_order(queue, now, a),
        is_candidate_order(queue, now, b),
        ranks_are_distinct(queue, now),
    ensures
        a == b,
{
    let front = forefront_candidates(queue, now);
    let n = front.len() as int;
    let rest_a = a.skip(n);
    let rest_b = b.skip(n);
    assert forall|key: Seq<char>| #[trigger] rest_a.contains(key) <==> rest_b.contains(key) by {}
    assert forall|i: int| 0 <= i < rest_a.len() implies queue.is_fetchable(
        #[trigger] rest_a[i],
        now,
    ) by {
        assert(rest_a.contains(rest_a[i]));
    }
    lemma_one_way_to_rank(queue, now, rest_a, rest_b);
    assert(a =~= a.take(n) + rest_a);
    assert(b =~= b.take(n) + rest_b);
}

proof fn lemma_one_way_to_rank(
    queue: QueueView,
    now: int,
    a: Seq<Seq<char>>,
    b: Seq<Seq<char>>,
)
    requires
        ranks_are_distinct(queue, now),
        a.no_duplicates(),
        b.no_duplicates(),
        forall|key: Seq<char>| #[trigger] a.contains(key) <==> b.contains(key),
        forall|i: int| 0 <= i < a.len() ==> queue.is_fetchable(#[trigger] a[i], now),
        forall|i: int, j: int|
            #![trigger a[i], a[j]]
            0 <= i < j < a.len() ==> entry_precedes(queue.requests[a[i]], queue.requests[a[j]]),
        forall|i: int, j: int|
            #![trigger b[i], b[j]]
            0 <= i < j < b.len() ==> entry_precedes(queue.requests[b[i]], queue.requests[b[j]]),
    ensures
        a == b,
    decreases a.len(),
{
    if a.len() == 0 {
        if b.len() > 0 {
            assert(b.contains(b[0]));
            assert(a.contains(b[0]));
        }
        assert(a =~= b);
    } else {
        assert(a.contains(a[0]));
        assert(b.contains(a[0]));
        assert(b.contains(b[0]));
        assert(a.contains(b[0]));
        let i = choose|i: int| 0 <= i < b.len() && b[i] == a[0];
        let j = choose|j: int| 0 <= j < a.len() && a[j] == b[0];
        assert(queue.is_fetchable(a[j], now));
        assert(entry_precedes(queue.requests[b[0]], queue.requests[b[i]]));
        assert(entry_precedes(queue.requests[a[0]], queue.requests[a[j]]));
        assert(a[0] == b[0]);
        let rest_a = a.skip(1);
        let rest_b = b.skip(1);
        assert forall|key: Seq<char>| #[trigger] rest_a.contains(key) <==> rest_b.contains(
            key,
        ) by {
            if rest_a.contains(key) {
                let x = choose|x: int| 0 <= x < rest_a.len() && rest_a[x] == key;
                assert(a[x + 1] == key);
                assert(a.contains(key));
                assert(b.contains(key));
                let y = choose|y: int| 0 <= y < b.len() && b[y] == key;
                assert(y != 0);
                assert(rest_b[y - 1] == key);
            }
            if rest_b.contains(key) {
                let x = choose|x: int| 0 <= x < rest_b.len() && rest_b[x] == key;
                assert(b[x + 1] == key);
                assert(b.contains(key));
                assert(a.contains(key));
                let y = choose|y: int| 0 <= y < a.len() && a[y] == key;
                assert(y != 0);
                assert(rest_a[y - 1] == key);
            }
        }
        lemma_one_way_to_rank(queue, now, rest_a, rest_b);
        assert(a =~= seq![a[0]] + rest_a);
        assert(b =~= seq![b[0]] + rest_b);
    }
}

/// What the file of this name holds, if it can be read.
pub open spec fn content_of(files: Map<Seq<char>, Seq<char>>, name: Seq<char>) -> Option<Seq<char>> {
    if files.contains_key(name) {
        Some(files[name])
    } else {
        None
    }
}

/// What the files of a directory show of a request.
pub open spec fn file_shows(
    files: Map<Seq<char>, Seq<char>>,
    unique_key: Seq<char>,
    now: int,
    lock_millis: int,
) -> Sighting {
    sighting(content_of(files, file_name_of(unique_key)), now, lock_millis)
}

/// The queue after a scan of these candidates at `now`, and the lock that it ended with.
pub open spec fn scan(
    queue: QueueView,
    keys: Seq<Seq<char>>,
    now: int,
    files: Map<Seq<char>, Seq<char>>,
) -> (QueueView, Option<LockView>)
    decreases keys.len(),
{
    if keys.len() == 0 {
        (queue, None)
    } else {
        match file_shows(files, keys[0], now, queue.lock_millis) {
            Sighting::Free(order_no, document) => (
                queue,
                Some(LockView { unique_key: keys[0], order_no, document }),
            ),
            seen => scan(after_sighting(queue, keys[0], seen), keys.skip(1), now, files),
        }
    }
}

/// A scan ends with the first candidate whose file shows that it is free, and with none if
/// there is no such candidate.
pub proof fn law_scan_ends_with_the_first_free(
    queue: QueueView,
    keys: Seq<Seq<char>>,
    now: int,
    files: Map<Seq<char>, Seq<char>>,
)
    ensures
        match scan(queue, keys, now, files).1 {
            None => forall|i: int|
                0 <= i < keys.len() ==> !(file_shows(
                    files,
                    #[trigger] keys[i],
                    now,
                    queue.lock_millis,
                ) is Free),
            Some(lock) => exists|i: int|
                {
                    &&& 0 <= i < keys.len()
                    &&& #[trigger] keys[i] == lock.unique_key
                    &&& file_shows(files, keys[i], now, queue.lock_millis) == Sighting::Free(
                        lock.order_no,
                        lock.document,
                    )
                    &&& forall|j: int|
                        0 <= j < i ==> !(file_shows(
                            files,
                            #[trigger] keys[j],
                            now,
                            queue.lock_millis,
                        ) is Free)
                },
        },
    decreases keys.len(),
{
    if keys.len() > 0 {
        let seen = file_shows(files, keys[0], now, queue.lock_millis);
        if seen is Free {
            assert(keys[0] == scan(queue, keys, now, files).1->0.unique_key);
        } else {
            let next = after_sighting(queue, keys[0], seen);
            let rest = keys.skip(1);
            law_scan_ends_with_the_first_free(next, rest, now, files);
            match scan(next, rest, now, files).1 {
                None => {
                    assert forall|i: int| 0 <= i < keys.len() implies !(file_shows(
                        files,
                        #[trigger] keys[i],
                        now,
                        queue.lock_millis,
                    ) is Free) by {
                        if i > 0 {
                            assert(rest[i - 1] == keys[i]);
                        }
                    }
                },
                Some(lock) => {
                    let i = choose|i: int|
                        {
                            &&& 0 <= i < rest.len()
                            &&& #[trigger] rest[i] == lock.unique_key
                            &&& file_shows(files, rest[i], now, queue.lock_millis)
                                == Sighting::Free(lock.order_no, lock.document)
                            &&& forall|j: int|
                                0 <= j < i ==> !(file_shows(
                                    files,
                                    #[trigger] rest[j],
                                    now,
                                    queue.lock_millis,
                                ) is Free)
                        };
                    assert(keys[i + 1] == rest[i]);
                    assert forall|j: int| 0 <= j < i + 1 implies !(file_shows(
                        files,
                        #[trigger] keys[j],
                        now,
                        queue.lock_millis,
                    ) is Free) by {
                        if j > 0 {
                            assert(rest[j - 1] == keys[j]);
                        }
                    }
                },
            }
        }
    }
}

/// The file of every request that can be fetched has the order number of the index.
pub open spec fn in_step(
    queue: QueueView,
    now: int,
    files: Map<Seq<char>, Seq<char>>,
) -> bool {
    forall|key: Seq<char>| #[trigger]
        queue.is_fetchable(key, now) ==> {
            let name = file_name_of(key);
            &&& files.contains_key(name)
            &&& json_parse(files[name]) matches Some(document)
            &&& order_no_of(document) == queue.requests[key].order_no
        }
}

/// The queue after it was asked whether it is empty, with these candidates at `now`, and whether
/// it is.
pub open spec fn empty_scan(
    queue: QueueView,
    keys: Seq<Seq<char>>,
    now: int,
    files: Map<Seq<char>, Seq<char>>,
) -> (QueueView, bool)
    decreases keys.len(),
{
    if keys.len() == 0 {
        (queue, true)
    } else {
        let seen = file_shows(files, keys[0], now, queue.lock_millis);
        let next = after_sighting(queue, keys[0], seen);
        if seen is Free {
            (next, false)
        } else {
            empty_scan(next, keys.skip(1), now, files)
        }
    }
}

/// To ask whether a queue is empty looks at the files just as a fetch does.
proof fn lemma_empty_scan_is_a_scan(
    queue: QueueView,
    keys: Seq<Seq<char>>,
    now: int,
    files: Map<Seq<char>, Seq<char>>,
)
    ensures
        empty_scan(queue, keys, now, files).0 == scan(queue, keys, now, files).0,
        empty_scan(queue, keys, now, files).1 <==> scan(queue, keys, now, files).1 is None,
    decreases keys.len(),
{
    if keys.len() > 0 {
        let seen = file_shows(files, keys[0], now, queue.lock_millis);
        lemma_empty_scan_is_a_scan(
            after_sighting(queue, keys[0], seen),
            keys.skip(1),
            now,
            files,
        );
    }
}

/// What a scan leaves behind: nothing becomes fetchable by it, and a candidate whose file is
/// free stays so.
proof fn lemma_scan_only_hides(
    queue: QueueView,
    keys: Seq<Seq<char>>,
    now: int,
    files: Map<Seq<char>, Seq<char>>,
    key: Seq<char>,
)
    ensures
        scan(queue, keys, now, files).0.lock_millis == queue.lock_millis,
        scan(queue, keys, now, files).0.metadata == queue.metadata,
        scan(queue, keys, now, files).0.is_fetchable(key, now) ==> queue.is_fetchable(key, now),
        queue.is_fetchable(key, now) && file_shows(files, key, now, queue.lock_millis) is Free
            ==> scan(queue, keys, now, files).0.is_fetchable(key, now),
    decreases keys.len(),
{
    if keys.len() > 0 {
        let seen = file_shows(files, keys[0], now, queue.lock_millis);
        lemma_scan_only_hides(
            after_sighting(queue, keys[0], seen),
            keys.skip(1),
            now,
            files,
            key,
        );
    }
}

/// A queue is empty exactly when the next fetch, at the same time and of the same files, comes
/// back with nothing, whatever the index had of the files.
pub proof fn law_fetch_agrees_with_is_empty(
    queue: QueueView,
    keys: Seq<Seq<char>>,
    now: int,
    files: Map<Seq<char>, Seq<char>>,
    next_keys: Seq<Seq<char>>,
)
    requires
        is_candidate_order(queue, now, keys),
        is_candidate_order(empty_scan(queue, keys, now, files).0, now, next_keys),
    ensures
        empty_scan(queue, keys, now, files).1 <==> scan(
            empty_scan(queue, keys, now, files).0,
            next_keys,
            now,
            files,
        ).1 is None,
{
    let (after, empty) = empty_scan(queue, keys, now, files);
    lemma_empty_scan_is_a_scan(queue, keys, now, files);
    law_scan_ends_with_the_first_free(queue, keys, now, files);
    law_scan_ends_with_the_first_free(after, next_keys, now, files);
    law_candidates_are_the_fetchable(queue, now, keys);
    law_candidates_are_the_fetchable(after, now, next_keys);
    lemma_scan_only_hides(queue, keys, now, files, Seq::empty());
    if empty {
        assert forall|i: int| 0 <= i < next_keys.len() implies !(file_shows(
            files,
            #[trigger] next_keys[i],
            now,
            after.lock_millis,
        ) is Free) by {
            let key = next_keys[i];
            assert(next_keys.contains(key));
            lemma_scan_only_hides(queue, keys, now, files, key);
            assert(keys.contains(key));
            let j = choose|j: int| 0 <= j < keys.len() && keys[j] == key;
            assert(!(file_shows(files, keys[j], now, queue.lock_millis) is Free));
        }
    } else {
        let lock = scan(queue, keys, now, files).1->0;
        let key = lock.unique_key;
        assert(keys.contains(key));
        lemma_scan_only_hides(queue, keys, now, files, key);
        assert(next_keys.contains(key));
        let j = choose|j: int| 0 <= j < next_keys.len() && next_keys[j] == key;
        assert(file_shows(files, next_keys[j], now, after.lock_millis) is Free);
    }
}

/// While the files are in step with the index, the index alone says whether the queue is empty,
/// to ask changes nothing, and a queue that is not empty hands out its first candidate.
pub proof fn law_asking_a_queue_in_step_changes_nothing(
    queue: QueueView,
    keys: Seq<Seq<char>>,
    now: int,
    files: Map<Seq<char>, Seq<char>>,
)
    requires
        is_candidate_order(queue, now, keys),
        in_step(queue, now, files),
    ensures
        empty_scan(queue, keys, now, files).0 == queue,
        empty_scan(queue, keys, now, files).1 <==> !queue.has_fetchable(now),
        scan(queue, keys, now, files).1 matches Some(lock) ==> lock.unique_key == keys[0],
{
    law_empty_queue_has_no_candidate(queue, now, keys);
    if keys.len() > 0 {
        law_candidates_are_the_fetchable(queue, now, keys);
        assert(keys.contains(keys[0]));
        assert(queue.is_fetchable(keys[0], now));
        assert(file_shows(files, keys[0], now, queue.lock_millis) is Free);
    }
}

proof fn lemma_times_do_not_order(
    a: QueueView,
    b: QueueView,
    now: int,
    list: Seq<Seq<char>>,
    seen: Set<Seq<char>>,
)
    requires
        a.requests == b.requests,
    ensures
        newest_first(a, now, list, seen) == newest_first(b, now, list, seen),
    decreases list.len(),
{
    if list.len() > 0 {
        lemma_times_do_not_order(a, b, now, list.drop_last(), seen.insert(list.last()));
    }
}

/// The order of the candidates rests on the index and the forefront list, and on nothing else of
/// the queue, so that recording an access leaves it as it is.
pub proof fn law_candidate_order_rests_on_the_index(
    a: QueueView,
    b: QueueView,
    now: int,
    keys: Seq<Seq<char>>,
)
    requires
        a.requests == b.requests,
        a.metadata.forefront == b.metadata.forefront,
        is_candidate_order(a, now, keys),
    ensures
        is_candidate_order(b, now, keys),
{
    lemma_times_do_not_order(a, b, now, a.metadata.forefront, Set::empty());
    let front = forefront_candidates(a, now);
    let rest = keys.skip(front.len() as int);
    assert forall|key: Seq<char>| #[trigger] rest.contains(key) <==> b.is_fetchable(key, now)
        && !b.metadata.forefront.contains(key) by {
        assert(a.is_fetchable(key, now) == b.is_fetchable(key, now));
    }
}

} // verus!
