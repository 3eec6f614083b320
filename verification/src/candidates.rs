//! The order in which requests are tried when one is to be fetched.
use vstd::prelude::*;

use crate::clock::Timestamp;
use crate::models::texts;
use crate::order::is_locked_order;
use crate::sort::{is_ranked, merge_sort, Ranked};
use crate::state::{FileSystemRequestQueueClient, QueueView, RequestEntry};
use crate::string_map::StringMap;

verus! {

/// The fetchable requests of a forefront list, newest first. A key counts where it stands last.
pub open spec fn newest_first(
    queue: QueueView,
    now: int,
    list: Seq<Seq<char>>,
    seen: Set<Seq<char>>,
) -> Seq<Seq<char>>
    decreases list.len(),
{
    if list.len() == 0 {
        Seq::empty()
    } else {
        let key = list.last();
        let rest = newest_first(queue, now, list.drop_last(), seen.insert(key));
        if !seen.contains(key) && queue.is_fetchable(key, now) {
            seq![key] + rest
        } else {
            rest
        }
    }
}

/// The candidates that stand in the forefront list.
pub open spec fn forefront_candidates(queue: QueueView, now: int) -> Seq<Seq<char>> {
    newest_first(queue, now, queue.metadata.forefront, Set::empty())
}

/// Ascending order number, ties broken by insertion.
pub open spec fn entry_precedes(a: RequestEntry, b: RequestEntry) -> bool {
    let x = a.order_no->0;
    let y = b.order_no->0;
    x < y || (x == y && a.insertion_seq <= b.insertion_seq)
}

/// `keys` are the fetchable requests outside the forefront list, each once, in ascending order.
pub open spec fn is_regular_order(queue: QueueView, now: int, keys: Seq<Seq<char>>) -> bool {
    &&& keys.no_duplicates()
    &&& forall|key: Seq<char>| #[trigger]
        keys.contains(key) <==> queue.is_fetchable(key, now) && !queue.metadata.forefront.contains(
            key,
        )
    &&& forall|i: int, j: int|
        #![trigger keys[i], keys[j]]
        0 <= i < j < keys.len() ==> entry_precedes(queue.requests[keys[i]], queue.requests[keys[j]])
}

/// `keys` is the order in which candidates are tried: forefront first, then the others.
pub open spec fn is_candidate_order(queue: QueueView, now: int, keys: Seq<Seq<char>>) -> bool {
    let front = forefront_candidates(queue, now);
    &&& front.len() <= keys.len()
    &&& keys.take(front.len() as int) == front
    &&& is_regular_order(queue, now, keys.skip(front.len() as int))
}

/// A fetchable request outside the forefront list: its rank, and where the index has it.
struct Regular {
    order_no: i64,
    insertion_seq: u64,
    position: usize,
}

impl Ranked for Regular {
    closed spec fn ranks_before(&self, other: &Regular) -> bool {
        self.order_no < other.order_no || (self.order_no == other.order_no && self.insertion_seq
            <= other.insertion_seq)
    }

    proof fn lemma_total(&self, other: &Regular) {
    }

    proof fn lemma_transitive(&self, middle: &Regular, other: &Regular) {
    }

    fn may_precede(&self, other: &Regular) -> (may: bool) {
        self.order_no < other.order_no || (self.order_no == other.order_no && self.insertion_seq
            <= other.insertion_seq)
    }
}

/// The list describes, in terms of positions among `keys`, requests that are regular candidates.
spec fn describes(
    queue: QueueView,
    now: int,
    keys: Seq<Seq<char>>,
    regular: Regular,
    upto: int,
) -> bool {
    let key = keys[regular.position as int];
    &&& 0 <= regular.position < upto
    &&& queue.is_fetchable(key, now)
    &&& !queue.metadata.forefront.contains(key)
    &&& queue.requests[key] == (RequestEntry {
        order_no: Some(regular.order_no),
        insertion_seq: regular.insertion_seq,
    })
}

impl FileSystemRequestQueueClient {
    /// The keys to try when a request is to be fetched at `now`, in order.
    pub fn ordered_candidate_keys(&self, now: Timestamp) -> (keys: Vec<String>)
        ensures
            is_candidate_order(self@, now.spec_millis(), texts(keys@)),
    {
        let now_millis = now.timestamp_millis();
        let ghost at = now_millis as int;
        let ghost list = texts(self.metadata.forefront_request_ids@);
        let mut seen: StringMap<()> = StringMap::new();
        let mut keys: Vec<String> = Vec::new();
        let mut left = self.metadata.forefront_request_ids.len();
        assert(list.take(left as int) =~= list);
        assert(seen@.dom() =~= Set::empty());
        assert(texts(keys@) =~= Seq::empty());
        assert(Seq::empty() + newest_first(self@, at, list, Set::empty()) =~= newest_first(
            self@,
            at,
            list,
            Set::empty(),
        ));
        while left > 0
            invariant
                left <= list.len(),
                at == now_millis,
                list == texts(self.metadata.forefront_request_ids@),
                texts(keys@) + newest_first(self@, at, list.take(left as int), seen@.dom())
                    == newest_first(self@, at, list, Set::empty()),
                forall|key: Seq<char>| #[trigger]
                    seen@.contains_key(key) <==> list.skip(left as int).contains(key),
            decreases left,
        {
            let ghost keys_before = texts(keys@);
            let ghost seen_before = seen@.dom();
            let ghost prefix = list.take(left as int);
            left = left - 1;
            let key = &self.metadata.forefront_request_ids[left];
            assert(key@ == list[left as int]);
            assert(prefix.last() == key@);
            assert(prefix.drop_last() =~= list.take(left as int));
            proof {
                assert(list.skip(left as int) =~= seq![key@] + list.skip(left + 1));
                assert forall|k: Seq<char>|
                    list.skip(left as int).contains(k) <==> k == key@ || list.skip(
                        left + 1,
                    ).contains(k) by {
                    let longer = list.skip(left as int);
                    let shorter = list.skip(left + 1);
                    assert(longer[0] == key@);
                    if shorter.contains(k) {
                        let i = choose|i: int| 0 <= i < shorter.len() && shorter[i] == k;
                        assert(longer[i + 1] == k);
                    }
                    if longer.contains(k) && k != key@ {
                        let i = choose|i: int| 0 <= i < longer.len() && longer[i] == k;
                        assert(shorter[i - 1] == k);
                    }
                }
            }
            let first_time = !seen.contains_key(key.as_str());
            seen.insert(key.clone(), ());
            assert(seen@.dom() =~= seen_before.insert(key@));
            let mut fetchable = false;
            if first_time {
                match self.requests.get(key.as_str()) {
                    Some(entry) => match entry.order_no {
                        Some(n) => {
                            fetchable = !is_locked_order(n, now_millis);
                        },
                        None => {},
                    },
                    None => {},
                }
            }
            assert(fetchable == (!seen_before.contains(key@) && self@.is_fetchable(key@, at)));
            if fetchable {
                keys.push(key.clone());
                assert(texts(keys@) =~= keys_before.push(key@));
            }
            proof {
                let rest = newest_first(self@, at, list.take(left as int), seen@.dom());
                if fetchable {
                    assert(keys_before + (seq![key@] + rest) =~= texts(keys@) + rest);
                }
            }
        }
        assert(list.take(0) =~= Seq::empty());
        assert(list.skip(0) =~= list);
        assert(texts(keys@) + Seq::empty() =~= texts(keys@));
        let ghost front = texts(keys@);
        assert(front == forefront_candidates(self@, at));

        let total = self.requests.len();
        let ghost positions = self.requests.spec_keys();
        let mut regulars: Vec<Regular> = Vec::new();
        let mut i: usize = 0;
        while i < total
            invariant
                i <= total,
                total == positions.len(),
                positions == self.requests.spec_keys(),
                at == now_millis,
                list == self@.metadata.forefront,
                forall|key: Seq<char>| #[trigger]
                    seen@.contains_key(key) <==> list.contains(key),
                forall|r: int|
                    0 <= r < regulars@.len() ==> describes(
                        self@,
                        at,
                        positions,
                        #[trigger] regulars@[r],
                        i as int,
                    ),
                forall|r: int, s: int|
                    #![trigger regulars@[r], regulars@[s]]
                    0 <= r < s < regulars@.len() ==> regulars@[r].position < regulars@[s].position,
                forall|p: int|
                    0 <= p < i && self@.is_fetchable(#[trigger] positions[p], at) && !list.contains(
                        positions[p],
                    ) ==> exists|r: int|
                        0 <= r < regulars@.len() && (#[trigger] regulars@[r]).position == p,
            decreases total - i,
        {
            let entry = self.requests.value_at(i);
            let key = self.requests.key_at(i);
            let ghost regulars_before = regulars@;
            match entry.order_no {
                Some(n) => {
                    if !is_locked_order(n, now_millis) && !seen.contains_key(key.as_str()) {
                        regulars.push(
                            Regular {
                                order_no: n,
                                insertion_seq: entry.insertion_seq,
                                position: i,
                            },
                        );
                        assert(describes(
                            self@,
                            at,
                            positions,
                            regulars@[regulars_before.len() as int],
                            i + 1,
                        ));
                    }
                },
                None => {},
            }
            proof {
                assert forall|r: int| 0 <= r < regulars@.len() implies describes(
                    self@,
                    at,
                    positions,
                    #[trigger] regulars@[r],
                    i + 1,
                ) by {
                    if r < regulars_before.len() {
                        assert(regulars@[r] == regulars_before[r]);
                    }
                }
                assert forall|p: int|
                    0 <= p < i + 1 && self@.is_fetchable(#[trigger] positions[p], at)
                        && !list.contains(positions[p]) implies exists|r: int|
                    0 <= r < regulars@.len() && (#[trigger] regulars@[r]).position == p by {
                    if p < i {
                        let r = choose|r: int|
                            0 <= r < regulars_before.len() && (
                            #[trigger] regulars_before[r]).position == p;
                        assert(regulars@[r] == regulars_before[r]);
                    } else {
                        assert(regulars@[regulars_before.len() as int].position == p);
                    }
                }
            }
            i += 1;
        }
        let ghost collected = regulars@;
        let sorted = merge_sort(regulars);
        proof {
            lemma_sorted_keeps_elements(collected, sorted@);
        }
        let ghost mut rest: Seq<Seq<char>> = Seq::empty();
        let mut j: usize = 0;
        assert(texts(keys@) =~= front + rest);
        while j < sorted.len()
            invariant
                j <= sorted@.len(),
                total == positions.len(),
                positions == self.requests.spec_keys(),
                forall|r: int|
                    0 <= r < sorted@.len() ==> (#[trigger] sorted@[r]).position < total,
                rest.len() == j,
                forall|r: int|
                    0 <= r < j ==> #[trigger] rest[r] == positions[sorted@[r].position as int],
                texts(keys@) == front + rest,
            decreases sorted@.len() - j,
        {
            let key = self.requests.key_at(sorted[j].position);
            let ghost before = texts(keys@);
            keys.push(key.clone());
            proof {
                rest = rest.push(key@);
                assert(texts(keys@) =~= before.push(key@));
                assert(before.push(key@) =~= front + rest);
            }
            j += 1;
        }
        proof {
            assert(texts(keys@).take(front.len() as int) =~= front);
            assert(texts(keys@).skip(front.len() as int) =~= rest);
            lemma_regular_order(self@, at, positions, collected, sorted@, rest);
        }
        keys
    }
}

/// What a multiset-preserving reordering keeps.
proof fn lemma_sorted_keeps_elements(collected: Seq<Regular>, sorted: Seq<Regular>)
    requires
        sorted.to_multiset() == collected.to_multiset(),
        forall|r: int, s: int|
            #![trigger collected[r], collected[s]]
            0 <= r < s < collected.len() ==> collected[r].position < collected[s].position,
    ensures
        sorted.no_duplicates(),
        forall|x: Regular| #[trigger] sorted.contains(x) <==> collected.contains(x),
        forall|r: int| 0 <= r < sorted.len() ==> collected.contains(#[trigger] sorted[r]),
{
    broadcast use vstd::seq_lib::group_to_multiset_ensures;

    assert(collected.no_duplicates());
    collected.lemma_multiset_has_no_duplicates();
    sorted.lemma_multiset_has_no_duplicates_conv();
    assert forall|x: Regular| #[trigger] sorted.contains(x) <==> collected.contains(x) by {
        vstd::seq_lib::to_multiset_contains(sorted, x);
        vstd::seq_lib::to_multiset_contains(collected, x);
    }
    assert forall|r: int| 0 <= r < sorted.len() implies collected.contains(#[trigger] sorted[r]) by {
        assert(sorted.contains(sorted[r]));
    }
}

proof fn lemma_regular_order(
    queue: QueueView,
    now: int,
    positions: Seq<Seq<char>>,
    collected: Seq<Regular>,
    sorted: Seq<Regular>,
    rest: Seq<Seq<char>>,
)
    requires
        positions.no_duplicates(),
        forall|key: Seq<char>| #[trigger]
            positions.contains(key) <==> queue.requests.contains_key(key),
        forall|r: int|
            0 <= r < collected.len() ==> describes(
                queue,
                now,
                positions,
                #[trigger] collected[r],
                positions.len() as int,
            ),
        forall|r: int, s: int|
            #![trigger collected[r], collected[s]]
            0 <= r < s < collected.len() ==> collected[r].position < collected[s].position,
        forall|p: int|
            0 <= p < positions.len() && queue.is_fetchable(#[trigger] positions[p], now)
                && !queue.metadata.forefront.contains(positions[p]) ==> exists|r: int|
                0 <= r < collected.len() && (#[trigger] collected[r]).position == p,
        is_ranked(sorted),
        sorted.no_duplicates(),
        forall|x: Regular| #[trigger] sorted.contains(x) <==> collected.contains(x),
        rest.len() == sorted.len(),
        forall|r: int|
            0 <= r < rest.len() ==> #[trigger] rest[r] == positions[sorted[r].position as int],
    ensures
        is_regular_order(queue, now, rest),
{
    let upto = positions.len() as int;
    assert forall|r: int| 0 <= r < sorted.len() implies describes(
        queue,
        now,
        positions,
        #[trigger] sorted[r],
        upto,
    ) by {
        assert(sorted.contains(sorted[r]));
        let c = choose|c: int| 0 <= c < collected.len() && collected[c] == sorted[r];
        assert(describes(queue, now, positions, collected[c], upto));
    }
    assert forall|i: int, j: int| 0 <= i < rest.len() && 0 <= j < rest.len() && i != j implies rest[i]
        != rest[j] by {
        assert(sorted.contains(sorted[i]) && sorted.contains(sorted[j]));
        let a = choose|c: int| 0 <= c < collected.len() && collected[c] == sorted[i];
        let b = choose|c: int| 0 <= c < collected.len() && collected[c] == sorted[j];
        assert(sorted[i] != sorted[j]);
        if a < b {
            assert(collected[a].position < collected[b].position);
        } else {
            assert(collected[b].position < collected[a].position);
        }
        assert(describes(queue, now, positions, sorted[i], upto));
        assert(describes(queue, now, positions, sorted[j], upto));
    }
    assert forall|key: Seq<char>| #[trigger] rest.contains(key) <==> queue.is_fetchable(key, now)
        && !queue.metadata.forefront.contains(key) by {
        if rest.contains(key) {
            let r = choose|r: int| 0 <= r < rest.len() && rest[r] == key;
            assert(describes(queue, now, positions, sorted[r], upto));
        }
        if queue.is_fetchable(key, now) && !queue.metadata.forefront.contains(key) {
            assert(positions.contains(key));
            let p = choose|p: int| 0 <= p < positions.len() && positions[p] == key;
            let c = choose|c: int|
                0 <= c < collected.len() && (#[trigger] collected[c]).position == p;
            assert(collected.contains(collected[c]));
            assert(sorted.contains(collected[c]));
            let r = choose|r: int| 0 <= r < sorted.len() && sorted[r] == collected[c];
            assert(rest[r] == key);
        }
    }
    assert forall|i: int, j: int|
        #![trigger rest[i], rest[j]]
        0 <= i < j < rest.len() implies entry_precedes(
        queue.requests[rest[i]],
        queue.requests[rest[j]],
    ) by {
        assert(describes(queue, now, positions, sorted[i], upto));
        assert(describes(queue, now, positions, sorted[j], upto));
        assert(sorted[i].ranks_before(&sorted[j]));
    }
}

} // verus!
