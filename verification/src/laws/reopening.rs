//! Laws on queues that are opened again.
use vstd::prelude::*;

use crate::add::queued;
use crate::candidates::is_candidate_order;
use crate::clock::Timestamp;
use crate::fetch::{sighting, Sighting};
use crate::files::{
    is_sorted, law_listing_order_does_not_matter, lemma_name_le_antisymmetric, name_le,
    request_names,
};
use crate::ids::file_name_of;
use crate::json::{holds, json_parse, JsonView};
use crate::laws::counting::is_pending;
use crate::laws::documents::{law_queue_fields_survive_the_disk, lemma_names_differ};
use crate::laws::fetching::{content_of, in_step, law_regular_is_first_in_first_out};
use crate::laws::locking::lemma_order_is_on_record;
use crate::laws::mirroring::{law_mirror_is_in_step, mirrors, records};
use crate::models::MetadataView;
use crate::open::{empty_index, filed_as_handled, finding, still_pending, Finding, RebuildView};
use crate::order::{locked_at, on_side_of};
use crate::request::{carries_handled_at, order_no_of, unique_key_of, with_order_no};
use crate::settle::{handled_document, returned_document};
use crate::state::RequestEntry;

verus! {

/// A request is found as it was added: pending under its order number, or handled.
pub proof fn law_request_is_found_as_added(
    text: Seq<char>,
    request: JsonView,
    unique_key: Seq<char>,
    id: Seq<char>,
    order_no: Option<i64>,
    now: int,
)
    requires
        unique_key_of(request) == Some(unique_key),
        order_no is None <==> carries_handled_at(request),
        holds(text, queued(request, id, order_no)),
        json_parse(text) is Some,
    ensures
        finding(Some(text), now, false) == Finding::Request(unique_key, order_no, None),
{
    lemma_names_differ();
    law_queue_fields_survive_the_disk(text, queued(request, id, order_no));
}

/// A request that was marked as handled is found handled.
pub proof fn law_request_is_found_as_handled(
    text: Seq<char>,
    request: JsonView,
    unique_key: Seq<char>,
    at: Timestamp,
    now: int,
    assume_sole_owner: bool,
)
    requires
        unique_key_of(request) == Some(unique_key),
        holds(text, handled_document(request, unique_key, at)),
        json_parse(text) is Some,
    ensures
        finding(Some(text), now, assume_sole_owner) == Finding::Request(unique_key, None, None),
{
    lemma_names_differ();
    law_queue_fields_survive_the_disk(text, handled_document(request, unique_key, at));
}

/// A request that was returned is found pending, unless it still carries a handling time: such a
/// one is found handled.
pub proof fn law_request_is_found_as_returned(
    text: Seq<char>,
    request: JsonView,
    unique_key: Seq<char>,
    order_no: i64,
    now: int,
)
    requires
        unique_key_of(request) == Some(unique_key),
        holds(text, returned_document(request, unique_key, order_no)),
        json_parse(text) is Some,
    ensures
        finding(Some(text), now, false) == Finding::Request(
            unique_key,
            if carries_handled_at(request) {
                None
            } else {
                Some(order_no)
            },
            None,
        ),
{
    lemma_names_differ();
    law_queue_fields_survive_the_disk(text, returned_document(request, unique_key, order_no));
}

/// A queue that is shared finds a fetched request locked, just as its consumer left it. A sole
/// owner finds it unlocked.
pub proof fn law_locked_request_is_found(
    content: Seq<char>,
    unique_key: Seq<char>,
    now: int,
    lock_millis: int,
    order_no: i64,
    document: JsonView,
    text: Seq<char>,
    later: int,
)
    requires
        sighting(Some(content), now, lock_millis) == Sighting::Free(order_no, document),
        unique_key_of(json_parse(content)->0) == Some(unique_key),
        !carries_handled_at(json_parse(content)->0),
        holds(text, document),
        json_parse(text) is Some,
        0 <= later <= i64::MAX,
    ensures
        finding(Some(text), later, false) == Finding::Request(unique_key, Some(order_no), None),
        finding(Some(text), later, true) matches Finding::Request(key, Some(n), _) && key
            == unique_key && !locked_at(n as int, later),
{
    lemma_names_differ();
    law_queue_fields_survive_the_disk(text, document);
}

/// Opening a shared queue changes no file, and takes each order number as it is on record.
pub proof fn law_shared_queue_is_left_alone(content: Seq<char>, now: int)
    ensures
        finding(Some(content), now, false) matches Finding::Request(key, order_no, replacement)
            ==> {
            &&& replacement is None
            &&& order_no is Some && order_no_of(json_parse(content)->0) is Some ==> order_no
                == order_no_of(json_parse(content)->0)
        },
{
}

/// No pending request of the index is locked.
pub open spec fn none_locked(requests: Map<Seq<char>, RequestEntry>, now: int) -> bool {
    forall|key: Seq<char>| #[trigger]
        is_pending(requests, key) ==> !locked_at(requests[key].order_no->0 as int, now)
}

/// A sole owner finds no request locked: every file keeps it so.
pub proof fn law_sole_owner_finds_nothing_locked(
    rebuild: RebuildView,
    content: Option<Seq<char>>,
)
    requires
        rebuild.assume_sole_owner,
        0 <= rebuild.now <= i64::MAX,
        none_locked(rebuild.requests, rebuild.now),
    ensures
        none_locked(Map::empty(), rebuild.now),
        none_locked(rebuild.with_file(content).requests, rebuild.now),
        forall|key: Seq<char>| #[trigger]
            is_pending(rebuild.finished().requests, key) ==> rebuild.finished().is_fetchable(
                key,
                rebuild.now,
            ),
{
    let after = rebuild.with_file(content);
    assert forall|key: Seq<char>| #[trigger] is_pending(after.requests, key) implies !locked_at(
        after.requests[key].order_no->0 as int,
        rebuild.now,
    ) by {
        match finding(content, rebuild.now, true) {
            Finding::Nothing => {
                assert(is_pending(rebuild.requests, key));
            },
            Finding::Request(found, _, _) => {
                if key != found {
                    assert(is_pending(rebuild.requests, key));
                }
            },
        }
    }
}

/// The forefront list of an opened queue has just those keys, of the list on record, that are
/// pending.
pub proof fn law_forefront_is_restored(rebuild: RebuildView, key: Seq<char>)
    ensures
        rebuild.finished().metadata.forefront.contains(key)
            <==> rebuild.metadata.forefront.contains(key) && is_pending(rebuild.requests, key),
{
    lemma_still_pending(rebuild.metadata.forefront, rebuild.requests, key);
}

proof fn lemma_still_pending(
    list: Seq<Seq<char>>,
    requests: Map<Seq<char>, RequestEntry>,
    key: Seq<char>,
)
    ensures
        still_pending(list, requests).contains(key) <==> list.contains(key) && is_pending(
            requests,
            key,
        ),
    decreases list.len(),
{
    reveal(Seq::filter);
    if list.len() > 0 {
        let shorter = list.drop_last();
        lemma_still_pending(shorter, requests, key);
        assert(list =~= shorter.push(list.last()));
        broadcast use vstd::seq_lib::group_seq_properties;

        assert(still_pending(list, requests) == if is_pending(requests, list.last()) {
            still_pending(shorter, requests).push(list.last())
        } else {
            still_pending(shorter, requests)
        });
    }
}

/// The index once every file that is left was read.
pub open spec fn rebuilt(rebuild: RebuildView, files: Map<Seq<char>, Seq<char>>) -> RebuildView
    decreases rebuild.files.len(),
{
    if rebuild.files.len() == 0 {
        rebuild
    } else {
        rebuilt(rebuild.with_file(content_of(files, rebuild.files[0])), files)
    }
}

/// What a request file says.
pub open spec fn found_in(
    files: Map<Seq<char>, Seq<char>>,
    name: Seq<char>,
    rebuild: RebuildView,
) -> Finding {
    finding(content_of(files, name), rebuild.now, rebuild.assume_sole_owner)
}

/// The file holds the request of this key.
pub open spec fn is_file_of(
    files: Map<Seq<char>, Seq<char>>,
    name: Seq<char>,
    rebuild: RebuildView,
    key: Seq<char>,
) -> bool {
    found_in(files, name, rebuild) matches Finding::Request(found, _, _) && found == key
}

/// How many of the first `n` files hold a request.
pub open spec fn found_among(
    files: Map<Seq<char>, Seq<char>>,
    names: Seq<Seq<char>>,
    rebuild: RebuildView,
    n: int,
) -> int
    decreases n,
{
    if n <= 0 {
        0
    } else {
        found_among(files, names.skip(1), rebuild, n - 1) + if found_in(
            files,
            names[0],
            rebuild,
        ) is Request {
            1int
        } else {
            0
        }
    }
}

proof fn lemma_found_among_grows(
    files: Map<Seq<char>, Seq<char>>,
    names: Seq<Seq<char>>,
    rebuild: RebuildView,
    i: int,
    j: int,
)
    requires
        0 <= i < j <= names.len(),
        found_in(files, names[i], rebuild) is Request,
    ensures
        0 <= found_among(files, names, rebuild, i) < found_among(files, names, rebuild, j) <= j,
    decreases i,
{
    lemma_found_among_bound(files, names, rebuild, i);
    lemma_found_among_bound(files, names, rebuild, j);
    lemma_found_among_bound(files, names.skip(1), rebuild, j - 1);
    if i > 0 {
        lemma_found_among_grows(files, names.skip(1), rebuild, i - 1, j - 1);
    }
}

proof fn lemma_found_among_bound(
    files: Map<Seq<char>, Seq<char>>,
    names: Seq<Seq<char>>,
    rebuild: RebuildView,
    n: int,
)
    requires
        0 <= n,
    ensures
        0 <= found_among(files, names, rebuild, n) <= n,
    decreases n,
{
    if n > 0 {
        lemma_found_among_bound(files, names.skip(1), rebuild, n - 1);
    }
}

proof fn lemma_found_among_rests_on_the_files(
    files: Map<Seq<char>, Seq<char>>,
    names: Seq<Seq<char>>,
    a: RebuildView,
    b: RebuildView,
    n: int,
)
    requires
        a.now == b.now,
        a.assume_sole_owner == b.assume_sole_owner,
    ensures
        found_among(files, names, a, n) == found_among(files, names, b, n),
    decreases n,
{
    if n > 0 {
        lemma_found_among_rests_on_the_files(files, names.skip(1), a, b, n - 1);
    }
}

proof fn lemma_rebuild_keeps_what_no_file_holds(
    rebuild: RebuildView,
    files: Map<Seq<char>, Seq<char>>,
    key: Seq<char>,
)
    requires
        forall|i: int|
            0 <= i < rebuild.files.len() ==> !is_file_of(
                files,
                #[trigger] rebuild.files[i],
                rebuild,
                key,
            ),
    ensures
        rebuilt(rebuild, files).requests.contains_key(key) == rebuild.requests.contains_key(key),
        rebuilt(rebuild, files).requests[key] == rebuild.requests[key],
    decreases rebuild.files.len(),
{
    if rebuild.files.len() > 0 {
        let next = rebuild.with_file(content_of(files, rebuild.files[0]));
        assert(!is_file_of(files, rebuild.files[0], rebuild, key));
        assert forall|i: int| 0 <= i < next.files.len() implies !is_file_of(
            files,
            #[trigger] next.files[i],
            next,
            key,
        ) by {
            assert(next.files[i] == rebuild.files[i + 1]);
        }
        lemma_rebuild_keeps_what_no_file_holds(next, files, key);
    }
}

/// A request that one file holds is found under the number of requests in the files before it.
proof fn lemma_number_of_a_found_request(
    rebuild: RebuildView,
    files: Map<Seq<char>, Seq<char>>,
    i: int,
    key: Seq<char>,
)
    requires
        0 <= i < rebuild.files.len(),
        is_file_of(files, rebuild.files[i], rebuild, key),
        forall|j: int|
            i < j < rebuild.files.len() ==> !is_file_of(
                files,
                #[trigger] rebuild.files[j],
                rebuild,
                key,
            ),
    ensures
        rebuilt(rebuild, files).requests.contains_key(key),
        rebuilt(rebuild, files).requests[key] == (RequestEntry {
            order_no: found_in(files, rebuild.files[i], rebuild)->Request_1,
            insertion_seq: (rebuild.seq + found_among(files, rebuild.files, rebuild, i)) as u64,
        }),
    decreases rebuild.files.len(),
{
    let next = rebuild.with_file(content_of(files, rebuild.files[0]));
    assert(next.files == rebuild.files.skip(1));
    if i == 0 {
        assert forall|j: int| 0 <= j < next.files.len() implies !is_file_of(
            files,
            #[trigger] next.files[j],
            next,
            key,
        ) by {
            assert(next.files[j] == rebuild.files[j + 1]);
        }
        lemma_rebuild_keeps_what_no_file_holds(next, files, key);
    } else {
        assert(next.files[i - 1] == rebuild.files[i]);
        assert forall|j: int| i - 1 < j < next.files.len() implies !is_file_of(
            files,
            #[trigger] next.files[j],
            next,
            key,
        ) by {
            assert(next.files[j] == rebuild.files[j + 1]);
        }
        lemma_number_of_a_found_request(next, files, i - 1, key);
        lemma_found_among_rests_on_the_files(files, next.files, rebuild, next, i - 1);
    }
}

/// No other of the files holds the request of this key.
pub open spec fn is_only_file_of(
    rebuild: RebuildView,
    files: Map<Seq<char>, Seq<char>>,
    i: int,
    key: Seq<char>,
) -> bool {
    forall|j: int|
        0 <= j < rebuild.files.len() && j != i ==> !is_file_of(
            files,
            #[trigger] rebuild.files[j],
            rebuild,
            key,
        )
}

/// Regular requests that are opened with the same order number are fetched in the order of the
/// names of their files, in whatever order the directory was listed.
pub proof fn law_ties_are_broken_by_file_name(
    names: Seq<Seq<char>>,
    metadata: MetadataView,
    now: int,
    assume_sole_owner: bool,
    files: Map<Seq<char>, Seq<char>>,
    i: int,
    j: int,
    keys: Seq<Seq<char>>,
    x: int,
    y: int,
)
    requires
        is_sorted(names),
        names.len() <= u64::MAX,
        0 <= i < names.len(),
        0 <= j < names.len(),
        name_le(names[i], names[j]),
        names[i] != names[j],
        ({
            let start = empty_index(names, metadata, now, assume_sole_owner);
            let queue = rebuilt(start, files).finished();
            &&& 0 <= x < keys.len()
            &&& 0 <= y < keys.len()
            &&& is_file_of(files, names[i], start, keys[x])
            &&& is_file_of(files, names[j], start, keys[y])
            &&& is_only_file_of(start, files, i, keys[x])
            &&& is_only_file_of(start, files, j, keys[y])
            &&& found_in(files, names[i], start)->Request_1 == found_in(
                files,
                names[j],
                start,
            )->Request_1
            &&& !queue.metadata.forefront.contains(keys[x])
            &&& !queue.metadata.forefront.contains(keys[y])
            &&& is_candidate_order(queue, now, keys)
        }),
    ensures
        x < y,
{
    let start = empty_index(names, metadata, now, assume_sole_owner);
    let queue = rebuilt(start, files).finished();
    if j <= i {
        if j < i {
            assert(name_le(names[j], names[i]));
        }
        lemma_name_le_antisymmetric(names[i], names[j]);
    }
    lemma_number_of_a_found_request(start, files, i, keys[x]);
    lemma_number_of_a_found_request(start, files, j, keys[y]);
    lemma_found_among_grows(files, names, start, i, j);
    law_regular_is_first_in_first_out(queue, now, keys, x, y);
}

/// A queue is the same whenever it is opened from the same files, at the same time, in whatever
/// order the directory is listed.
pub proof fn law_opening_is_deterministic(
    listing: Seq<Seq<char>>,
    other: Seq<Seq<char>>,
    names: Seq<Seq<char>>,
    other_names: Seq<Seq<char>>,
    metadata: MetadataView,
    now: int,
    assume_sole_owner: bool,
    files: Map<Seq<char>, Seq<char>>,
)
    requires
        listing.to_multiset() == other.to_multiset(),
        is_sorted(names),
        names.to_multiset() == request_names(listing).to_multiset(),
        is_sorted(other_names),
        other_names.to_multiset() == request_names(other).to_multiset(),
    ensures
        rebuilt(empty_index(names, metadata, now, assume_sole_owner), files) == rebuilt(
            empty_index(other_names, metadata, now, assume_sole_owner),
            files,
        ),
{
    law_listing_order_does_not_matter(listing, other, names, other_names);
}

/// `after` is what opening makes of a request file: one that has to be replaced is, and any other
/// is left. The file stands where its request's file belongs and, where it is left, has the
/// order number that it is found under.
pub open spec fn is_put_in_order(
    rebuild: RebuildView,
    name: Seq<char>,
    files: Map<Seq<char>, Seq<char>>,
    after: Map<Seq<char>, Seq<char>>,
) -> bool {
    match found_in(files, name, rebuild) {
        Finding::Nothing => true,
        Finding::Request(key, order_no, None) => {
            &&& name == file_name_of(key)
            &&& after.contains_key(name) && after[name] == files[name]
            &&& order_no_of(json_parse(files[name])->0) == order_no
        },
        Finding::Request(key, order_no, Some(document)) => {
            &&& name == file_name_of(key)
            &&& after.contains_key(name) && holds(after[name], document)
            &&& json_parse(after[name]) is Some
        },
    }
}

/// An opened queue mirrors the files that it was opened from, as they are once it is open.
pub proof fn law_opened_queue_mirrors_the_files(
    rebuild: RebuildView,
    files: Map<Seq<char>, Seq<char>>,
    after: Map<Seq<char>, Seq<char>>,
)
    requires
        mirrors(rebuild.requests, after),
        forall|i: int|
            0 <= i < rebuild.files.len() ==> is_put_in_order(
                rebuild,
                #[trigger] rebuild.files[i],
                files,
                after,
            ),
    ensures
        mirrors(Map::empty(), after),
        mirrors(rebuilt(rebuild, files).finished().requests, after),
    decreases rebuild.files.len(),
{
    if rebuild.files.len() > 0 {
        let name = rebuild.files[0];
        let next = rebuild.with_file(content_of(files, name));
        assert(is_put_in_order(rebuild, name, files, after));
        match found_in(files, name, rebuild) {
            Finding::Nothing => {},
            Finding::Request(key, order_no, replacement) => {
                let document = json_parse(files[name])->0;
                if replacement is Some {
                    lemma_order_is_on_record(document, order_no->0);
                    law_queue_fields_survive_the_disk(after[name], replacement->0);
                }
                assert(records(after, key, order_no));
                assert forall|k: Seq<char>| #[trigger] next.requests.contains_key(
                    k,
                ) implies records(after, k, next.requests[k].order_no) by {
                    if k != key {
                        assert(rebuild.requests.contains_key(k));
                    }
                }
            },
        }
        assert forall|i: int| 0 <= i < next.files.len() implies is_put_in_order(
            next,
            #[trigger] next.files[i],
            files,
            after,
        ) by {
            assert(next.files[i] == rebuild.files[i + 1]);
        }
        law_opened_queue_mirrors_the_files(next, files, after);
    }
}

/// An opened queue is in step with its files, so that its index alone says whether it is empty
/// until somebody else writes to the directory.
pub proof fn law_opened_queue_is_in_step(
    names: Seq<Seq<char>>,
    metadata: MetadataView,
    now: int,
    assume_sole_owner: bool,
    files: Map<Seq<char>, Seq<char>>,
    after: Map<Seq<char>, Seq<char>>,
    later: int,
)
    requires
        ({
            let start = empty_index(names, metadata, now, assume_sole_owner);
            forall|i: int|
                0 <= i < names.len() ==> is_put_in_order(start, #[trigger] names[i], files, after)
        }),
    ensures
        in_step(
            rebuilt(empty_index(names, metadata, now, assume_sole_owner), files).finished(),
            later,
            after,
        ),
{
    let start = empty_index(names, metadata, now, assume_sole_owner);
    law_opened_queue_mirrors_the_files(start, files, after);
    law_mirror_is_in_step(rebuilt(start, files).finished(), later, after);
}

} // verus!
