//! Laws on request documents and their files.
use vstd::prelude::*;

use crate::add::queued;
use crate::clock::Timestamp;
use crate::files::{ends_in, is_request_name, METADATA_FILENAME, REQUEST_SUFFIX};
use crate::ids::{file_hash, file_name_of, hex_alphabet, nibble, sha256};
use crate::json::{agrees, agrees_to, exact_within, holds, json_parse, max_depth, JsonView};
use crate::open::filed_as_handled;
use crate::request::{
    carries_handled_at, order_no_of, recorded_id, stripped, unique_key_of, with_order_no,
};
use crate::settle::{handled_document, returned_document};

verus! {

/// Whatever else a request holds, the fields that the queue reads survive being written and
/// read again.
pub proof fn law_queue_fields_survive_the_disk(text: Seq<char>, document: JsonView)
    requires
        holds(text, document),
        json_parse(text) is Some,
    ensures
        unique_key_of(json_parse(text)->0) == unique_key_of(document),
        order_no_of(json_parse(text)->0) == order_no_of(document),
        recorded_id(json_parse(text)->0) == recorded_id(document),
        carries_handled_at(json_parse(text)->0) == carries_handled_at(document),
        filed_as_handled(json_parse(text)->0) == filed_as_handled(document),
{
    let back = json_parse(text)->0;
    assert(agrees_to(document, back, 1));
    reveal_with_fuel(agrees_to, 2);
    if document is Object {
        let members = document->Object_0;
        assert forall|key: Seq<char>| members.contains_key(key) == #[trigger] back->Object_0.contains_key(
            key,
        ) by {
            assert(members.dom().contains(key) == back->Object_0.dom().contains(key));
        }
    }
}

/// A request that is handed out has no order number on it.
pub proof fn law_callers_never_see_the_order_number(request: JsonView)
    ensures
        stripped(request).member("orderNo"@) is None,
{
}

/// An order number that a caller puts on a request is ignored: what is written when the request
/// is added, marked as handled or returned is the same without it.
pub proof fn law_order_number_of_the_caller_is_ignored(
    request: JsonView,
    forged: JsonView,
    unique_key: Seq<char>,
    id: Seq<char>,
    order_no: Option<i64>,
    returned_at: i64,
    now: Timestamp,
)
    ensures
        queued(request.with_member("orderNo"@, forged), id, order_no) == queued(
            request,
            id,
            order_no,
        ),
        handled_document(request.with_member("orderNo"@, forged), unique_key, now)
            == handled_document(request, unique_key, now),
        returned_document(request.with_member("orderNo"@, forged), unique_key, returned_at)
            == returned_document(request, unique_key, returned_at),
{
    lemma_names_differ();
    if request is Object {
        let members = request->Object_0;
        let with_forged = members.insert("orderNo"@, forged);
        let id_json = JsonView::Text(id);
        let order = crate::request::order_json(order_no);
        assert(with_forged.insert("id"@, id_json).insert("orderNo"@, order) =~= members.insert(
            "id"@,
            id_json,
        ).insert("orderNo"@, order));
        let stamp = JsonView::Text(now.spec_text());
        assert(with_forged.insert("handledAt"@, stamp).insert("orderNo"@, JsonView::Null)
            =~= members.insert("handledAt"@, stamp).insert("orderNo"@, JsonView::Null));
        let again = JsonView::Integer(returned_at as int);
        assert(with_forged.insert("orderNo"@, again) =~= members.insert("orderNo"@, again));
    }
}

/// A request reads back as it was added: with the queue's id, without an order number, and
/// otherwise unchanged.
///
/// This is of requests without floating-point numbers that nest within what can be read. Of any
/// other, all but the floating-point numbers comes back if the file can be read at all.
pub proof fn law_added_request_reads_back(
    text: Seq<char>,
    request: JsonView,
    id: Seq<char>,
    order_no: Option<i64>,
)
    requires
        request is Object,
        exact_within(request, max_depth()),
        holds(text, queued(request, id, order_no)),
    ensures
        json_parse(text) is Some,
        stripped(json_parse(text)->0) == stripped(request).with_member("id"@, JsonView::Text(id)),
{
    lemma_names_differ();
    let members = request->Object_0;
    let document = queued(request, id, order_no);
    let written = document->Object_0;
    assert forall|key: Seq<char>| written.contains_key(key) implies exact_within(
        #[trigger] written[key],
        (max_depth() - 1) as nat,
    ) by {
        if key != "id"@ && key != "orderNo"@ {
            assert(members.contains_key(key));
            assert(written[key] == members[key]);
        }
    }
    assert(exact_within(document, max_depth()));
    assert(written.remove("orderNo"@) =~= members.remove("orderNo"@).insert(
        "id"@,
        JsonView::Text(id),
    ));
}

proof fn lemma_agreement_is_equality(a: JsonView, b: JsonView, depth: nat)
    requires
        exact_within(a, depth),
        agrees_to(a, b, depth),
    ensures
        a == b,
    decreases depth,
{
    match a {
        JsonView::Array(items) => {
            let others = b->Array_0;
            assert forall|i: int| 0 <= i < items.len() implies #[trigger] items[i] == others[i] by {
                lemma_agreement_is_equality(items[i], others[i], (depth - 1) as nat);
            }
            assert(items =~= others);
        },
        JsonView::Object(members) => {
            let others = b->Object_0;
            assert forall|key: Seq<char>| members.contains_key(key) implies #[trigger] members[key]
                == others[key] by {
                lemma_agreement_is_equality(members[key], others[key], (depth - 1) as nat);
            }
            assert(members =~= others);
        },
        _ => {},
    }
}

/// Where a request's file can be read at all, whatever floating-point numbers the request holds,
/// it reads back as it was added, with the queue's id and without an order number, but for those
/// numbers: each member without one comes back equal.
pub proof fn law_all_but_floats_reads_back(
    text: Seq<char>,
    request: JsonView,
    id: Seq<char>,
    order_no: Option<i64>,
    key: Seq<char>,
    depth: nat,
)
    requires
        request is Object,
        holds(text, queued(request, id, order_no)),
        json_parse(text) is Some,
    ensures
        ({
            let expected = stripped(request).with_member("id"@, JsonView::Text(id));
            let back = stripped(json_parse(text)->0);
            &&& agrees(expected, back)
            &&& expected.member(key) is None <==> back.member(key) is None
            &&& expected.member(key) matches Some(value) ==> exact_within(value, depth)
                ==> back.member(key) == Some(value)
        }),
{
    lemma_names_differ();
    let document = queued(request, id, order_no);
    let read = json_parse(text)->0;
    let expected = stripped(request).with_member("id"@, JsonView::Text(id));
    let back = stripped(read);
    assert(agrees_to(document, read, 0));
    let members = expected->Object_0;
    assert(members =~= document->Object_0.remove("orderNo"@));
    assert forall|d: nat| #[trigger] agrees_to(expected, back, d) by {
        assert(agrees_to(document, read, d));
        if d > 0 {
            assert(back->Object_0.dom() =~= members.dom());
            assert forall|k: Seq<char>|
                #![trigger members[k]]
                #![trigger back->Object_0[k]]
                members.contains_key(k) implies agrees_to(
                members[k],
                back->Object_0[k],
                (d - 1) as nat,
            ) by {
                assert(document->Object_0.contains_key(k));
                assert(document->Object_0[k] == members[k]);
                assert(read->Object_0[k] == back->Object_0[k]);
            }
        }
    }
    assert(agrees_to(expected, back, depth + 1));
    assert(members.dom().contains(key) == back->Object_0.dom().contains(key));
    if members.contains_key(key) && exact_within(members[key], depth) {
        assert(agrees_to(members[key], back->Object_0[key], depth));
        lemma_agreement_is_equality(members[key], back->Object_0[key], depth);
    }
}

/// The file of a request is among those that are read when the queue is opened.
pub proof fn law_request_files_are_listed(unique_key: Seq<char>)
    ensures
        is_request_name(file_name_of(unique_key)),
{
    reveal_strlit(".json");
    reveal_strlit("__metadata__.json");
    reveal_strlit("0123456789abcdef");
    let hash = file_hash(unique_key);
    let name = file_name_of(unique_key);
    assert(name.skip(name.len() - REQUEST_SUFFIX@.len()) =~= REQUEST_SUFFIX@);
    if hash.len() > 0 {
        let bytes = sha256(vstd::utf8::encode_utf8(unique_key));
        let digit = nibble(bytes, 0);
        assert(0 <= digit < 16);
        assert(name[0] == hex_alphabet()[digit]);
        assert(name[0] != '_');
        assert(METADATA_FILENAME@[0] == '_');
    } else {
        assert(name.len() == 5);
        assert(METADATA_FILENAME@.len() == 17);
    }
}

/// The names of the fields that the queue reads and writes are all different.
pub(crate) proof fn lemma_names_differ()
    ensures
        "orderNo"@ != "id"@,
        "orderNo"@ != "uniqueKey"@,
        "orderNo"@ != "unique_key"@,
        "orderNo"@ != "handledAt"@,
        "orderNo"@ != "handled_at"@,
        "id"@ != "uniqueKey"@,
        "id"@ != "unique_key"@,
        "id"@ != "handledAt"@,
        "id"@ != "handled_at"@,
        "handledAt"@ != "uniqueKey"@,
        "handledAt"@ != "unique_key"@,
{
    reveal_strlit("orderNo");
    reveal_strlit("id");
    reveal_strlit("uniqueKey");
    reveal_strlit("unique_key");
    reveal_strlit("handledAt");
    reveal_strlit("handled_at");
    assert("orderNo"@.len() == 7);
    assert("id"@.len() == 2);
    assert("uniqueKey"@.len() == 9);
    assert("unique_key"@.len() == 10);
    assert("handledAt"@.len() == 9);
    assert("handled_at"@.len() == 10);
    assert("handledAt"@[0] != "uniqueKey"@[0]);
}

} // verus!
