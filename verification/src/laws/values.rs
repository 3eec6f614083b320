//! Laws on order numbers, times, names, ids and records: what each means in plain numbers and
//! characters.
use vstd::prelude::*;
use vstd::utf8::encode_utf8;

use crate::add::documents;
use crate::binding::{
    kind_of, start_key_text, ExceptionKind, DEFAULT_CONTENT_TYPE, NONE_CONTENT_TYPE,
};
use crate::clock::{
    datetime_text, is_duration, is_moment, millis_of, representable, total_nanos, truncated_div,
    Duration, TestClock, Timestamp,
};
use crate::files::{
    ends_in, is_request_name, is_sorted, name_le, request_names, METADATA_FILENAME,
};
use crate::ids::{
    base64_text, file_hash, file_name_of, first_chars, hex_text, id_char, request_id_of, sha256,
};
use crate::json::{json_parse, json_text, Json, JsonView};
use crate::laws::forefront::picks;
use crate::models::{
    content_text, new_metadata, optional_text, processed_views, texts, writes, FileWrite,
    ProcessedRequest, RequestQueueMetadata, StorageError,
};
use crate::open::{
    directory_of, exclusive, is_direct_child, NOT_A_CHILD, NOT_EXCLUSIVE, STORAGE_SUBDIR,
};
use crate::order::{locked_at, on_side_of, order_number};
use crate::prolong::{magnitude, EXTENSION_NOT_POSITIVE, EXTENSION_OUT_OF_RANGE};
use crate::request::MISSING_UNIQUE_KEY;
use crate::state::{HeldRequestLock, HeldView};

verus! {

/// An order number is a lock while it lies further from zero than the time, on either side.
pub proof fn law_when_an_order_number_is_a_lock(order_no: int, now: int)
    ensures
        !locked_at(order_no, now) <==> -now <= order_no <= now,
        locked_at(order_no, now) <==> locked_at(-order_no, now),
        magnitude(order_no) >= 0,
        magnitude(order_no) == order_no || magnitude(order_no) == -order_no,
        now >= 0 ==> (locked_at(order_no, now) <==> magnitude(order_no) > now),
{
}

/// A request for the forefront is ordered by the time with a minus sign, any other by the time.
/// An order number that is replaced stays on its side of zero, and zero counts as forefront.
pub proof fn law_sides_of_order_numbers(order_no: int, number: int, now: int)
    ensures
        order_number(now, true) == -now,
        order_number(now, false) == now,
        order_no > 0 ==> on_side_of(order_no, number) == number,
        order_no <= 0 ==> on_side_of(order_no, number) == -number,
{
}

/// The milliseconds of a moment are those that have passed in full, and its nanoseconds are
/// those of its seconds and those on top.
pub proof fn law_milliseconds_of_a_moment(at: Timestamp)
    ensures
        at.spec_epoch_nanos() == at.spec_seconds() * 1_000_000_000 + at.spec_nanos(),
        at.spec_millis() * 1_000_000 <= at.spec_epoch_nanos(),
        at.spec_epoch_nanos() < (at.spec_millis() + 1) * 1_000_000,
        at.spec_text() == datetime_text(
            at.spec_seconds(),
            at.spec_nanos(),
            "%Y-%m-%dT%H:%M:%S%.6f+00:00"@,
        ),
{
}

/// The seconds of a moment and the nanoseconds on top give its milliseconds and nanoseconds in
/// the same way.
pub proof fn law_milliseconds_of_parts(seconds: int, nanos: int)
    ensures
        total_nanos(seconds, nanos) == seconds * 1_000_000_000 + nanos,
        millis_of(seconds, nanos) * 1_000_000 <= total_nanos(seconds, nanos),
        total_nanos(seconds, nanos) < (millis_of(seconds, nanos) + 1) * 1_000_000,
{
}

/// The milliseconds of a span are those that it holds in full, whichever way it goes.
pub proof fn law_milliseconds_of_a_span(span: Duration)
    ensures
        span.spec_nanos() >= 0 ==> span.spec_millis() * 1_000_000 <= span.spec_nanos() < (
        span.spec_millis() + 1) * 1_000_000,
        span.spec_nanos() <= 0 ==> (span.spec_millis() - 1) * 1_000_000 < span.spec_nanos()
            <= span.spec_millis() * 1_000_000,
{
}

/// Division rounds towards zero: a negative dividend goes as often as the positive one does.
pub proof fn law_division_rounds_towards_zero(dividend: int, divisor: int)
    requires
        divisor > 0,
    ensures
        dividend >= 0 ==> truncated_div(dividend, divisor) * divisor <= dividend < (truncated_div(
            dividend,
            divisor,
        ) + 1) * divisor,
        truncated_div(-dividend, divisor) == -truncated_div(dividend, divisor),
{
    if dividend >= 0 {
        vstd::arithmetic::div_mod::lemma_fundamental_div_mod(dividend, divisor);
        let q = dividend / divisor;
        assert(q * divisor <= dividend < (q + 1) * divisor) by (nonlinear_arith)
            requires
                dividend == divisor * q + dividend % divisor,
                0 <= dividend % divisor < divisor,
        ;
    }
    if dividend == 0 {
        vstd::arithmetic::div_mod::lemma_div_basics(divisor);
    }
}

/// What moments and spans there are. A moment may lie in a leap second, at the end of a minute.
pub proof fn law_what_moments_and_spans_there_are(seconds: int, nanos: int)
    ensures
        representable(seconds, nanos) <==> {
            &&& -8_334_601_228_800 <= seconds <= 8_210_266_876_799
            &&& 0 <= nanos
            &&& nanos < 1_000_000_000 || (nanos < 2_000_000_000 && seconds % 60 == 59)
        },
        is_moment(nanos) <==> -8_334_601_228_800_000_000_000 <= nanos
            < 8_210_266_876_800_000_000_000,
        is_duration(seconds, nanos) <==> {
            &&& -1_000_000_000 < nanos < 1_000_000_000
            &&& seconds <= 0 || nanos >= 0
            &&& seconds >= 0 || nanos <= 0
            &&& -9_223_372_036_854_775_807_000_000 <= seconds * 1_000_000_000 + nanos
                <= 9_223_372_036_854_775_807_000_000
        },
{
}

/// A clock can be advanced by a span if what it would show is a moment.
pub proof fn law_how_far_a_clock_reaches(clock: TestClock, delta: Duration)
    ensures
        clock.reaches(delta) <==> -8_334_601_228_800_000_000_000
            <= clock.spec_now().spec_epoch_nanos() + delta.spec_nanos()
            < 8_210_266_876_800_000_000_000,
{
}

/// The value of a hexadecimal digit in lower case.
pub open spec fn hex_value(c: char) -> int {
    if '0' <= c <= '9' {
        c as int - '0' as int
    } else if 'a' <= c <= 'f' {
        c as int - 'a' as int + 10
    } else {
        -1
    }
}

/// The value of a base64 digit.
pub open spec fn base64_value(c: char) -> int {
    if 'A' <= c <= 'Z' {
        c as int - 'A' as int
    } else if 'a' <= c <= 'z' {
        c as int - 'a' as int + 26
    } else if '0' <= c <= '9' {
        c as int - '0' as int + 52
    } else if c == '+' {
        62
    } else if c == '/' {
        63
    } else {
        -1
    }
}

/// Hexadecimal text has two digits for each byte, which give the byte back.
pub proof fn law_hexadecimal_text_gives_the_bytes_back(bytes: Seq<u8>, i: int)
    ensures
        hex_text(bytes).len() == 2 * bytes.len(),
        0 <= i < bytes.len() ==> {
            let high = hex_value(hex_text(bytes)[2 * i]);
            let low = hex_value(hex_text(bytes)[2 * i + 1]);
            &&& 0 <= high < 16
            &&& 0 <= low < 16
            &&& 16 * high + low == bytes[i]
        },
{
    reveal_strlit("0123456789abcdef");
}

/// Base64 text has as many digits as it takes, at six bits each, and three bytes come back from
/// four digits. The bits that are left at the end are zero.
pub proof fn law_base64_text_gives_the_bytes_back(bytes: Seq<u8>, k: int)
    ensures
        8 * bytes.len() <= 6 * base64_text(bytes).len() < 8 * bytes.len() + 6,
        0 <= 3 * k < bytes.len() ==> {
            let text = base64_text(bytes);
            let a = base64_value(text[4 * k]);
            let b = base64_value(text[4 * k + 1]);
            let c = base64_value(text[4 * k + 2]);
            let d = base64_value(text[4 * k + 3]);
            &&& 0 <= a < 64 && 0 <= b < 64
            &&& 4 * a + b / 16 == bytes[3 * k]
            &&& 3 * k + 1 == bytes.len() ==> b % 16 == 0
            &&& 3 * k + 1 < bytes.len() ==> {
                &&& 0 <= c < 64
                &&& 16 * (b % 16) + c / 4 == bytes[3 * k + 1]
                &&& 3 * k + 2 == bytes.len() ==> c % 4 == 0
            }
            &&& 3 * k + 2 < bytes.len() ==> 0 <= d < 64 && 64 * (c % 4) + d == bytes[3 * k + 2]
        },
{
    reveal_strlit("ABCDEFGHIJKLMNOPQRSTUVWXYZabcdefghijklmnopqrstuvwxyz0123456789+/");
    if 0 <= 3 * k < bytes.len() {
        assert((4 * k) / 4 == k && (4 * k) % 4 == 0);
        assert((4 * k + 1) / 4 == k && (4 * k + 1) % 4 == 1);
        assert((4 * k + 2) / 4 == k && (4 * k + 2) % 4 == 2);
        assert((4 * k + 3) / 4 == k && (4 * k + 3) % 4 == 3);
    }
}

/// The beginning of a text is as long as asked for, or the whole of it.
pub proof fn law_beginning_of_a_text(text: Seq<char>, n: nat, i: int)
    ensures
        first_chars(text, n).len() == if text.len() < n {
            text.len()
        } else {
            n
        },
        0 <= i < first_chars(text, n).len() ==> first_chars(text, n)[i] == text[i],
{
}

/// A request's file is named by the first fifteen hexadecimal digits of the digest of its key.
pub proof fn law_name_of_a_request_file(key: Seq<char>, i: int)
    ensures
        ({
            let digits = hex_text(sha256(encode_utf8(key)));
            let hash = file_hash(key);
            &&& digits.len() >= 15 ==> hash.len() == 15
            &&& digits.len() < 15 ==> hash.len() == digits.len()
            &&& 0 <= i < hash.len() ==> hash[i] == digits[i]
            &&& 0 <= i < hash.len() ==> file_name_of(key)[i] == digits[i]
            &&& file_name_of(key).len() == hash.len() + 5
            &&& file_name_of(key).skip(hash.len() as int) == ".json"@
        }),
{
    reveal_strlit(".json");
    assert(file_name_of(key).skip(file_hash(key).len() as int) =~= ".json"@);
}

proof fn lemma_places_of_id_chars(text: Seq<char>, keep: spec_fn(char) -> bool) -> (places: Seq<
    int,
>)
    requires
        forall|c: char| #[trigger] keep(c) <==> id_char(c),
    ensures
        picks(text.filter(keep), text, places),
        forall|p: int|
            #![trigger text[p]]
            0 <= p < text.len() ==> (places.contains(p) <==> text[p] != '+' && text[p] != '/'),
    decreases text.len(),
{
    reveal(Seq::filter);
    if text.len() == 0 {
        Seq::empty()
    } else {
        let shorter = text.drop_last();
        let last = text.last();
        let before = lemma_places_of_id_chars(shorter, keep);
        let places = if keep(last) {
            before.push(shorter.len() as int)
        } else {
            before
        };
        lemma_one_more_pick(shorter.filter(keep), text, before, last, keep(last));
        assert forall|p: int|
            #![trigger text[p]]
            0 <= p < text.len() implies (places.contains(p) <==> text[p] != '+' && text[p]
            != '/') by {
            assert(keep(text[p]) <==> id_char(text[p]));
            if p < shorter.len() {
                assert(shorter[p] == text[p]);
            }
        }
        places
    }
}

/// A list that picks from all but the last of another one picks from the other, with or without
/// the last.
proof fn lemma_one_more_pick<T>(
    part: Seq<T>,
    whole: Seq<T>,
    places: Seq<int>,
    last: T,
    keep: bool,
)
    requires
        whole.len() > 0,
        last == whole.last(),
        picks(part, whole.drop_last(), places),
    ensures
        picks(
            if keep {
                part.push(last)
            } else {
                part
            },
            whole,
            if keep {
                places.push(whole.len() - 1)
            } else {
                places
            },
        ),
        forall|p: int| #[trigger]
            places.contains(p) ==> 0 <= p < whole.len() - 1,
        forall|p: int| #[trigger]
            places.push(whole.len() - 1).contains(p) <==> places.contains(p) || p == whole.len()
                - 1,
{
    let shorter = whole.drop_last();
    let end = whole.len() - 1;
    let more = places.push(end);
    let longer = part.push(last);
    assert forall|i: int| 0 <= i < part.len() implies 0 <= places[i] < end && part[i]
        == whole[#[trigger] places[i]] by {
        assert(part[i] == shorter[places[i]]);
    }
    assert forall|p: int| #[trigger] places.contains(p) implies 0 <= p < end by {
        let i = choose|i: int| 0 <= i < places.len() && places[i] == p;
        assert(0 <= places[i] < end);
    }
    assert forall|p: int| #[trigger] more.contains(p) <==> places.contains(p) || p == end by {
        assert(more[places.len() as int] == end);
        if places.contains(p) {
            let i = choose|i: int| 0 <= i < places.len() && places[i] == p;
            assert(more[i] == p);
        }
        if more.contains(p) && p != end {
            let i = choose|i: int| 0 <= i < more.len() && more[i] == p;
            assert(places[i] == p);
        }
    }
    if keep {
        assert forall|i: int, j: int|
            #![trigger more[i], more[j]]
            0 <= i < j < more.len() implies more[i] < more[j] by {
            assert(more[i] == places[i]);
            if j < places.len() {
                assert(more[j] == places[j]);
            }
        }
        assert forall|i: int| 0 <= i < longer.len() implies 0 <= more[i] < whole.len() && longer[i]
            == whole[#[trigger] more[i]] by {
            if i < part.len() {
                assert(more[i] == places[i]);
                assert(longer[i] == part[i]);
            }
        }
    }
}

/// A request's id has, in order, the first fifteen base64 digits of the digest of its key that
/// are neither a plus sign nor a slash, or all of them if there are fewer.
pub proof fn law_id_of_a_request(key: Seq<char>) -> (places: Seq<int>)
    ensures
        ({
            let text = base64_text(sha256(encode_utf8(key)));
            let id = request_id_of(key);
            &&& picks(id, text, places)
            &&& id.len() <= 15
            &&& forall|i: int| 0 <= i < id.len() ==> #[trigger] id[i] != '+' && id[i] != '/'
            &&& forall|p: int|
                #![trigger text[p]]
                0 <= p < text.len() && text[p] != '+' && text[p] != '/' && !places.contains(p)
                    ==> id.len() == 15 && places[14] < p
        }),
{
    let text = base64_text(sha256(encode_utf8(key)));
    let keep = |c: char| id_char(c);
    let id = request_id_of(key);
    let all = lemma_places_of_id_chars(text, keep);
    let kept = text.filter(keep);
    let places = all.take(id.len() as int);
    assert(id =~= kept.take(id.len() as int));
    assert forall|i: int| 0 <= i < id.len() implies 0 <= places[i] < text.len() && id[i]
        == text[#[trigger] places[i]] && all[i] == places[i] by {
        assert(kept[i] == text[all[i]]);
    }
    assert forall|i: int| 0 <= i < id.len() implies #[trigger] id[i] != '+' && id[i] != '/' by {
        assert(all.contains(all[i]));
        assert(kept[i] == text[all[i]]);
    }
    assert forall|p: int|
        #![trigger text[p]]
        0 <= p < text.len() && text[p] != '+' && text[p] != '/' && !places.contains(
            p,
        ) implies id.len() == 15 && places[14] < p by {
        assert(all.contains(p));
        let i = choose|i: int| 0 <= i < all.len() && all[i] == p;
        if i < id.len() {
            assert(places[i] == p);
        } else {
            assert(all[14] < all[i]);
        }
    }
    places
}

/// Which of two names stands first: where they part, the one with the lower character, or the
/// one that ends there.
pub proof fn law_which_name_stands_first(a: Seq<char>, b: Seq<char>, n: int)
    requires
        0 <= n <= a.len(),
        n <= b.len(),
        forall|i: int| 0 <= i < n ==> a[i] == b[i],
        n < a.len() && n < b.len() ==> a[n] != b[n],
    ensures
        name_le(a, b) <==> n == a.len() || (n < b.len() && (a[n] as int) < (b[n] as int)),
    decreases n,
{
    if n > 0 {
        law_which_name_stands_first(a.skip(1), b.skip(1), n - 1);
    }
}

/// Names are sorted if none stands before an earlier one.
pub proof fn law_sorted_names(names: Seq<Seq<char>>, i: int, j: int)
    requires
        is_sorted(names),
        0 <= i < j < names.len(),
    ensures
        name_le(names[i], names[j]),
{
}

/// A request file is one whose name ends in `.json`, other than that of the metadata.
pub proof fn law_which_names_are_of_request_files(name: Seq<char>, suffix: Seq<char>)
    ensures
        is_request_name(name) <==> {
            let n = name.len();
            &&& n >= 5
            &&& name[n - 5] == '.' && name[n - 4] == 'j' && name[n - 3] == 's' && name[n - 2]
                == 'o' && name[n - 1] == 'n'
            &&& name != "__metadata__.json"@
        },
        ends_in(name, suffix) <==> suffix.len() <= name.len() && forall|i: int|
            0 <= i < suffix.len() ==> #[trigger] suffix[i] == name[name.len() - suffix.len() + i],
{
    reveal_strlit(".json");
    let n = name.len();
    if n >= 5 {
        let ending = name.skip(n - 5);
        if name[n - 5] == '.' && name[n - 4] == 'j' && name[n - 3] == 's' && name[n - 2] == 'o'
            && name[n - 1] == 'n' {
            assert(ending =~= ".json"@);
        }
        if ending == ".json"@ {
            assert(ending[0] == '.' && ending[1] == 'j' && ending[2] == 's' && ending[3] == 'o'
                && ending[4] == 'n');
        }
    }
    if suffix.len() <= name.len() {
        let ending = name.skip(name.len() - suffix.len());
        if forall|i: int|
            0 <= i < suffix.len() ==> #[trigger] suffix[i] == name[name.len() - suffix.len() + i] {
            assert(ending =~= suffix);
        }
    }
}

/// The request files of a directory are taken in the order in which they are listed, each as
/// often as it is.
pub proof fn law_request_files_of_a_directory(names: Seq<Seq<char>>) -> (places: Seq<int>)
    ensures
        picks(request_names(names), names, places),
        forall|p: int|
            #![trigger names[p]]
            0 <= p < names.len() ==> (places.contains(p) <==> is_request_name(names[p])),
    decreases names.len(),
{
    reveal(Seq::filter);
    if names.len() == 0 {
        Seq::empty()
    } else {
        let shorter = names.drop_last();
        let last = names.last();
        let before = law_request_files_of_a_directory(shorter);
        let places = if is_request_name(last) {
            before.push(shorter.len() as int)
        } else {
            before
        };
        lemma_one_more_pick(request_names(shorter), names, before, last, is_request_name(last));
        assert(request_names(names) == if is_request_name(last) {
            request_names(shorter).push(last)
        } else {
            request_names(shorter)
        });
        assert forall|p: int|
            #![trigger names[p]]
            0 <= p < names.len() implies (places.contains(p) <==> is_request_name(names[p])) by {
            if p < shorter.len() {
                assert(shorter[p] == names[p]);
            }
        }
        places
    }
}

/// The model of a list has the models of its items, in their places.
pub proof fn law_models_of_lists(
    strings: Seq<String>,
    requests: Seq<Json>,
    reports: Seq<ProcessedRequest>,
    i: int,
)
    ensures
        texts(strings).len() == strings.len(),
        0 <= i < strings.len() ==> texts(strings)[i] == strings[i]@,
        documents(requests).len() == requests.len(),
        0 <= i < requests.len() ==> documents(requests)[i] == requests[i]@,
        processed_views(reports).len() == reports.len(),
        0 <= i < reports.len() ==> {
            let view = processed_views(reports)[i];
            &&& view.request_id == reports[i].request_id@
            &&& view.unique_key == reports[i].unique_key@
            &&& view.was_already_present == reports[i].was_already_present
            &&& view.was_already_handled == reports[i].was_already_handled
        },
{
}

/// The model of a record has its fields.
pub proof fn law_models_of_records(
    metadata: RequestQueueMetadata,
    lock: HeldRequestLock,
    text: String,
    content: &str,
    i: int,
)
    ensures
        metadata@.id == metadata.base.id@,
        metadata@.name is None <==> metadata.base.name is None,
        metadata.base.name matches Some(name) ==> metadata@.name == Some(name@),
        metadata@.created_at == metadata.base.created_at,
        metadata@.accessed_at == metadata.base.accessed_at,
        metadata@.modified_at == metadata.base.modified_at,
        metadata@.handled == metadata.handled_request_count,
        metadata@.pending == metadata.pending_request_count,
        metadata@.total == metadata.total_request_count,
        metadata@.forefront.len() == metadata.forefront_request_ids@.len(),
        0 <= i < metadata@.forefront.len() ==> metadata@.forefront[i]
            == metadata.forefront_request_ids@[i]@,
        lock@ == (HeldView { unique_key: lock.unique_key@, order_no: lock.order_no }),
        optional_text(Some(text)) == Some(text@),
        optional_text(None) is None,
        content_text(Some(content)) == Some(content@),
        content_text(None) is None,
{
}

/// The record of a new queue has its id and name, one time, and nothing else.
pub proof fn law_record_of_a_new_queue(id: Seq<char>, name: Option<Seq<char>>, now: Timestamp)
    ensures
        new_metadata(id, name, now).id == id,
        new_metadata(id, name, now).name == name,
        new_metadata(id, name, now).created_at == now,
        new_metadata(id, name, now).accessed_at == now,
        new_metadata(id, name, now).modified_at == now,
        new_metadata(id, name, now).handled == 0,
        new_metadata(id, name, now).pending == 0,
        new_metadata(id, name, now).total == 0,
        new_metadata(id, name, now).forefront.len() == 0,
{
}

/// What is written for a request goes to the file that its key names, and is what the document
/// prints to.
pub proof fn law_what_a_write_holds(write: FileWrite, key: Seq<char>, document: JsonView)
    requires
        writes(write, key, document),
    ensures
        write.file_name@ == file_name_of(key),
        write.contents@ == json_text(document),
        json_parse(write.contents@) matches Some(back) ==> document is Object ==> back is Object,
{
    if let Some(back) = json_parse(write.contents@) {
        assert(crate::json::agrees_to(document, back, 0));
    }
}

/// An error refuses with a message if it is about the arguments and has that message.
pub proof fn law_when_an_error_refuses(text: String, error: StorageError, message: Seq<char>)
    ensures
        StorageError::InvalidArgs(text).refuses_with(text@),
        error.refuses_with(message) ==> error is InvalidArgs,
        StorageError::InvalidArgs(text).refuses_with(message) ==> message == text@,
{
}

/// What each error says, and what the files and directories with fixed names are called.
pub proof fn law_what_is_said_and_named()
    ensures
        MISSING_UNIQUE_KEY@ == "Request must have a 'uniqueKey' field"@,
        NOT_EXCLUSIVE@ == "At most one of id, name, or alias may be provided"@,
        NOT_A_CHILD@ == "Storage name must denote a single direct subdirectory"@,
        EXTENSION_NOT_POSITIVE@ == "lock extension must be greater than zero"@,
        EXTENSION_OUT_OF_RANGE@ == "lock extension exceeds the supported range"@,
        METADATA_FILENAME@ == "__metadata__.json"@,
        STORAGE_SUBDIR@ == "request_queues"@,
        DEFAULT_CONTENT_TYPE@ == "application/octet-stream"@,
        NONE_CONTENT_TYPE@ == "application/x-none"@,
{
}

/// A name denotes a direct child unless it is empty, a dot or two, or has a separator in it.
pub proof fn law_which_names_denote_a_child(name: Seq<char>, i: int)
    ensures
        is_direct_child(name) ==> name.len() > 0,
        is_direct_child(name) && 0 <= i < name.len() ==> name[i] != '/' && name[i] != '\\',
        !is_direct_child(seq!['.']),
        !is_direct_child(seq!['.', '.']),
        name.len() > 0 && name != seq!['.'] && name != seq!['.', '.'] && !is_direct_child(name)
            ==> name.contains('/') || name.contains('\\'),
{
    reveal_strlit(".");
    reveal_strlit("..");
    assert("."@ =~= seq!['.']);
    assert(".."@ =~= seq!['.', '.']);
    if 0 <= i < name.len() {
        assert(name.contains(name[i]));
    }
}

/// A queue is opened by at most one of an id, a name and an alias. A name or an alias is the
/// directory, and without either it is the default one.
pub proof fn law_where_a_queue_lives(
    id: Option<String>,
    name: Option<String>,
    alias: Option<String>,
)
    ensures
        !exclusive(id, name, alias) <==> (id is Some && name is Some) || (id is Some
            && alias is Some) || (name is Some && alias is Some),
        name matches Some(n) ==> directory_of(name, alias) == n@,
        alias matches Some(a) ==> name is None ==> directory_of(name, alias) == a@,
        name is None && alias is None ==> directory_of(name, alias) == "default"@,
{
}

/// What exception an error is raised as, and how the text about a start key begins.
pub proof fn law_what_an_error_is_raised_as(error: StorageError, key: Seq<char>)
    ensures
        kind_of(error) == ExceptionKind::OsError <==> error is Io,
        kind_of(error) == ExceptionKind::FileNotFoundError <==> error is NotFound,
        kind_of(error) == ExceptionKind::ValueError <==> !(error is Io) && !(error is NotFound),
        start_key_text(key) == "exclusiveStartKey \""@ + key + "\" was not found"@,
{
}

} // verus!
