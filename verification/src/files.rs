//! The files of a queue's directory.
use vstd::prelude::*;

use crate::models::texts;
use crate::sort::{is_ranked, merge_sort, Ranked};

verus! {

/// The name of the file that holds a storage's metadata.
pub const METADATA_FILENAME: &'static str = "__metadata__.json";

/// How the name of a request file ends.
pub const REQUEST_SUFFIX: &'static str = ".json";

/// The text ends in `suffix`.
pub open spec fn ends_in(text: Seq<char>, suffix: Seq<char>) -> bool {
    &&& suffix.len() <= text.len()
    &&& text.skip(text.len() - suffix.len()) == suffix
}

/// A file of this name holds a request.
pub open spec fn is_request_name(name: Seq<char>) -> bool {
    ends_in(name, REQUEST_SUFFIX@) && name != METADATA_FILENAME@
}

/// The request files among those of a directory.
pub open spec fn request_names(names: Seq<Seq<char>>) -> Seq<Seq<char>> {
    names.filter(|name: Seq<char>| is_request_name(name))
}

/// Lexicographic order of code points, which is that of the bytes in UTF-8.
pub open spec fn name_le(a: Seq<char>, b: Seq<char>) -> bool
    decreases a.len(),
{
    if a.len() == 0 {
        true
    } else if b.len() == 0 {
        false
    } else if a[0] != b[0] {
        (a[0] as int) < (b[0] as int)
    } else {
        name_le(a.skip(1), b.skip(1))
    }
}

/// The names stand in order.
pub open spec fn is_sorted(names: Seq<Seq<char>>) -> bool {
    forall|i: int, j: int|
        #![trigger names[i], names[j]]
        0 <= i < j < names.len() ==> name_le(names[i], names[j])
}

proof fn lemma_name_le_total(a: Seq<char>, b: Seq<char>)
    ensures
        name_le(a, b) || name_le(b, a),
    decreases a.len(),
{
    if a.len() > 0 && b.len() > 0 && a[0] == b[0] {
        lemma_name_le_total(a.skip(1), b.skip(1));
    }
}

proof fn lemma_name_le_transitive(a: Seq<char>, b: Seq<char>, c: Seq<char>)
    requires
        name_le(a, b),
        name_le(b, c),
    ensures
        name_le(a, c),
    decreases a.len(),
{
    if a.len() > 0 && b.len() > 0 && c.len() > 0 && a[0] == b[0] && b[0] == c[0] {
        lemma_name_le_transitive(a.skip(1), b.skip(1), c.skip(1));
    }
}

/// Names that may stand before each other are the same.
pub(crate) proof fn lemma_name_le_antisymmetric(a: Seq<char>, b: Seq<char>)
    requires
        name_le(a, b),
        name_le(b, a),
    ensures
        a == b,
    decreases a.len(),
{
    if a.len() > 0 && b.len() > 0 {
        lemma_name_le_antisymmetric(a.skip(1), b.skip(1));
        assert(a =~= seq![a[0]] + a.skip(1));
        assert(b =~= seq![b[0]] + b.skip(1));
    } else {
        assert(a =~= b);
    }
}

impl Ranked for String {
    open spec fn ranks_before(&self, other: &String) -> bool {
        name_le(self@, other@)
    }

    proof fn lemma_total(&self, other: &String) {
        lemma_name_le_total(self@, other@);
    }

    proof fn lemma_transitive(&self, middle: &String, other: &String) {
        lemma_name_le_transitive(self@, middle@, other@);
    }

    fn may_precede(&self, other: &String) -> (may: bool) {
        let ghost a = self@;
        let ghost b = other@;
        let length = self.as_str().unicode_len();
        let other_length = other.as_str().unicode_len();
        let mut i: usize = 0;
        assert(a.skip(0) =~= a);
        assert(b.skip(0) =~= b);
        while i < length
            invariant
                a == self@,
                b == other@,
                length == a.len(),
                other_length == b.len(),
                i <= length,
                i <= other_length,
                name_le(a, b) == name_le(a.skip(i as int), b.skip(i as int)),
            decreases length - i,
        {
            if i >= other_length {
                return false;
            }
            let c = self.as_str().get_char(i);
            let d = other.as_str().get_char(i);
            if c != d {
                return (c as u32) < (d as u32);
            }
            assert(a.skip(i as int).skip(1) =~= a.skip(i + 1));
            assert(b.skip(i as int).skip(1) =~= b.skip(i + 1));
            i += 1;
        }
        true
    }
}

/// Whether a file of this name holds a request.
pub fn is_request_file(name: &String) -> (is: bool)
    ensures
        is == is_request_name(name@),
{
    let length = name.as_str().unicode_len();
    let suffix_length = REQUEST_SUFFIX.unicode_len();
    if length < suffix_length {
        return false;
    }
    let ending = name.as_str().substring_char(length - suffix_length, length).to_owned();
    assert(ending@ =~= name@.skip(length - suffix_length));
    ending == REQUEST_SUFFIX.to_owned() && *name != METADATA_FILENAME.to_owned()
}

/// The request files among those of a directory, in the order given.
pub fn get_request_files(names: &Vec<String>) -> (files: Vec<String>)
    ensures
        texts(files@) == request_names(texts(names@)),
{
    let ghost all = texts(names@);
    let mut files: Vec<String> = Vec::new();
    let mut i: usize = 0;
    assert(request_names(all.take(0)) =~= texts(files@)) by {
        reveal(Seq::filter);
    }
    while i < names.len()
        invariant
            i <= names@.len(),
            all == texts(names@),
            texts(files@) == request_names(all.take(i as int)),
        decreases names@.len() - i,
    {
        let ghost before = texts(files@);
        proof {
            reveal(Seq::filter);
            assert(all.take(i + 1).drop_last() =~= all.take(i as int));
            assert(all.take(i + 1).last() == names@[i as int]@);
        }
        if is_request_file(&names[i]) {
            files.push(names[i].clone());
            assert(texts(files@) =~= before.push(names@[i as int]@));
        }
        i += 1;
    }
    assert(all.take(i as int) =~= all);
    files
}

/// The same names in order.
pub fn sort_names(names: Vec<String>) -> (sorted: Vec<String>)
    ensures
        is_sorted(texts(sorted@)),
        texts(sorted@).to_multiset() == texts(names@).to_multiset(),
{
    let ghost before = names@;
    let sorted = merge_sort(names);
    proof {
        assert forall|i: int, j: int|
            #![trigger texts(sorted@)[i], texts(sorted@)[j]]
            0 <= i < j < sorted@.len() implies name_le(
            texts(sorted@)[i],
            texts(sorted@)[j],
        ) by {
            assert(sorted@[i].ranks_before(&sorted@[j]));
        }
        lemma_same_texts(sorted@, before);
    }
    sorted
}

/// Lists of the same strings have the same texts.
proof fn lemma_same_texts(a: Seq<String>, b: Seq<String>)
    requires
        a.to_multiset() == b.to_multiset(),
    ensures
        texts(a).to_multiset() == texts(b).to_multiset(),
    decreases a.len(),
{
    broadcast use vstd::seq_lib::group_to_multiset_ensures;

    vstd::seq_lib::to_multiset_len(a);
    vstd::seq_lib::to_multiset_len(b);
    if a.len() == 0 {
        assert(texts(a) =~= texts(b));
    } else {
        let last = a.last();
        let rest = a.drop_last();
        assert(a =~= rest.push(last));
        assert(a.to_multiset() =~= rest.to_multiset().insert(last));
        assert(b.to_multiset().count(last) > 0);
        assert(b.contains(last));
        let i = choose|i: int| 0 <= i < b.len() && b[i] == last;
        let shorter = b.remove(i);
        assert(shorter.to_multiset() =~= b.to_multiset().remove(last));
        assert(rest.to_multiset() =~= shorter.to_multiset());
        lemma_same_texts(rest, shorter);
        assert(texts(a) =~= texts(rest).push(last@));
        assert(texts(shorter) =~= texts(b).remove(i));
        assert(texts(b).to_multiset() =~= texts(shorter).to_multiset().insert(last@));
    }
}

/// Names can be put in order in one way only, so that what is numbered in this order is
/// numbered the same each time.
pub proof fn law_order_of_names_is_unique(a: Seq<Seq<char>>, b: Seq<Seq<char>>)
    requires
        is_sorted(a),
        is_sorted(b),
        a.to_multiset() == b.to_multiset(),
    ensures
        a == b,
    decreases a.len(),
{
    broadcast use vstd::seq_lib::group_to_multiset_ensures;

    vstd::seq_lib::to_multiset_len(a);
    vstd::seq_lib::to_multiset_len(b);
    if a.len() == 0 {
        assert(a =~= b);
    } else {
        assert(a.contains(a[0]) && b.contains(b[0]));
        assert(b.to_multiset().count(a[0]) > 0);
        assert(a.to_multiset().count(b[0]) > 0);
        assert(b.contains(a[0]) && a.contains(b[0]));
        let i = choose|i: int| 0 <= i < b.len() && b[i] == a[0];
        let j = choose|j: int| 0 <= j < a.len() && a[j] == b[0];
        lemma_name_le_total(a[0], a[0]);
        assert(name_le(a[0], a[j]));
        assert(name_le(b[0], b[i]));
        lemma_name_le_antisymmetric(a[0], b[0]);
        let rest_a = a.remove(0);
        let rest_b = b.remove(0);
        assert(rest_a.to_multiset() =~= rest_b.to_multiset());
        assert forall|x: int, y: int|
            #![trigger rest_a[x], rest_a[y]]
            0 <= x < y < rest_a.len() implies name_le(rest_a[x], rest_a[y]) by {
            assert(name_le(a[x + 1], a[y + 1]));
        }
        assert forall|x: int, y: int|
            #![trigger rest_b[x], rest_b[y]]
            0 <= x < y < rest_b.len() implies name_le(rest_b[x], rest_b[y]) by {
            assert(name_le(b[x + 1], b[y + 1]));
        }
        law_order_of_names_is_unique(rest_a, rest_b);
        assert(a =~= seq![a[0]] + rest_a);
        assert(b =~= seq![b[0]] + rest_b);
    }
}

proof fn lemma_request_names_count(names: Seq<Seq<char>>, name: Seq<char>)
    ensures
        request_names(names).to_multiset().count(name) == if is_request_name(name) {
            names.to_multiset().count(name)
        } else {
            0
        },
    decreases names.len(),
{
    broadcast use vstd::seq_lib::group_to_multiset_ensures;

    reveal(Seq::filter);
    if names.len() > 0 {
        let shorter = names.drop_last();
        lemma_request_names_count(shorter, name);
        assert(names =~= shorter.push(names.last()));
        vstd::seq_lib::to_multiset_build(shorter, names.last());
        vstd::seq_lib::to_multiset_build(request_names(shorter), names.last());
        assert(request_names(names) == if is_request_name(names.last()) {
            request_names(shorter).push(names.last())
        } else {
            request_names(shorter)
        });
    } else {
        vstd::seq_lib::to_multiset_len(names);
        assert(request_names(names) =~= names);
    }
}

/// The order in which a directory is listed does not matter: the request files are read in the
/// same order.
pub proof fn law_listing_order_does_not_matter(
    listing: Seq<Seq<char>>,
    other: Seq<Seq<char>>,
    files: Seq<Seq<char>>,
    other_files: Seq<Seq<char>>,
)
    requires
        listing.to_multiset() == other.to_multiset(),
        is_sorted(files),
        files.to_multiset() == request_names(listing).to_multiset(),
        is_sorted(other_files),
        other_files.to_multiset() == request_names(other).to_multiset(),
    ensures
        files == other_files,
{
    assert forall|name: Seq<char>|
        request_names(listing).to_multiset().count(name) == request_names(
            other,
        ).to_multiset().count(name) by {
        lemma_request_names_count(listing, name);
        lemma_request_names_count(other, name);
    }
    assert(request_names(listing).to_multiset() =~= request_names(other).to_multiset());
    law_order_of_names_is_unique(files, other_files);
}

} // verus!
