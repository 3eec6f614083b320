//! Finding out whether a queue is finished.
//!
//! A queue is finished when no unhandled request remains anywhere, be it locked or not, and
//! whichever client added it. [`FileSystemRequestQueueClient::is_finished`] lists the request
//! files. Each is given to [`FileSystemRequestQueueClient::finish_examine`], which stops at the
//! first that is outstanding, and [`FileSystemRequestQueueClient::finish_conclude`] looks at the
//! index once none is left.
use vstd::prelude::*;

use crate::files::{get_request_files, request_names};
use crate::json::{json_parse, Json, JsonView};
use crate::models::{content_text, texts};
use crate::open::{filed_as_handled, finding, is_filed_as_handled, Finding};
use crate::request::{extract_unique_key, order_no_of, read_order_no, unique_key_of};
use crate::state::{FileSystemRequestQueueClient, QueueView};

verus! {

/// The request files that are still to be looked at.
pub struct FinishScan {
    files: Vec<String>,
    next: usize,
}

/// What came of a request file.
pub enum FinishStep {
    /// Its request is still to be handled: the queue is not finished.
    Outstanding,
    /// It does not keep the queue from being finished; the scan goes on.
    Next(FinishScan),
}

/// The content of a request file shows a request that is not handled.
///
/// It does so at any time: the moment at which the file is looked at plays no part.
pub open spec fn is_unhandled_on_file(content: Option<Seq<char>>) -> bool {
    finding(content, 0, false) matches Finding::Request(_, Some(_), _)
}

/// The content of a request file shows a request that can never be fetched: it has no order
/// number on file, and the index has it as handled on that account.
pub open spec fn is_given_up(queue: QueueView, content: Option<Seq<char>>) -> bool {
    &&& content matches Some(text)
    &&& json_parse(text) matches Some(document)
    &&& order_no_of(document) is None
    &&& unique_key_of(document) matches Some(key)
    &&& queue.is_handled(key)
}

/// A request file keeps the queue from being finished.
pub open spec fn is_outstanding(queue: QueueView, content: Option<Seq<char>>) -> bool {
    is_unhandled_on_file(content) && !is_given_up(queue, content)
}

/// The request has a handling time or a null order number on file, and no order number that it
/// could be fetched by.
pub open spec fn is_settled(document: JsonView) -> bool {
    filed_as_handled(document) && order_no_of(document) is None
}

/// The key of the request that the content of a file shows to be settled.
pub open spec fn settled_key(content: Option<Seq<char>>) -> Option<Seq<char>> {
    match content {
        None => None,
        Some(text) => match json_parse(text) {
            None => None,
            Some(document) => if is_settled(document) {
                unique_key_of(document)
            } else {
                None
            },
        },
    }
}

/// The queue once a request file was looked at: the index follows a file that shows that its
/// request is settled.
pub open spec fn after_glance(queue: QueueView, content: Option<Seq<char>>) -> QueueView {
    match settled_key(content) {
        Some(key) => queue.with_order(key, None),
        None => queue,
    }
}

impl View for FinishScan {
    type V = Seq<Seq<char>>;

    closed spec fn view(&self) -> Seq<Seq<char>> {
        texts(self.files@).skip(self.next as int)
    }
}

impl FinishScan {
    #[verifier::type_invariant]
    spec fn well_formed(self) -> bool {
        self.next <= self.files@.len()
    }

    /// The name of the file that has to be read next, if any is left.
    pub fn next_file(&self) -> (name: Option<&String>)
        ensures
            match name {
                Some(n) => self@.len() > 0 && n@ == self@[0],
                None => self@.len() == 0,
            },
    {
        proof {
            use_type_invariant(self);
        }
        if self.next < self.files.len() {
            Some(&self.files[self.next])
        } else {
            None
        }
    }
}

impl FileSystemRequestQueueClient {
    /// Begin to find out whether the queue is finished.
    ///
    /// `names` are the names of the files in the queue's directory.
    pub fn is_finished(&self, names: &Vec<String>) -> (scan: FinishScan)
        ensures
            scan@ == request_names(texts(names@)),
    {
        let scan = FinishScan { files: get_request_files(names), next: 0 };
        assert(scan@ =~= texts(scan.files@));
        scan
    }

    /// Look at the content of the next request file. `None`: it cannot be read.
    pub fn finish_examine(&mut self, scan: FinishScan, content: Option<&str>) -> (step: FinishStep)
        requires
            scan@.len() > 0,
        ensures
            final(self)@ == after_glance(old(self)@, content_text(content)),
            match step {
                FinishStep::Outstanding => is_outstanding(old(self)@, content_text(content)),
                FinishStep::Next(rest) => {
                    &&& !is_outstanding(old(self)@, content_text(content))
                    &&& rest@ == scan@.skip(1)
                },
            },
    {
        proof {
            use_type_invariant(&scan);
        }
        let ghost before = scan@;
        let FinishScan { files, next } = scan;
        let total = files.len();
        assert(next < total);
        assert(texts(files@).skip(next + 1) =~= before.skip(1));
        let rest = FinishScan { files, next: next + 1 };
        let request = match content {
            Some(text) => match Json::parse(text) {
                Ok(request) => request,
                Err(_) => {
                    return FinishStep::Next(rest);
                },
            },
            None => {
                return FinishStep::Next(rest);
            },
        };
        let unique_key = match extract_unique_key(&request) {
            Ok(key) => key,
            Err(_) => {
                return FinishStep::Next(rest);
            },
        };
        let has_order_no = read_order_no(&request).is_some();
        if !is_filed_as_handled(&request) {
            if !has_order_no && self.indexed_as_handled(unique_key.as_str()) {
                return FinishStep::Next(rest);
            }
            return FinishStep::Outstanding;
        }
        if !has_order_no {
            self.set_indexed_order(&unique_key, None);
        }
        FinishStep::Next(rest)
    }

    /// Whether the queue is finished, once no request file turned out to be outstanding.
    pub fn finish_conclude(&self, scan: FinishScan) -> (finished: bool)
        requires
            scan@.len() == 0,
        ensures
            finished == self@.is_finished(),
    {
        self.index_is_finished()
    }

    /// Whether every request in the index is handled.
    fn index_is_finished(&self) -> (finished: bool)
        ensures
            finished == self@.is_finished(),
    {
        let total = self.requests.len();
        let ghost keys = self.requests.spec_keys();
        let mut i: usize = 0;
        while i < total
            invariant
                i <= total,
                total == keys.len(),
                keys == self.requests.spec_keys(),
                forall|j: int|
                    0 <= j < i ==> self@.requests[#[trigger] keys[j]].order_no is None,
            decreases total - i,
        {
            if self.requests.value_at(i).order_no.is_some() {
                assert(self@.requests.contains_key(keys[i as int]));
                return false;
            }
            i += 1;
        }
        assert forall|key: Seq<char>| #[trigger] self@.requests.contains_key(
            key,
        ) implies self@.requests[key].order_no is None by {
            assert(keys.contains(key));
        }
        true
    }
}

} // verus!
