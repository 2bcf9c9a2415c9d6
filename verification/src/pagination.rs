//! The pagination protocol of the current-era JSON advertiser API.
//!
//! The API is read with an offset/limit cursor, the limit fixed at 128
//! records per request. The pager starts at offset 0, advances the offset
//! by the number of records each page actually returned, and stops exactly
//! when a page comes back empty — a declared total count is not trusted.
//! A feed that never returns an empty page would otherwise be read
//! forever; as a deliberate safeguard beyond that rule, the pager also
//! stops after `MAX_PAGES` pages.

use vstd::prelude::*;
use crate::history::HistoryResult;

verus! {

/// Number of records requested per page.
pub const PAGE_LIMIT: u64 = 128;

/// Safety cap on the number of pages read from one feed.
pub const MAX_PAGES: u64 = 100000;

/// Drives the offset/limit pagination of one video's advertiser feed and
/// aggregates every returned record.
pub struct JsonPager {
    /// Offset of the next request: the number of records consumed so far.
    pub offset: u64,
    /// Number of pages consumed so far.
    pub pages: u64,
    /// Whether pagination has terminated.
    pub done: bool,
    /// The aggregated history of every record seen so far.
    pub result: HistoryResult,
}

impl JsonPager {
    /// The offset always equals the number of consumed records, and a
    /// pager that has reached the page cap is done.
    pub open spec fn wf(&self) -> bool {
        &&& self.result.wf()
        &&& self.offset as nat == self.result.ordered_view().len()
        &&& self.pages <= MAX_PAGES
        &&& self.pages == MAX_PAGES ==> self.done
    }

    /// A fresh pager: nothing consumed, first request at offset 0.
    pub fn new() -> (r: JsonPager)
        ensures
            r.wf(),
            !r.done,
            r.offset == 0,
            r.pages == 0,
            r.result.ordered_view() == Seq::<Seq<char>>::empty(),
    {
        JsonPager { offset: 0, pages: 0, done: false, result: HistoryResult::new() }
    }

    /// The offset to request next, or nothing when pagination is over.
    pub fn next_offset(&self) -> (r: Option<u64>)
        ensures
            r == if self.done {
                Option::<u64>::None
            } else {
                Option::<u64>::Some(self.offset)
            },
    {
        if self.done {
            None
        } else {
            Some(self.offset)
        }
    }

    /// Consumes one page of advertiser names: appends every record to the
    /// history, advances the offset by the page's actual length, and
    /// terminates exactly on an empty page (or at the page cap).
    pub fn feed_page(&mut self, names: Vec<String>)
        requires
            old(self).wf(),
            !old(self).done,
        ensures
            final(self).wf(),
            final(self).result.ordered_view() == old(self).result.ordered_view()
                + names.deep_view(),
            final(self).pages == old(self).pages + 1,
            final(self).offset as nat == old(self).offset as nat + names@.len(),
            final(self).done == (names@.len() == 0 || old(self).pages + 1 == MAX_PAGES),
    {
        let ghost av = old(self).result.ordered_view();
        let ghost bv = names.deep_view();
        let empty_page = names.len() == 0;
        let n = names.len();
        let mut i: usize = 0;
        proof {
            assert(av + bv.take(0) =~= av);
        }
        while i < n
            invariant
                i <= n,
                n == names@.len(),
                self.result.wf(),
                self.result.ordered_view() == av + bv.take(i as int),
                self.offset == old(self).offset,
                self.pages == old(self).pages,
                self.done == old(self).done,
            decreases n - i,
        {
            let name = names[i].clone();
            proof {
                assert(name@ == bv[i as int]);
            }
            self.result.push_entry(name);
            i = i + 1;
            proof {
                assert(av + bv.take(i as int) =~= (av + bv.take(i - 1)).push(bv[i - 1]));
            }
        }
        proof {
            assert(bv.take(n as int) =~= bv);
        }
        let consumed = self.result.ordered_entries.len();
        self.offset = consumed as u64;
        self.pages = self.pages + 1;
        self.done = empty_page || self.pages == MAX_PAGES;
    }

    /// Hands the aggregated history out of the pager.
    pub fn into_result(self) -> (r: HistoryResult)
        ensures
            r == self.result,
    {
        self.result
    }
}

} // verus!
