//! Advertiser history: an ordered list of entries together with
//! per-advertiser occurrence counts, plus the merge and reconciliation
//! rules that combine the two legacy-era sources.

use vstd::prelude::*;
use crate::AdvertError;

verus! {

/// Number of occurrences of `k` in `s`.
pub open spec fn occ(s: Seq<Seq<char>>, k: Seq<char>) -> nat
    decreases s.len(),
{
    if s.len() == 0 {
        0
    } else {
        occ(s.drop_last(), k) + if s.last() == k {
            1nat
        } else {
            0nat
        }
    }
}

/// First-match lookup of advertiser `k` among the counters; 0 when absent.
pub open spec fn lookup(s: Seq<(String, u64)>, k: Seq<char>) -> nat
    decreases s.len(),
{
    if s.len() == 0 {
        0
    } else if s[0].0@ == k {
        s[0].1 as nat
    } else {
        lookup(s.drop_first(), k)
    }
}

/// Whether some counter is recorded for advertiser `k`.
pub open spec fn has_key(s: Seq<(String, u64)>, k: Seq<char>) -> bool {
    exists|i: int| 0 <= i < s.len() && s[i].0@ == k
}

/// Sum of all recorded counters.
pub open spec fn sum_counts(s: Seq<(String, u64)>) -> nat
    decreases s.len(),
{
    if s.len() == 0 {
        0
    } else {
        sum_counts(s.drop_last()) + s.last().1 as nat
    }
}

/// The history retrieved from one source (or merged from two): the raw
/// entries in discovery order, duplicates kept, and a counter per
/// distinct advertiser.
#[derive(Debug)]
pub struct HistoryResult {
    /// Advertiser names in discovery order, one per purchase event.
    pub ordered_entries: Vec<String>,
    /// One counter per distinct advertiser; keys unique, counters positive.
    pub counts: Vec<(String, u64)>,
}

impl HistoryResult {
    /// The ordered entries as a sequence of character sequences.
    pub open spec fn ordered_view(&self) -> Seq<Seq<char>> {
        self.ordered_entries.deep_view()
    }

    /// Count recorded for advertiser `k`; zero when unknown.
    pub open spec fn count_of(&self, k: Seq<char>) -> nat {
        lookup(self.counts@, k)
    }

    /// The counters exactly aggregate the ordered entries: keys are
    /// unique, every counter is positive and equals the number of
    /// occurrences of its advertiser, and the counters sum to the
    /// number of entries.
    pub open spec fn wf(&self) -> bool {
        &&& forall|i: int, j: int|
            0 <= i < j < self.counts@.len() ==> self.counts@[i].0@ != self.counts@[j].0@
        &&& forall|i: int| 0 <= i < self.counts@.len() ==> (#[trigger] self.counts@[i]).1 > 0
        &&& forall|k: Seq<char>| #![auto] lookup(self.counts@, k) == occ(self.ordered_view(), k)
        &&& sum_counts(self.counts@) == self.ordered_view().len()
    }

    /// An empty history: no entries, no counters.
    pub fn new() -> (r: HistoryResult)
        ensures
            r.wf(),
            r.ordered_view() == Seq::<Seq<char>>::empty(),
            r.counts@.len() == 0,
    {
        let r = HistoryResult { ordered_entries: Vec::new(), counts: Vec::new() };
        proof {
            assert(r.ordered_view() =~= Seq::<Seq<char>>::empty());
        }
        r
    }

    /// Appends one entry to the ordered list and bumps its counter,
    /// creating the counter at 1 for a first occurrence.
    pub fn push_entry(&mut self, name: String)
        requires
            old(self).wf(),
        ensures
            final(self).wf(),
            final(self).ordered_view() == old(self).ordered_view().push(name@),
    {
        proof {
            assert forall|k: Seq<char>| #![auto]
                occ(old(self).ordered_view().push(name@), k) == occ(old(self).ordered_view(), k)
                    + if k == name@ {
                    1nat
                } else {
                    0nat
                } by {
                lemma_occ_push(old(self).ordered_view(), name@, k);
            }
        }
        let found = find_key(&self.counts, &name);
        match found {
            Some(j) => {
                let c = self.counts[j].1;
                proof {
                    lemma_lookup_at(self.counts@, j as int, name@);
                    lemma_occ_le_len(old(self).ordered_view(), name@);
                }
                self.ordered_entries.push(name.clone());
                let n = self.ordered_entries.len();
                assert(c + 1 <= n <= u64::MAX);
                let ghost pre = self.counts@;
                self.counts.set(j, (name, c + 1));
                proof {
                    lemma_deep_view_push(old(self).ordered_entries, self.ordered_entries, name@);
                    assert forall|k: Seq<char>| #![auto]
                        lookup(self.counts@, k) == occ(self.ordered_view(), k) by {
                        lemma_lookup_update(pre, j as int, self.counts@[j as int], k);
                    }
                    lemma_sum_update(pre, j as int, self.counts@[j as int]);
                }
            },
            None => {
                self.ordered_entries.push(name.clone());
                let ghost pre = self.counts@;
                self.counts.push((name, 1));
                proof {
                    lemma_deep_view_push(old(self).ordered_entries, self.ordered_entries, name@);
                    assert forall|k: Seq<char>| #![auto]
                        lookup(self.counts@, k) == occ(self.ordered_view(), k) by {
                        lemma_lookup_push(pre, self.counts@[pre.len() as int], k);
                        if has_key(pre, k) {
                            let i = choose|i: int| 0 <= i < pre.len() && pre[i].0@ == k;
                            assert(pre[i].0@ != name@);
                        } else {
                            lemma_lookup_absent(pre, k);
                        }
                    }
                    assert(self.counts@.drop_last() =~= pre);
                    assert forall|i: int, j: int|
                        0 <= i < j < self.counts@.len() implies self.counts@[i].0@
                        != self.counts@[j].0@ by {
                        if j == pre.len() as int {
                            assert(!(exists|m: int| 0 <= m < pre.len() && pre[m].0@ == name@));
                        }
                    }
                }
            },
        }
    }
}

/// Index of the counter for `name`, if one is recorded.
fn find_key(counts: &Vec<(String, u64)>, name: &String) -> (r: Option<usize>)
    ensures
        match r {
            Some(j) => j < counts@.len() && counts@[j as int].0@ == name@,
            None => forall|i: int| 0 <= i < counts@.len() ==> counts@[i].0@ != name@,
        },
{
    let n = counts.len();
    let mut j: usize = 0;
    while j < n
        invariant
            j <= n,
            forall|i: int| 0 <= i < j ==> counts@[i].0@ != name@,
        decreases n - j,
    {
        if counts[j].0 == *name {
            return Some(j);
        }
        j = j + 1;
    }
    None
}

proof fn lemma_occ_push(s: Seq<Seq<char>>, x: Seq<char>, k: Seq<char>)
    ensures
        occ(s.push(x), k) == occ(s, k) + if x == k {
            1nat
        } else {
            0nat
        },
{
    assert(s.push(x).drop_last() =~= s);
    assert(s.push(x).last() == x);
}

/// Occurrences never exceed the length of the sequence.
proof fn lemma_occ_le_len(s: Seq<Seq<char>>, k: Seq<char>)
    ensures
        occ(s, k) <= s.len(),
    decreases s.len(),
{
    if s.len() > 0 {
        lemma_occ_le_len(s.drop_last(), k);
    }
}

/// Concatenation adds occurrence counts.
pub proof fn lemma_occ_concat(a: Seq<Seq<char>>, b: Seq<Seq<char>>, k: Seq<char>)
    ensures
        occ(a + b, k) == occ(a, k) + occ(b, k),
    decreases b.len(),
{
    if b.len() == 0 {
        assert(a + b =~= a);
    } else {
        lemma_occ_concat(a, b.drop_last(), k);
        assert((a + b).drop_last() =~= a + b.drop_last());
        assert((a + b).last() == b.last());
    }
}

/// With unique keys, lookup finds exactly the counter stored at `j`.
proof fn lemma_lookup_at(s: Seq<(String, u64)>, j: int, k: Seq<char>)
    requires
        0 <= j < s.len(),
        s[j].0@ == k,
        forall|i1: int, i2: int| 0 <= i1 < i2 < s.len() ==> s[i1].0@ != s[i2].0@,
    ensures
        lookup(s, k) == s[j].1 as nat,
    decreases s.len(),
{
    if j == 0 {
    } else {
        assert(s[0].0@ != k);
        assert(s.drop_first()[j - 1] == s[j]);
        lemma_lookup_at(s.drop_first(), j - 1, k);
    }
}

/// Lookup after appending a counter: earlier counters shadow it.
proof fn lemma_lookup_push(s: Seq<(String, u64)>, e: (String, u64), k: Seq<char>)
    ensures
        lookup(s.push(e), k) == if has_key(s, k) {
            lookup(s, k)
        } else if e.0@ == k {
            e.1 as nat
        } else {
            0nat
        },
    decreases s.len(),
{
    let t = s.push(e);
    if s.len() == 0 {
        assert(t[0] == e);
        assert(!has_key(s, k));
        if e.0@ == k {
            assert(lookup(t, k) == e.1 as nat);
        } else {
            assert(t.drop_first() =~= Seq::<(String, u64)>::empty());
            assert(lookup(Seq::<(String, u64)>::empty(), k) == 0);
            assert(lookup(t, k) == lookup(t.drop_first(), k));
        }
    } else {
        assert(t[0] == s[0]);
        if s[0].0@ == k {
            assert(has_key(s, k));
            assert(lookup(t, k) == s[0].1 as nat);
            assert(lookup(s, k) == s[0].1 as nat);
        } else {
            lemma_lookup_push(s.drop_first(), e, k);
            assert(t.drop_first() =~= s.drop_first().push(e));
            assert(lookup(t, k) == lookup(s.drop_first().push(e), k));
            if has_key(s, k) {
                let i = choose|i: int| 0 <= i < s.len() && s[i].0@ == k;
                assert(i != 0);
                assert(s.drop_first()[i - 1] == s[i]);
                assert(has_key(s.drop_first(), k));
            } else {
                assert forall|i: int|
                    0 <= i < s.drop_first().len() implies s.drop_first()[i].0@ != k by {
                    assert(s.drop_first()[i] == s[i + 1]);
                }
                assert(!has_key(s.drop_first(), k));
            }
            assert(lookup(s, k) == lookup(s.drop_first(), k));
        }
    }
}

/// A key with no counter looks up to zero.
proof fn lemma_lookup_absent(s: Seq<(String, u64)>, k: Seq<char>)
    requires
        forall|i: int| 0 <= i < s.len() ==> s[i].0@ != k,
    ensures
        lookup(s, k) == 0,
    decreases s.len(),
{
    if s.len() > 0 {
        assert forall|i: int| 0 <= i < s.drop_first().len() implies s.drop_first()[i].0@ != k by {
            assert(s.drop_first()[i] == s[i + 1]);
        }
        lemma_lookup_absent(s.drop_first(), k);
    }
}

/// Lookup after replacing the counter at `j` with one for the same key.
proof fn lemma_lookup_update(s: Seq<(String, u64)>, j: int, e: (String, u64), k: Seq<char>)
    requires
        0 <= j < s.len(),
        s[j].0@ == e.0@,
        forall|i1: int, i2: int| 0 <= i1 < i2 < s.len() ==> s[i1].0@ != s[i2].0@,
    ensures
        lookup(s.update(j, e), k) == if k == e.0@ {
            e.1 as nat
        } else {
            lookup(s, k)
        },
    decreases s.len(),
{
    let t = s.update(j, e);
    if j == 0 {
        assert(t[0] == e);
        if k == e.0@ {
        } else {
            assert(t.drop_first() =~= s.drop_first());
        }
    } else {
        assert(t[0] == s[0]);
        if s[0].0@ == k {
            assert(k != e.0@);
        } else {
            assert(t.drop_first() =~= s.drop_first().update(j - 1, e));
            assert(s.drop_first()[j - 1] == s[j]);
            assert forall|i1: int, i2: int|
                0 <= i1 < i2 < s.drop_first().len() implies s.drop_first()[i1].0@
                != s.drop_first()[i2].0@ by {
                assert(s.drop_first()[i1] == s[i1 + 1]);
                assert(s.drop_first()[i2] == s[i2 + 1]);
            }
            lemma_lookup_update(s.drop_first(), j - 1, e, k);
        }
    }
}

/// Replacing one counter with its successor raises the sum by one.
proof fn lemma_sum_update(s: Seq<(String, u64)>, j: int, e: (String, u64))
    requires
        0 <= j < s.len(),
        e.1 as nat == s[j].1 as nat + 1,
    ensures
        sum_counts(s.update(j, e)) == sum_counts(s) + 1,
    decreases s.len(),
{
    let t = s.update(j, e);
    if j == s.len() - 1 {
        assert(t.drop_last() =~= s.drop_last());
        assert(t.last() == e);
    } else {
        assert(t.drop_last() =~= s.drop_last().update(j, e));
        assert(t.last() == s.last());
        lemma_sum_update(s.drop_last(), j, e);
    }
}

/// Pushing one entry extends the deep view by its characters.
proof fn lemma_deep_view_push(pre: Vec<String>, post: Vec<String>, x: Seq<char>)
    requires
        post@.len() == pre@.len() + 1,
        post@ == pre@.push(post@.last()),
        post@.last()@ == x,
    ensures
        post.deep_view() == pre.deep_view().push(x),
{
    assert forall|i: int| 0 <= i < post@.len() implies post.deep_view()[i] == pre.deep_view().push(
        x,
    )[i] by {
        if i < pre@.len() {
            assert(post@[i] == pre@[i]);
        }
    }
    assert(post.deep_view() =~= pre.deep_view().push(x));
}

/// Merges two histories: the ordered entries of `a` followed by those of
/// `b`, with counters summed key-wise.
pub fn merge(a: HistoryResult, b: HistoryResult) -> (r: HistoryResult)
    requires
        a.wf(),
        b.wf(),
    ensures
        r.wf(),
        r.ordered_view() == a.ordered_view() + b.ordered_view(),
        forall|k: Seq<char>| #![auto] r.count_of(k) == a.count_of(k) + b.count_of(k),
{
    let ghost av = a.ordered_view();
    let ghost bv = b.ordered_view();
    let mut r = a;
    let n = b.ordered_entries.len();
    let mut i: usize = 0;
    proof {
        assert(av + bv.take(0) =~= av);
    }
    while i < n
        invariant
            i <= n,
            n == b.ordered_entries@.len(),
            r.wf(),
            r.ordered_view() == av + bv.take(i as int),
        decreases n - i,
    {
        let name = b.ordered_entries[i].clone();
        proof {
            assert(name@ == bv[i as int]);
        }
        r.push_entry(name);
        i = i + 1;
        proof {
            assert(av + bv.take(i as int) =~= (av + bv.take(i - 1)).push(bv[i - 1]));
        }
    }
    proof {
        assert(bv.take(n as int) =~= bv);
        assert forall|k: Seq<char>| #![auto] r.count_of(k) == a.count_of(k) + b.count_of(k) by {
            lemma_occ_concat(av, bv, k);
        }
    }
    r
}

/// Combines the outcomes of the two legacy-era fetch attempts.
///
/// Whichever source succeeded alone is returned as it is; when both
/// succeeded their histories are merged with the JSON entries first; when
/// both failed no advertiser history is retrievable.
pub fn reconcile(json: Option<HistoryResult>, csv: Option<HistoryResult>) -> (r: Result<
    HistoryResult,
    AdvertError,
>)
    requires
        json matches Some(h) ==> h.wf(),
        csv matches Some(h) ==> h.wf(),
    ensures
        match (json, csv) {
            (Some(j), Some(c)) => r matches Ok(m) && m.wf() && m.ordered_view() == j.ordered_view()
                + c.ordered_view() && forall|k: Seq<char>|
                #![auto]
                m.count_of(k) == j.count_of(k) + c.count_of(k),
            (Some(j), None) => r == Ok::<HistoryResult, AdvertError>(j),
            (None, Some(c)) => r == Ok::<HistoryResult, AdvertError>(c),
            (None, None) => r == Err::<HistoryResult, AdvertError>(AdvertError::NoSourceAvailable),
        },
{
    match (json, csv) {
        (Some(j), Some(c)) => Ok(merge(j, c)),
        (Some(j), None) => Ok(j),
        (None, Some(c)) => Ok(c),
        (None, None) => Err(AdvertError::NoSourceAvailable),
    }
}

/// Aggregates a raw ordered list of advertiser names into a history.
///
/// The counters of the result sum to the length of the input, and the
/// counter of every advertiser equals its number of occurrences.
pub fn aggregate(names: Vec<String>) -> (r: HistoryResult)
    ensures
        r.wf(),
        r.ordered_view() == names.deep_view(),
        sum_counts(r.counts@) == names.deep_view().len(),
        forall|k: Seq<char>| #![auto] r.count_of(k) == occ(names.deep_view(), k),
{
    let n = names.len();
    let mut r = HistoryResult::new();
    let mut i: usize = 0;
    proof {
        assert(r.ordered_view() =~= names.deep_view().take(0));
    }
    while i < n
        invariant
            i <= n,
            n == names@.len(),
            r.wf(),
            r.ordered_view() == names.deep_view().take(i as int),
        decreases n - i,
    {
        let name = names[i].clone();
        proof {
            assert(name@ == names.deep_view()[i as int]);
        }
        r.push_entry(name);
        i = i + 1;
        proof {
            assert(names.deep_view().take(i as int) =~= (names.deep_view().take(
                i - 1,
            )).push(names.deep_view()[i - 1]));
        }
    }
    proof {
        assert(names.deep_view().take(n as int) =~= names.deep_view());
    }
    r
}

} // verus!
