use vstd::prelude::*;

use std::io::ErrorKind;

verus! {

#[verifier::external_type_specification]
#[verifier::external_body]
pub struct ExErrorKind(ErrorKind);

/// Relies on `PartialEq` for `std::io::ErrorKind`, which std derives: two
/// kinds are equal exactly when they are the same variant.
#[verifier::external_body]
fn same_kind(a: ErrorKind, b: ErrorKind) -> (r: bool)
    ensures
        r == (a == b),
{
    a == b
}

/// How one probe ended, by the category of each side's error.
#[derive(Clone, Copy, Debug, Hash)]
pub enum SingleRunResult {
    /// The response was read and every write succeeded.
    ResponseCorrect,
    /// Reading the response failed; the writes succeeded.
    ReadResponseError(ErrorKind),
    /// A write failed; the response was read.
    WriteNumberError(ErrorKind),
    /// Both sides failed.
    BothErr { read: ErrorKind, write: ErrorKind },
}

impl PartialEq for SingleRunResult {
    fn eq(&self, other: &SingleRunResult) -> (r: bool)
        ensures
            r == (*self == *other),
    {
        match (self, other) {
            (SingleRunResult::ResponseCorrect, SingleRunResult::ResponseCorrect) => true,
            (SingleRunResult::ReadResponseError(a), SingleRunResult::ReadResponseError(b)) => same_kind(*a, *b),
            (SingleRunResult::WriteNumberError(a), SingleRunResult::WriteNumberError(b)) => same_kind(*a, *b),
            (
                SingleRunResult::BothErr { read: ra, write: wa },
                SingleRunResult::BothErr { read: rb, write: wb },
            ) => same_kind(*ra, *rb) && same_kind(*wa, *wb),
            _ => false,
        }
    }
}

impl vstd::std_specs::cmp::PartialEqSpecImpl for SingleRunResult {
    open spec fn obeys_eq_spec() -> bool {
        true
    }

    open spec fn eq_spec(&self, other: &SingleRunResult) -> bool {
        *self == *other
    }
}

impl Eq for SingleRunResult {

}

/// The outcome of a probe whose read gave `read` and whose writes ended with
/// `write_error`, if one failed.
pub open spec fn classification(read: Result<u32, ErrorKind>, write_error: Option<ErrorKind>) -> SingleRunResult {
    match (read, write_error) {
        (Ok(_), None) => SingleRunResult::ResponseCorrect,
        (Err(r), None) => SingleRunResult::ReadResponseError(r),
        (Ok(_), Some(w)) => SingleRunResult::WriteNumberError(w),
        (Err(r), Some(w)) => SingleRunResult::BothErr { read: r, write: w },
    }
}

/// Classifies one probe from the response read and the first failed write.
pub fn classify(read: Result<u32, ErrorKind>, write_error: Option<ErrorKind>) -> (r: SingleRunResult)
    ensures
        r == classification(read, write_error),
{
    match (read, write_error) {
        (Ok(_), None) => SingleRunResult::ResponseCorrect,
        (Err(r), None) => SingleRunResult::ReadResponseError(r),
        (Ok(_), Some(w)) => SingleRunResult::WriteNumberError(w),
        (Err(r), Some(w)) => SingleRunResult::BothErr { read: r, write: w },
    }
}

/// Each combination of read and write results falls under exactly one
/// outcome, and a probe in which both failed keeps both categories, each in
/// its own place.
pub proof fn lemma_classification_exact(read: Result<u32, ErrorKind>, write_error: Option<ErrorKind>)
    ensures
        (classification(read, write_error) is ResponseCorrect) <==> (read is Ok && write_error is None),
        (classification(read, write_error) is ReadResponseError) <==> (read is Err && write_error is None),
        (classification(read, write_error) is WriteNumberError) <==> (read is Ok && write_error is Some),
        (classification(read, write_error) is BothErr) <==> (read is Err && write_error is Some),
        (read is Err && write_error is Some) ==> classification(read, write_error) == (SingleRunResult::BothErr {
            read: read->Err_0,
            write: write_error->Some_0,
        }),
        (read is Err && write_error is None) ==> classification(read, write_error)
            == SingleRunResult::ReadResponseError(read->Err_0),
        (read is Ok && write_error is Some) ==> classification(read, write_error)
            == SingleRunResult::WriteNumberError(write_error->Some_0),
{
}

/// Whether an entry under `key` is counted: every entry when `only` is
/// `None`, else those under the given outcome.
pub open spec fn counted(only: Option<SingleRunResult>, key: SingleRunResult) -> bool {
    match only {
        None => true,
        Some(o) => o == key,
    }
}

/// The sum of the counts of the entries that `only` selects.
pub open spec fn tally(entries: Seq<(SingleRunResult, u64)>, only: Option<SingleRunResult>) -> nat
    decreases entries.len(),
{
    if entries.len() == 0 {
        0
    } else {
        let last = entries.last();
        (tally(entries.drop_last(), only) + if counted(only, last.0) {
            last.1 as nat
        } else {
            0nat
        }) as nat
    }
}

proof fn lemma_tally_within_total(entries: Seq<(SingleRunResult, u64)>, o: SingleRunResult)
    ensures
        tally(entries, Some(o)) <= tally(entries, None),
    decreases entries.len(),
{
    if entries.len() > 0 {
        lemma_tally_within_total(entries.drop_last(), o);
    }
}

proof fn lemma_tally_prefix(entries: Seq<(SingleRunResult, u64)>, i: int, only: Option<SingleRunResult>)
    requires
        0 <= i < entries.len(),
    ensures
        entries.take(i + 1).drop_last() == entries.take(i),
        tally(entries.take(i + 1), only) == tally(entries.take(i), only) + if counted(only, entries[i].0) {
            entries[i].1 as nat
        } else {
            0nat
        },
        tally(entries.take(i + 1), only) <= tally(entries, only),
    decreases entries.len(),
{
    assert(entries.take(i + 1).drop_last() =~= entries.take(i));
    if i + 1 < entries.len() {
        assert(entries.drop_last().take(i + 1) =~= entries.take(i + 1));
        assert(entries.drop_last().take(i) =~= entries.take(i));
        lemma_tally_prefix(entries.drop_last(), i, only);
    } else {
        assert(entries.take(i + 1) =~= entries);
    }
}

proof fn lemma_tally_bump(entries: Seq<(SingleRunResult, u64)>, i: int, only: Option<SingleRunResult>)
    requires
        0 <= i < entries.len(),
        entries[i].1 < u64::MAX,
    ensures
        tally(entries.update(i, (entries[i].0, (entries[i].1 + 1) as u64)), only) == tally(entries, only)
            + if counted(only, entries[i].0) {
            1nat
        } else {
            0nat
        },
    decreases entries.len(),
{
    let bumped = entries.update(i, (entries[i].0, (entries[i].1 + 1) as u64));
    if i + 1 < entries.len() {
        assert(bumped.drop_last() =~= entries.drop_last().update(i, (entries[i].0, (entries[i].1 + 1) as u64)));
        lemma_tally_bump(entries.drop_last(), i, only);
    } else {
        assert(bumped.drop_last() =~= entries.drop_last());
    }
}

/// No outcome has two entries.
pub open spec fn keys_distinct(entries: Seq<(SingleRunResult, u64)>) -> bool {
    forall|i: int, j: int|
        0 <= i < entries.len() && 0 <= j < entries.len() && i != j ==> entries[i].0 != entries[j].0
}

/// Every entry counts at least one probe.
pub open spec fn counts_positive(entries: Seq<(SingleRunResult, u64)>) -> bool {
    forall|i: int| 0 <= i < entries.len() ==> entries[i].1 > 0
}

proof fn lemma_tally_absent(entries: Seq<(SingleRunResult, u64)>, o: SingleRunResult)
    requires
        forall|i: int| 0 <= i < entries.len() ==> entries[i].0 != o,
    ensures
        tally(entries, Some(o)) == 0,
    decreases entries.len(),
{
    if entries.len() > 0 {
        lemma_tally_absent(entries.drop_last(), o);
    }
}

proof fn lemma_tally_single(entries: Seq<(SingleRunResult, u64)>, i: int)
    requires
        keys_distinct(entries),
        0 <= i < entries.len(),
    ensures
        tally(entries, Some(entries[i].0)) == entries[i].1,
    decreases entries.len(),
{
    let k = entries[i].0;
    let rest = entries.drop_last();
    if i == entries.len() - 1 {
        assert forall|j: int| 0 <= j < rest.len() implies rest[j].0 != k by {
            assert(rest[j] == entries[j]);
        }
        lemma_tally_absent(rest, k);
    } else {
        assert(entries.last().0 != k);
        assert(keys_distinct(rest)) by {
            assert forall|a: int, b: int|
                0 <= a < rest.len() && 0 <= b < rest.len() && a != b implies rest[a].0 != rest[b].0 by {
                assert(rest[a] == entries[a] && rest[b] == entries[b]);
            }
        }
        assert(rest[i] == entries[i]);
        lemma_tally_single(rest, i);
    }
}

/// How many probes ended in each outcome.
pub struct RunStats {
    entries: Vec<(SingleRunResult, u64)>,
}

impl RunStats {
    /// The counts sum to a number that a `u64` holds.
    /// Each outcome has at most one entry, and it counts at least one probe.
    pub closed spec fn wf(&self) -> bool {
        &&& tally(self.entries@, None) <= u64::MAX
        &&& keys_distinct(self.entries@)
        &&& counts_positive(self.entries@)
    }

    /// The outcomes recorded so far, each with its count.
    pub closed spec fn view_entries(&self) -> Seq<(SingleRunResult, u64)> {
        self.entries@
    }

    /// How many recorded probes ended in `o`.
    pub open spec fn count_of(&self, o: SingleRunResult) -> nat {
        tally(self.view_entries(), Some(o))
    }

    /// How many probes were recorded.
    pub open spec fn recorded(&self) -> nat {
        tally(self.view_entries(), None)
    }

    /// A table with nothing recorded.
    pub fn new() -> (r: RunStats)
        ensures
            r.wf(),
            r.view_entries().len() == 0,
            r.recorded() == 0,
            forall|o: SingleRunResult| r.count_of(o) == 0,
    {
        RunStats { entries: Vec::new() }
    }

    /// Counts one more probe that ended in `r`.
    pub fn record(&mut self, r: SingleRunResult)
        requires
            old(self).wf(),
            old(self).recorded() < u64::MAX,
        ensures
            final(self).wf(),
            final(self).recorded() == old(self).recorded() + 1,
            final(self).count_of(r) == old(self).count_of(r) + 1,
            forall|o: SingleRunResult| o != r ==> final(self).count_of(o) == old(self).count_of(o),
    {
        let mut i: usize = 0;
        while i < self.entries.len()
            invariant
                0 <= i <= self.entries.len(),
                self.entries@ == old(self).entries@,
                tally(self.entries@, None) < u64::MAX,
                keys_distinct(self.entries@),
                counts_positive(self.entries@),
                forall|j: int| 0 <= j < i ==> self.entries@[j].0 != r,
            decreases self.entries.len() - i,
        {
            if self.entries[i].0 == r {
                let (key, n) = self.entries[i];
                proof {
                    lemma_tally_within_total(self.entries@, key);
                    lemma_tally_prefix(self.entries@, i as int, Some(key));
                    lemma_tally_prefix(self.entries@, i as int, None);
                    lemma_tally_within_total(self.entries@.take(i as int), key);
                    assert forall|o: SingleRunResult| o != r implies !counted(Some(o), key) by {}
                    lemma_tally_bump(self.entries@, i as int, None);
                    lemma_tally_bump(self.entries@, i as int, Some(r));
                    assert forall|o: SingleRunResult| o != r implies tally(
                        self.entries@.update(i as int, (key, (n + 1) as u64)),
                        Some(o),
                    ) == tally(self.entries@, Some(o)) by {
                        lemma_tally_bump(self.entries@, i as int, Some(o));
                    }
                }
                self.entries.set(i, (key, n + 1));
                proof {
                    assert(keys_distinct(self.entries@)) by {
                        assert forall|a: int, b: int|
                            0 <= a < self.entries@.len() && 0 <= b < self.entries@.len() && a != b
                                implies self.entries@[a].0 != self.entries@[b].0 by {
                            assert(self.entries@[a].0 == old(self).entries@[a].0);
                            assert(self.entries@[b].0 == old(self).entries@[b].0);
                        }
                    }
                    assert(counts_positive(self.entries@)) by {
                        assert forall|a: int| 0 <= a < self.entries@.len() implies self.entries@[a].1 > 0 by {
                            if a != i {
                                assert(self.entries@[a] == old(self).entries@[a]);
                            }
                        }
                    }
                }
                return;
            }
            i = i + 1;
        }
        self.entries.push((r, 1));
        proof {
            assert(self.entries@.drop_last() =~= old(self).entries@);
            assert(keys_distinct(self.entries@)) by {
                assert forall|a: int, b: int|
                    0 <= a < self.entries@.len() && 0 <= b < self.entries@.len() && a != b
                        implies self.entries@[a].0 != self.entries@[b].0 by {
                    if a < old(self).entries@.len() {
                        assert(self.entries@[a] == old(self).entries@[a]);
                    }
                    if b < old(self).entries@.len() {
                        assert(self.entries@[b] == old(self).entries@[b]);
                    }
                }
            }
            assert(counts_positive(self.entries@)) by {
                assert forall|a: int| 0 <= a < self.entries@.len() implies self.entries@[a].1 > 0 by {
                    if a < old(self).entries@.len() {
                        assert(self.entries@[a] == old(self).entries@[a]);
                    }
                }
            }
        }
    }

    /// How many recorded probes ended in `o`.
    pub fn count(&self, o: &SingleRunResult) -> (n: u64)
        requires
            self.wf(),
        ensures
            n == self.count_of(*o),
    {
        let mut n: u64 = 0;
        let mut i: usize = 0;
        while i < self.entries.len()
            invariant
                0 <= i <= self.entries.len(),
                n == tally(self.entries@.take(i as int), Some(*o)),
                tally(self.entries@, None) <= u64::MAX,
            decreases self.entries.len() - i,
        {
            proof {
                lemma_tally_prefix(self.entries@, i as int, Some(*o));
                lemma_tally_within_total(self.entries@.take(i as int + 1), *o);
                lemma_tally_prefix(self.entries@, i as int, None);
            }
            if self.entries[i].0 == *o {
                n = n + self.entries[i].1;
            }
            i = i + 1;
        }
        assert(self.entries@.take(i as int) =~= self.entries@);
        n
    }

    /// How many probes were recorded.
    pub fn total(&self) -> (n: u64)
        requires
            self.wf(),
        ensures
            n == self.recorded(),
    {
        let mut n: u64 = 0;
        let mut i: usize = 0;
        while i < self.entries.len()
            invariant
                0 <= i <= self.entries.len(),
                n == tally(self.entries@.take(i as int), None),
                tally(self.entries@, None) <= u64::MAX,
            decreases self.entries.len() - i,
        {
            proof {
                lemma_tally_prefix(self.entries@, i as int, None);
            }
            n = n + self.entries[i].1;
            i = i + 1;
        }
        assert(self.entries@.take(i as int) =~= self.entries@);
        n
    }

    /// Each outcome recorded so far with its count, in the order of first
    /// appearance: every outcome that some probe ended in appears once, with
    /// the number of probes that ended in it, and nothing else appears.
    pub fn entries(&self) -> (r: &[(SingleRunResult, u64)])
        requires
            self.wf(),
        ensures
            r@ == self.view_entries(),
            keys_distinct(r@),
            forall|i: int| 0 <= i < r@.len() ==> r@[i].1 > 0 && r@[i].1 == self.count_of(#[trigger] r@[i].0),
            forall|o: SingleRunResult| self.count_of(o) > 0 ==> exists|i: int| 0 <= i < r@.len() && r@[i].0 == o,
            tally(r@, None) == self.recorded(),
    {
        let r = self.entries.as_slice();
        proof {
            assert forall|i: int| 0 <= i < r@.len() implies r@[i].1 > 0 && r@[i].1 == self.count_of(
                #[trigger] r@[i].0,
            ) by {
                lemma_tally_single(self.entries@, i);
            }
            assert forall|o: SingleRunResult| self.count_of(o) > 0 implies exists|i: int|
                0 <= i < r@.len() && r@[i].0 == o by {
                if forall|i: int| 0 <= i < r@.len() ==> r@[i].0 != o {
                    lemma_tally_absent(self.entries@, o);
                }
            }
        }
        r
    }
}

} // verus!
