//! Aggregating the outcomes of scanning many capture files.
use crate::capture::CaptureError;
use vstd::prelude::*;

verus! {

/// Why one file of a batch was not counted.
#[derive(Debug, Clone, Copy, PartialEq, Eq, Structural)]
pub enum ScanError {
    /// The file could not be opened or read.
    Unreadable,
    /// The file's records are malformed.
    Capture(CaptureError),
}

/// Totals of a batch: frames of the files read in full, how many files that
/// was, and the positions of the files that failed, in batch order.
#[derive(Debug, Clone, PartialEq, Eq)]
pub struct ScanSummary {
    pub total_frames: usize,
    pub files_ok: usize,
    pub failed_files: Vec<usize>,
}

/// The sum of the frame counts of the files read in full.
pub open spec fn total_ok(outcomes: Seq<Result<usize, ScanError>>) -> nat
    decreases outcomes.len(),
{
    if outcomes.len() == 0 {
        0
    } else {
        total_ok(outcomes.drop_last()) + match outcomes.last() {
            Ok(n) => n as nat,
            Err(_) => 0,
        }
    }
}

/// How many files were read in full.
pub open spec fn count_ok(outcomes: Seq<Result<usize, ScanError>>) -> nat
    decreases outcomes.len(),
{
    if outcomes.len() == 0 {
        0
    } else {
        count_ok(outcomes.drop_last()) + if outcomes.last() is Ok {
            1nat
        } else {
            0nat
        }
    }
}

/// The positions of the failed files, in increasing order.
pub open spec fn failed_positions(outcomes: Seq<Result<usize, ScanError>>) -> Seq<usize>
    decreases outcomes.len(),
{
    if outcomes.len() == 0 {
        Seq::empty()
    } else if outcomes.last() is Err {
        failed_positions(outcomes.drop_last()).push((outcomes.len() - 1) as usize)
    } else {
        failed_positions(outcomes.drop_last())
    }
}

proof fn lemma_count_ok_bound(outcomes: Seq<Result<usize, ScanError>>)
    ensures
        count_ok(outcomes) <= outcomes.len(),
    decreases outcomes.len(),
{
    if outcomes.len() > 0 {
        lemma_count_ok_bound(outcomes.drop_last());
    }
}

/// Adds up a batch whose files were each scanned on their own: `None` when the
/// total does not fit in a `usize`. A failed file adds no frames and is listed
/// by its position.
pub fn summarize(outcomes: &Vec<Result<usize, ScanError>>) -> (r: Option<ScanSummary>)
    ensures
        r is None <==> total_ok(outcomes@) > usize::MAX,
        r matches Some(s) ==> s.total_frames == total_ok(outcomes@) && s.files_ok == count_ok(
            outcomes@,
        ) && s.failed_files@ == failed_positions(outcomes@),
{
    let mut total: usize = 0;
    let mut files_ok: usize = 0;
    let mut failed: Vec<usize> = Vec::new();
    let mut i: usize = 0;
    while i < outcomes.len()
        invariant
            i <= outcomes@.len(),
            total == total_ok(outcomes@.subrange(0, i as int)),
            files_ok == count_ok(outcomes@.subrange(0, i as int)),
            failed@ == failed_positions(outcomes@.subrange(0, i as int)),
        decreases outcomes@.len() - i,
    {
        let ghost pre = outcomes@.subrange(0, i as int);
        let ghost cur = outcomes@.subrange(0, i as int + 1);
        assert(cur.drop_last() =~= pre);
        proof {
            lemma_count_ok_bound(cur);
        }
        match &outcomes[i] {
            Ok(n) => {
                if total > usize::MAX - *n {
                    proof {
                        lemma_total_prefix_grows(outcomes@, i as int + 1);
                    }
                    return None;
                }
                total = total + *n;
                files_ok = files_ok + 1;
            },
            Err(_) => {
                failed.push(i);
            },
        }
        i = i + 1;
    }
    assert(outcomes@.subrange(0, i as int) =~= outcomes@);
    Some(ScanSummary { total_frames: total, files_ok, failed_files: failed })
}

/// The total of a prefix never exceeds the total of the whole batch.
proof fn lemma_total_prefix_grows(outcomes: Seq<Result<usize, ScanError>>, k: int)
    requires
        0 <= k <= outcomes.len(),
    ensures
        total_ok(outcomes.subrange(0, k)) <= total_ok(outcomes),
    decreases outcomes.len() - k,
{
    if k < outcomes.len() {
        lemma_total_prefix_grows(outcomes, k + 1);
        assert(outcomes.subrange(0, k + 1).drop_last() =~= outcomes.subrange(0, k));
    } else {
        assert(outcomes.subrange(0, k) =~= outcomes);
    }
}

/// Splitting a batch in two and adding the two totals gives the total of the
/// whole batch: the total does not depend on how the files are shared out.
pub proof fn lemma_total_split(a: Seq<Result<usize, ScanError>>, b: Seq<Result<usize, ScanError>>)
    ensures
        total_ok(a + b) == total_ok(a) + total_ok(b),
        count_ok(a + b) == count_ok(a) + count_ok(b),
    decreases b.len(),
{
    if b.len() == 0 {
        assert(a + b =~= a);
    } else {
        lemma_total_split(a, b.drop_last());
        assert((a + b).drop_last() =~= a + b.drop_last());
    }
}

/// The total of a batch is the sum of the frame counts of its files, which
/// does not change when the files are taken in another order.
pub proof fn lemma_total_order_free(a: Seq<Result<usize, ScanError>>, b: Seq<Result<usize, ScanError>>)
    requires
        a.to_multiset() == b.to_multiset(),
    ensures
        total_ok(a) == total_ok(b),
    decreases a.len(),
{
    broadcast use vstd::multiset::group_multiset_axioms;

    a.to_multiset_ensures();
    b.to_multiset_ensures();
    if a.len() == 0 {
        assert(b.len() == 0);
        assert(a =~= b);
    } else {
        let x = a.last();
        let a0 = a.drop_last();
        assert(a0.push(x) =~= a);
        a0.to_multiset_ensures();
        assert(a[a.len() - 1] == x);
        assert(a.contains(x));
        assert(b.to_multiset().count(x) > 0);
        assert(b.contains(x));
        let j = choose|j: int| 0 <= j < b.len() && b[j] == x;
        let b0 = b.remove(j);
        assert(b0.to_multiset() =~= a0.to_multiset());
        lemma_total_order_free(a0, b0);
        let n = b.len() as int;
        let lo = b.subrange(0, j);
        let hi = b.subrange(j + 1, n);
        assert(b =~= lo + (seq![x] + hi));
        assert(b0 =~= lo + hi);
        lemma_total_split(lo, seq![x] + hi);
        lemma_total_split(seq![x], hi);
        lemma_total_split(lo, hi);
        let one: Seq<Result<usize, ScanError>> = seq![x];
        assert(one.drop_last() =~= Seq::<Result<usize, ScanError>>::empty());
        assert(one.last() == x);
        assert(total_ok(Seq::<Result<usize, ScanError>>::empty()) == 0);
        assert(total_ok(one) == total_ok(a) - total_ok(a0));
    }
}

} // verus!
