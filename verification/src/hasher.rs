//! The directory-scan scheduler: a sliding window of at most
//! `threads_max` in-flight digest computations, a dispatched and a
//! completed count, and the growing collection of finished report rows.
//!
//! The scheduler itself performs no I/O and spawns nothing: a driver
//! enumerates the files, runs one digest computation per file, and hands
//! every completion row back through these methods. The contracts pin the
//! bookkeeping: the in-flight window never exceeds the budget, and the
//! collected rows are exactly the completions handed in, in arrival order.

use vstd::prelude::*;
use vstd::string::StringExecFns;

use crate::Lang;

verus! {

/// The views of a sequence of report rows.
pub open spec fn views_of(v: Seq<String>) -> Seq<Seq<char>> {
    v.map_values(|s: String| s@)
}

/// The report row for one file: the path, a separator, then either the
/// digest or the marker for a file that could not be read, and a newline.
pub open spec fn row_spec(path: Seq<char>, outcome: Option<Seq<char>>) -> Seq<char> {
    path + ": "@ + (match outcome {
        Some(digest) => digest,
        None => "Unhashable item"@,
    }) + "\n"@
}

/// The rows of a whole run: one `row_spec` row per completed
/// `(path, outcome)` pair, in completion order.
pub open spec fn rows_of_completions(c: Seq<(Seq<char>, Option<Seq<char>>)>) -> Seq<Seq<char>> {
    c.map_values(|pc: (Seq<char>, Option<Seq<char>>)| row_spec(pc.0, pc.1))
}

/// Report idempotence: two runs that complete the same set of
/// `(path, outcome)` pairs — in whatever order the computations happen to
/// finish — produce the same set of report rows. Row order may differ;
/// the row multiset may not.
pub proof fn lemma_report_rows_deterministic(
    c1: Seq<(Seq<char>, Option<Seq<char>>)>,
    c2: Seq<(Seq<char>, Option<Seq<char>>)>,
)
    requires
        c1.to_multiset() == c2.to_multiset(),
    ensures
        rows_of_completions(c1).to_multiset() == rows_of_completions(c2).to_multiset(),
    decreases c1.len(),
{
    broadcast use vstd::seq_lib::group_to_multiset_ensures;

    if c1.len() == 0 {
        assert(c1.to_multiset().len() == c1.len());
        assert(c2.to_multiset().len() == c2.len());
        assert(c2.len() == 0);
        assert(rows_of_completions(c1) =~= rows_of_completions(c2));
    } else {
        let x = c1.last();
        let c1r = c1.drop_last();
        assert(c1 =~= c1r.push(x));
        assert(c1.to_multiset().count(x) > 0);
        assert(c2.contains(x));
        let j = choose|j: int| 0 <= j < c2.len() && c2[j] == x;
        let c2r = c2.remove(j);
        assert(c1r =~= c1.remove(c1.len() - 1));
        assert(c1r.to_multiset() == c1.to_multiset().remove(x));
        assert(c2r.to_multiset() == c2.to_multiset().remove(x));
        lemma_report_rows_deterministic(c1r, c2r);
        let r = row_spec(x.0, x.1);
        assert(rows_of_completions(c1) =~= rows_of_completions(c1r).push(r));
        assert(rows_of_completions(c2r) =~= rows_of_completions(c2).remove(j));
        assert(rows_of_completions(c2)[j] == r);
        assert(rows_of_completions(c2).remove(j).to_multiset() == rows_of_completions(
            c2,
        ).to_multiset().remove(r));
        assert(rows_of_completions(c1).to_multiset() == rows_of_completions(
            c1r,
        ).to_multiset().insert(r));
        assert(rows_of_completions(c2).to_multiset().count(r) > 0);
        assert(rows_of_completions(c2).to_multiset().remove(r).insert(r) =~= rows_of_completions(
            c2,
        ).to_multiset());
    }
}

pub struct Hasher {
    threads_max: u8,
    threads_num: u64,
    completed: u64,
    hashes: Vec<String>,
    lang: Lang,
}

impl Hasher {
    /// The worker budget: how many computations may be in flight at once.
    pub closed spec fn budget(self) -> int {
        self.threads_max as int
    }

    /// How many computations have been dispatched so far.
    pub closed spec fn dispatched(self) -> int {
        self.threads_num as int
    }

    /// How many completions have been recorded so far.
    pub closed spec fn completed_count(self) -> int {
        self.completed as int
    }

    /// The number of computations currently in flight.
    pub open spec fn in_flight(self) -> int {
        self.dispatched() - self.completed_count()
    }

    /// The report rows recorded so far, in arrival order.
    pub closed spec fn rows(self) -> Seq<Seq<char>> {
        views_of(self.hashes@)
    }

    /// The scheduler invariant: a positive budget, counts in order, one
    /// recorded row per completion, and — the concurrency bound — never
    /// more than `budget` computations in flight.
    pub open spec fn wf(self) -> bool {
        1 <= self.budget() && 0 <= self.completed_count() <= self.dispatched()
            && self.in_flight() <= self.budget() && self.rows().len() == self.completed_count()
    }

    /// A scheduler for one run: nothing dispatched, nothing collected.
    pub fn new(threads_max: u8, lang: Lang) -> (r: Hasher)
        requires
            1 <= threads_max,
        ensures
            r.wf(),
            r.budget() == threads_max,
            r.dispatched() == 0,
            r.completed_count() == 0,
            r.rows() == Seq::<Seq<char>>::empty(),
    {
        let r = Hasher {
            threads_max,
            threads_num: 0,
            completed: 0,
            hashes: Vec::new(),
            lang,
        };
        proof {
            assert(r.rows() =~= Seq::<Seq<char>>::empty());
        }
        r
    }

    /// Whether the window is full, so that the next dispatch must first
    /// drain one completion.
    pub fn must_wait(&self) -> (r: bool)
        requires
            self.wf(),
        ensures
            r == (self.in_flight() >= self.budget()),
    {
        self.threads_num - self.completed >= self.threads_max as u64
    }

    /// Account for dispatching the next computation. When the window is
    /// full the caller must first drain exactly one completion and hand
    /// its row in as `pending`; otherwise it hands in nothing. Either way
    /// the in-flight count stays within the budget.
    pub fn wait_if_max_threads(&mut self, pending: Option<String>)
        requires
            old(self).wf(),
            old(self).dispatched() < u64::MAX,
            pending.is_some() <==> old(self).in_flight() >= old(self).budget(),
        ensures
            final(self).wf(),
            final(self).budget() == old(self).budget(),
            final(self).dispatched() == old(self).dispatched() + 1,
            final(self).in_flight() <= final(self).budget(),
            match pending {
                Some(row) => final(self).completed_count() == old(self).completed_count() + 1
                    && final(self).rows() == old(self).rows().push(row@),
                None => final(self).completed_count() == old(self).completed_count()
                    && final(self).rows() == old(self).rows(),
            },
    {
        match pending {
            Some(row) => {
                proof {
                    assert(views_of(self.hashes@.push(row)) =~= self.rows().push(row@));
                }
                self.hashes.push(row);
                self.completed = self.completed + 1;
            },
            None => {},
        }
        self.threads_num = self.threads_num + 1;
    }

    /// Drain the window at the end of a run: the caller collects one row
    /// for every computation still in flight and hands them in, in arrival
    /// order. Afterwards every dispatched computation has exactly one
    /// recorded row.
    pub fn wait_for_remaining_threads(&mut self, pending: Vec<String>)
        requires
            old(self).wf(),
            pending@.len() == old(self).in_flight(),
        ensures
            final(self).wf(),
            final(self).budget() == old(self).budget(),
            final(self).dispatched() == old(self).dispatched(),
            final(self).completed_count() == final(self).dispatched(),
            final(self).rows() == old(self).rows() + views_of(pending@),
            final(self).rows().len() == final(self).dispatched(),
    {
        let n = pending.len();
        let mut i: usize = 0;
        while i < n
            invariant
                n == pending@.len(),
                i <= n,
                self.threads_max == old(self).threads_max,
                self.threads_num == old(self).threads_num,
                self.completed == old(self).completed + i,
                self.hashes@ == old(self).hashes@ + pending@.take(i as int),
                old(self).wf(),
                pending@.len() == old(self).in_flight(),
            decreases n - i,
        {
            let row = pending[i].clone();
            proof {
                assert(pending@.take(i as int).push(pending@[i as int]) =~= pending@.take(
                    i as int + 1,
                ));
            }
            self.hashes.push(row);
            self.completed = self.completed + 1;
            i = i + 1;
        }
        proof {
            assert(pending@.take(n as int) =~= pending@);
            assert(views_of(old(self).hashes@ + pending@) =~= old(self).rows() + views_of(
                pending@,
            ));
        }
    }

    /// Format one completion as its report row: a successful digest is
    /// written after the path, a failed read becomes the "Unhashable item"
    /// marker — never a run-level failure.
    pub fn send_hashing_result(hashing_result: Option<String>, path: String) -> (r: String)
        ensures
            r@ == row_spec(
                path@,
                match hashing_result {
                    Some(digest) => Some(digest@),
                    None => None,
                },
            ),
    {
        let ghost p = path@;
        let mut r = path;
        r.append(": ");
        match &hashing_result {
            Some(digest) => r.append(digest.as_str()),
            None => r.append("Unhashable item"),
        }
        r.append("\n");
        proof {
            assert(r@ =~= row_spec(
                p,
                match hashing_result {
                    Some(digest) => Some(digest@),
                    None => None,
                },
            ));
        }
        r
    }

    /// The collected report rows, one per completed computation.
    pub fn results(&self) -> (r: &Vec<String>)
        ensures
            views_of(r@) == self.rows(),
    {
        &self.hashes
    }

    /// The current in-flight count, for observation by a driver or a test.
    pub fn in_flight_count(&self) -> (r: u64)
        requires
            self.wf(),
        ensures
            r == self.in_flight(),
    {
        self.threads_num - self.completed
    }
}

} // verus!

