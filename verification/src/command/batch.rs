//! A batch of items that a paste or a delete works through, and what
//! became of each.

use vstd::prelude::*;
use crate::fs::metadata::FsError;
use crate::path::{parent, parent_path, texts_of};

verus! {

/// How one item of a batch ended.
#[derive(Clone, Copy, Debug, PartialEq, Eq, Structural)]
pub enum ItemOutcome {
    Done,
    Failed(FsError),
}

/// An item that failed, and why.
pub struct Failure {
    pub path: String,
    pub error: FsError,
}

/// A [`Failure`] as mathematical values.
pub struct FailedView {
    pub path: Seq<char>,
    pub error: FsError,
}

impl View for Failure {
    type V = FailedView;

    open spec fn view(&self) -> FailedView {
        FailedView { path: self.path@, error: self.error }
    }
}

/// The views of a list of failures.
pub open spec fn failures_view(failures: Seq<Failure>) -> Seq<FailedView> {
    failures.map_values(|f: Failure| f@)
}

/// The items that a paste or a delete works through, one after the other
/// in the order in which they were collected, with the outcome of each
/// item that was attempted. A failure does not end the batch; an abort
/// does, at the item during which it came.
pub struct Batch {
    items: Vec<String>,
    outcomes: Vec<ItemOutcome>,
    aborted: bool,
}

/// A batch as mathematical values.
pub struct BatchView {
    pub items: Seq<Seq<char>>,
    /// The outcomes of the items attempted so far, in the order of `items`.
    pub outcomes: Seq<ItemOutcome>,
    pub aborted: bool,
}

/// The failure of the `i`-th item, if it failed.
pub open spec fn failure_at(items: Seq<Seq<char>>, outcomes: Seq<ItemOutcome>) -> spec_fn(int) -> Option<
    FailedView,
> {
    |i: int|
        if 0 <= i < outcomes.len() && i < items.len() {
            match outcomes[i] {
                ItemOutcome::Failed(error) => Some(FailedView { path: items[i], error }),
                ItemOutcome::Done => None,
            }
        } else {
            None
        }
}

/// The indices `0 .. n`.
pub open spec fn indices(n: nat) -> Seq<int> {
    Seq::new(n, |i: int| i)
}

/// The parent of a path, as [`parent_path`] names it.
pub open spec fn parent_fn() -> spec_fn(Seq<char>) -> Option<Seq<char>> {
    |p: Seq<char>| parent_path(p)
}

impl BatchView {
    /// The invariant of a batch: no more outcomes than items.
    pub open spec fn wf(self) -> bool {
        self.outcomes.len() <= self.items.len()
    }

    /// The item to attempt next: the first without an outcome, unless the
    /// batch was aborted.
    pub open spec fn pending(self) -> Option<Seq<char>> {
        if !self.aborted && self.outcomes.len() < self.items.len() {
            Some(self.items[self.outcomes.len() as int])
        } else {
            None
        }
    }

    /// The batch after the pending item ended with `outcome`. Without a
    /// pending item nothing is recorded.
    pub open spec fn recorded(self, outcome: ItemOutcome) -> BatchView {
        if self.pending() is Some {
            BatchView { outcomes: self.outcomes.push(outcome), ..self }
        } else {
            self
        }
    }

    /// The items that failed, in order, each with its error.
    pub open spec fn failures(self) -> Seq<FailedView> {
        indices(self.outcomes.len()).filter_map(failure_at(self.items, self.outcomes))
    }

    /// How many items were done.
    pub open spec fn succeeded(self) -> nat {
        self.outcomes.filter(|o: ItemOutcome| o == ItemOutcome::Done).len()
    }

    /// The directories whose listings the batch may have changed: the
    /// parent of each item that has one, in the order of the items.
    pub open spec fn affected(self) -> Seq<Seq<char>> {
        self.items.filter_map(parent_fn())
    }
}

impl View for Batch {
    type V = BatchView;

    closed spec fn view(&self) -> BatchView {
        BatchView { items: texts_of(self.items@), outcomes: self.outcomes@, aborted: self.aborted }
    }
}

impl Batch {
    #[verifier::type_invariant]
    spec fn inv(&self) -> bool {
        self.outcomes@.len() <= self.items@.len()
    }

    /// A batch of `items`, none attempted yet.
    pub fn new(items: Vec<String>) -> (r: Self)
        ensures
            r@ == (BatchView { items: texts_of(items@), outcomes: Seq::empty(), aborted: false }),
            r@.wf(),
    {
        Batch { items, outcomes: Vec::new(), aborted: false }
    }

    /// The item to attempt next, if the batch has not ended.
    pub fn next(&self) -> (r: Option<&str>)
        ensures
            self@.wf(),
            match r {
                Some(path) => self@.pending() == Some(path@),
                None => self@.pending() is None,
            },
    {
        proof {
            use_type_invariant(self);
        }
        if !self.aborted && self.outcomes.len() < self.items.len() {
            Some(self.items[self.outcomes.len()].as_str())
        } else {
            None
        }
    }

    /// Whether no item is left to attempt.
    pub fn is_finished(&self) -> (r: bool)
        ensures
            r == (self@.pending() is None),
    {
        self.next().is_none()
    }

    /// Whether the batch was aborted.
    pub fn is_aborted(&self) -> (r: bool)
        ensures
            r == self@.aborted,
    {
        self.aborted
    }

    /// The number of items.
    pub fn total(&self) -> (r: usize)
        ensures
            r == self@.items.len(),
    {
        self.items.len()
    }

    /// The number of items that were attempted.
    pub fn attempted(&self) -> (r: usize)
        ensures
            r == self@.outcomes.len(),
            self@.wf(),
    {
        proof {
            use_type_invariant(self);
        }
        self.outcomes.len()
    }

    /// Records how the pending item ended, and says whether there was one.
    pub fn record(&mut self, outcome: ItemOutcome) -> (r: bool)
        ensures
            final(self)@ == old(self)@.recorded(outcome),
            r == (old(self)@.pending() is Some),
            final(self)@.wf(),
    {
        proof {
            use_type_invariant(&*self);
        }
        if self.aborted || self.outcomes.len() >= self.items.len() {
            return false;
        }
        let mut this = Batch { items: Vec::new(), outcomes: Vec::new(), aborted: false };
        core::mem::swap(self, &mut this);
        let Batch { items, mut outcomes, aborted } = this;
        outcomes.push(outcome);
        *self = Batch { items, outcomes, aborted };
        true
    }

    /// Ends the batch: no further item is handed out.
    pub fn abort(&mut self)
        ensures
            final(self)@ == (BatchView { aborted: true, ..old(self)@ }),
            final(self)@.wf(),
    {
        proof {
            use_type_invariant(&*self);
        }
        self.aborted = true;
    }

    /// The items that failed, in order, each with its error.
    pub fn failures(&self) -> (r: Vec<Failure>)
        ensures
            failures_view(r@) == self@.failures(),
    {
        proof {
            use_type_invariant(self);
        }
        let mut failed: Vec<Failure> = Vec::new();
        let mut i: usize = 0;
        let ghost all = indices(self.outcomes@.len());
        let ghost f = failure_at(texts_of(self.items@), self.outcomes@);
        while i < self.outcomes.len()
            invariant
                i <= self.outcomes@.len(),
                self.outcomes@.len() <= self.items@.len(),
                all == indices(self.outcomes@.len()),
                f == failure_at(texts_of(self.items@), self.outcomes@),
                failures_view(failed@) == all.take(i as int).filter_map(f),
            decreases self.outcomes@.len() - i,
        {
            proof {
                all.lemma_filter_map_take_succ(f, i as int);
            }
            match self.outcomes[i] {
                ItemOutcome::Failed(error) => {
                    let failure = Failure { path: self.items[i].clone(), error };
                    proof {
                        assert(failures_view(failed@.push(failure)) =~= failures_view(failed@).push(
                            failure@,
                        ));
                    }
                    failed.push(failure);
                },
                ItemOutcome::Done => {},
            }
            i = i + 1;
        }
        proof {
            assert(all.take(i as int) =~= all);
        }
        failed
    }

    /// How many items were done.
    pub fn succeeded(&self) -> (r: usize)
        ensures
            r == self@.succeeded(),
    {
        let mut count: usize = 0;
        let mut i: usize = 0;
        let ghost done = |o: ItemOutcome| o == ItemOutcome::Done;
        while i < self.outcomes.len()
            invariant
                i <= self.outcomes@.len(),
                done == |o: ItemOutcome| o == ItemOutcome::Done,
                count == self.outcomes@.take(i as int).filter(done).len(),
                count <= i,
            decreases self.outcomes@.len() - i,
        {
            proof {
                reveal(Seq::filter);
                let a = self.outcomes@.take(i + 1);
                assert(a.drop_last() =~= self.outcomes@.take(i as int));
            }
            match self.outcomes[i] {
                ItemOutcome::Done => {
                    count = count + 1;
                },
                ItemOutcome::Failed(_) => {},
            }
            i = i + 1;
        }
        proof {
            assert(self.outcomes@.take(i as int) =~= self.outcomes@);
        }
        count
    }

    /// The directories whose listings the batch may have changed.
    pub fn affected_directories(&self) -> (r: Vec<String>)
        ensures
            texts_of(r@) == self@.affected(),
    {
        let mut dirs: Vec<String> = Vec::new();
        let mut i: usize = 0;
        let ghost items = texts_of(self.items@);
        while i < self.items.len()
            invariant
                i <= self.items@.len(),
                items == texts_of(self.items@),
                texts_of(dirs@) == items.take(i as int).filter_map(parent_fn()),
            decreases self.items@.len() - i,
        {
            proof {
                items.lemma_filter_map_take_succ(parent_fn(), i as int);
            }
            match parent(self.items[i].as_str()) {
                Some(dir) => {
                    dirs.push(dir);
                },
                None => {},
            }
            i = i + 1;
        }
        proof {
            assert(items.take(i as int) =~= items);
        }
        dirs
    }
}

} // verus!
