use vstd::prelude::*;

verus! {

/// A batch in mathematical terms: the paths, how many have succeeded, and
/// whether one has failed.
pub struct BatchView {
    pub paths: Seq<Seq<char>>,
    pub next: nat,
    pub failed: bool,
}

/// Whether the batch has a path to hand out.
pub open spec fn has_current(b: BatchView) -> bool {
    !b.failed && b.next < b.paths.len()
}

/// The batch after the current path's run has ended.
pub open spec fn record_view(b: BatchView, succeeded: bool) -> BatchView {
    if succeeded {
        BatchView { next: b.next + 1, ..b }
    } else {
        BatchView { failed: true, ..b }
    }
}

/// Runs the batch with `outcomes` as the results of the paths handed out,
/// one outcome per path, until no path is left to hand out.
pub open spec fn run_batch(b: BatchView, outcomes: Seq<bool>) -> BatchView
    decreases outcomes.len(),
{
    if outcomes.len() == 0 || !has_current(b) {
        b
    } else {
        run_batch(record_view(b, outcomes[0]), outcomes.drop_first())
    }
}

/// Paths processed in order, stopping at the first that fails.
pub struct Batch {
    paths: Vec<String>,
    next: usize,
    failed: bool,
}

impl View for Batch {
    type V = BatchView;

    closed spec fn view(&self) -> BatchView {
        BatchView {
            paths: self.paths@.map_values(|p: String| p@),
            next: self.next as nat,
            failed: self.failed,
        }
    }
}

impl Batch {
    pub closed spec fn wf(&self) -> bool {
        self.next <= self.paths@.len()
    }

    pub fn new(paths: Vec<String>) -> (b: Batch)
        ensures
            b.wf(),
            b@ == (BatchView { paths: paths@.map_values(|p: String| p@), next: 0, failed: false }),
    {
        Batch { paths, next: 0, failed: false }
    }

    /// The path to process now, if the batch has one.
    pub fn current(&self) -> (r: Option<&String>)
        requires
            self.wf(),
        ensures
            r is Some <==> has_current(self@),
            r matches Some(p) ==> p@ == self@.paths[self@.next as int],
    {
        if !self.failed && self.next < self.paths.len() {
            Some(&self.paths[self.next])
        } else {
            None
        }
    }

    /// Whether a path has failed, which stops the batch.
    pub fn failed(&self) -> (r: bool)
        ensures
            r == self@.failed,
    {
        self.failed
    }

    /// How many paths have succeeded.
    pub fn succeeded(&self) -> (r: usize)
        ensures
            r == self@.next,
    {
        self.next
    }

    /// Records how the current path's run ended.
    pub fn record(&mut self, succeeded: bool)
        requires
            old(self).wf(),
            has_current(old(self)@),
        ensures
            final(self).wf(),
            final(self)@ == record_view(old(self)@, succeeded),
    {
        let n: usize = self.paths.len();
        assert(self@.paths.len() == n);
        if succeeded {
            self.next = self.next + 1;
        } else {
            self.failed = true;
        }
    }
}

/// Fail-fast: when the path at `b.next + k` is the first to fail, the batch
/// stops right there. Exactly the `k` paths before it have succeeded, and no
/// later path is handed out.
pub proof fn lemma_fail_fast(b: BatchView, outcomes: Seq<bool>, k: nat)
    requires
        !b.failed,
        b.next + k < b.paths.len(),
        k < outcomes.len(),
        forall|j: int| 0 <= j < k ==> #[trigger] outcomes[j],
        !outcomes[k as int],
    ensures
        run_batch(b, outcomes) == (BatchView { failed: true, next: b.next + k, ..b }),
        !has_current(run_batch(b, outcomes)),
    decreases k,
{
    if k == 0 {
        assert(run_batch(record_view(b, false), outcomes.drop_first()) == record_view(b, false));
    } else {
        assert forall|j: int| 0 <= j < k - 1 implies #[trigger] outcomes.drop_first()[j] by {
            assert(outcomes.drop_first()[j] == outcomes[j + 1]);
        }
        assert(outcomes[0]);
        lemma_fail_fast(record_view(b, true), outcomes.drop_first(), (k - 1) as nat);
    }
}

} // verus!
