//! The run over the missing paths: each is seeded in turn from the template,
//! and a failure on one is recorded without ending the run.

use vstd::prelude::*;

use crate::path::ProjectPath;
use crate::sets::views;

verus! {

/// The targets whose seeding failed, in the order they were attempted.
pub open spec fn failed_targets(targets: Seq<Seq<Seq<char>>>, outcomes: Seq<bool>) -> Seq<
    Seq<Seq<char>>,
>
    decreases outcomes.len(),
{
    if outcomes.len() == 0 {
        Seq::empty()
    } else {
        let init = failed_targets(targets, outcomes.drop_last());
        if outcomes.last() {
            init
        } else {
            init.push(targets[outcomes.len() - 1])
        }
    }
}

/// The targets that were seeded, in the order they were attempted.
pub open spec fn seeded_targets(targets: Seq<Seq<Seq<char>>>, outcomes: Seq<bool>) -> Seq<
    Seq<Seq<char>>,
>
    decreases outcomes.len(),
{
    if outcomes.len() == 0 {
        Seq::empty()
    } else {
        let init = seeded_targets(targets, outcomes.drop_last());
        if outcomes.last() {
            init.push(targets[outcomes.len() - 1])
        } else {
            init
        }
    }
}

/// The target to seed next: the first one without an outcome.
pub open spec fn pending(targets: Seq<Seq<Seq<char>>>, outcomes: Seq<bool>) -> Option<
    Seq<Seq<char>>,
> {
    if outcomes.len() < targets.len() {
        Some(targets[outcomes.len() as int])
    } else {
        None
    }
}

/// The state of a seeding run: the missing paths, and the outcome of each
/// one attempted so far, in order.
#[derive(Debug)]
pub struct SeedRun {
    targets: Vec<ProjectPath>,
    outcomes: Vec<bool>,
}

impl SeedRun {
    /// The paths that the run seeds, in order.
    pub closed spec fn targets(&self) -> Seq<Seq<Seq<char>>> {
        views(self.targets@)
    }

    /// Whether each attempted path was seeded, in order.
    pub closed spec fn outcomes(&self) -> Seq<bool> {
        self.outcomes@
    }

    /// No more outcomes than targets.
    pub open spec fn wf(&self) -> bool {
        self.outcomes().len() <= self.targets().len()
    }

    /// A run over `missing` with nothing attempted yet.
    pub fn new(missing: Vec<ProjectPath>) -> (r: SeedRun)
        ensures
            r.wf(),
            r.targets() == views(missing@),
            r.outcomes() == Seq::<bool>::empty(),
    {
        let r = SeedRun { targets: missing, outcomes: Vec::new() };
        assert(r.outcomes() =~= Seq::<bool>::empty());
        r
    }

    /// The path to seed next, `None` once every path has been attempted.
    pub fn next_target(&self) -> (r: Option<ProjectPath>)
        requires
            self.wf(),
        ensures
            r is Some <==> pending(self.targets(), self.outcomes()) is Some,
            r matches Some(p) ==> pending(self.targets(), self.outcomes()) == Some(p@),
    {
        let k = self.outcomes.len();
        if k < self.targets.len() {
            Some(self.targets[k].clone_path())
        } else {
            None
        }
    }

    /// Whether every path has been attempted.
    pub fn is_finished(&self) -> (r: bool)
        requires
            self.wf(),
        ensures
            r == (self.outcomes().len() == self.targets().len()),
    {
        self.outcomes.len() == self.targets.len()
    }

    /// Records whether the pending path was seeded.
    pub fn record(&mut self, succeeded: bool)
        requires
            old(self).wf(),
            old(self).outcomes().len() < old(self).targets().len(),
        ensures
            final(self).wf(),
            final(self).targets() == old(self).targets(),
            final(self).outcomes() == old(self).outcomes().push(succeeded),
    {
        self.outcomes.push(succeeded);
    }

    /// The paths whose seeding failed, in the order they were attempted.
    pub fn failures(&self) -> (r: Vec<ProjectPath>)
        requires
            self.wf(),
        ensures
            views(r@) == failed_targets(self.targets(), self.outcomes()),
    {
        self.collect(false)
    }

    /// The paths that were seeded, in the order they were attempted.
    pub fn seeded(&self) -> (r: Vec<ProjectPath>)
        requires
            self.wf(),
        ensures
            views(r@) == seeded_targets(self.targets(), self.outcomes()),
    {
        self.collect(true)
    }

    fn collect(&self, wanted: bool) -> (r: Vec<ProjectPath>)
        requires
            self.wf(),
        ensures
            wanted ==> views(r@) == seeded_targets(self.targets(), self.outcomes()),
            !wanted ==> views(r@) == failed_targets(self.targets(), self.outcomes()),
    {
        let ghost t = self.targets();
        let ghost o = self.outcomes();
        let mut out: Vec<ProjectPath> = Vec::new();
        let mut i: usize = 0;
        assert(o.subrange(0, 0) =~= Seq::<bool>::empty());
        assert(views(out@) =~= Seq::empty());
        while i < self.outcomes.len()
            invariant
                t == self.targets(),
                o == self.outcomes(),
                o.len() <= t.len(),
                i <= o.len(),
                wanted ==> views(out@) == seeded_targets(t, o.subrange(0, i as int)),
                !wanted ==> views(out@) == failed_targets(t, o.subrange(0, i as int)),
            decreases o.len() - i,
        {
            assert(o.subrange(0, i + 1).drop_last() =~= o.subrange(0, i as int));
            if self.outcomes[i] == wanted {
                let ghost prev = out@;
                out.push(self.targets[i].clone_path());
                assert(views(out@) =~= views(prev).push(t[i as int]));
            }
            i = i + 1;
        }
        assert(o.subrange(0, i as int) =~= o);
        out
    }

    /// The status the run ends with: zero when no seeding failed, one
    /// otherwise.
    pub fn exit_code(&self) -> (r: i32)
        requires
            self.wf(),
        ensures
            r == (if failed_targets(self.targets(), self.outcomes()).len() == 0 {
                0i32
            } else {
                1i32
            }),
    {
        if self.failures().len() == 0 {
            0
        } else {
            1
        }
    }
}

/// A failure does not end the run: after a failed attempt the next target is
/// the one that would follow a success, and the failed path is added to the
/// failures.
pub proof fn lemma_failure_isolated(targets: Seq<Seq<Seq<char>>>, outcomes: Seq<bool>)
    requires
        outcomes.len() < targets.len(),
    ensures
        pending(targets, outcomes.push(false)) == pending(targets, outcomes.push(true)),
        outcomes.len() + 1 < targets.len() ==> pending(targets, outcomes.push(false)) == Some(
            targets[outcomes.len() + 1 as int],
        ),
        failed_targets(targets, outcomes.push(false)) == failed_targets(targets, outcomes).push(
            targets[outcomes.len() as int],
        ),
        seeded_targets(targets, outcomes.push(false)) == seeded_targets(targets, outcomes),
{
    assert(outcomes.push(false).drop_last() =~= outcomes);
}

} // verus!
