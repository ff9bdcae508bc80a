//! Workflows over runs of the engine: a seed step, then cleanup rounds
//! repeated until one performs no rewrite.
use vstd::prelude::*;

use crate::edit::Edit;
use crate::store::PiranhaArguments;
use crate::text::{copy_text, text_eq};

verus! {

/// What a run did to one file.
pub struct Summary {
    pub path: Vec<char>,
    pub content_before: Vec<char>,
    pub content_after: Vec<char>,
    pub rewrites: Vec<Edit>,
}

pub struct SummaryView {
    pub path: Seq<char>,
    pub content_before: Seq<char>,
    pub content_after: Seq<char>,
    pub rewrites: Seq<Edit>,
}

impl View for Summary {
    type V = SummaryView;

    open spec fn view(&self) -> SummaryView {
        SummaryView {
            path: self.path@,
            content_before: self.content_before@,
            content_after: self.content_after@,
            rewrites: self.rewrites@,
        }
    }
}

pub open spec fn summaries_view(v: Seq<Summary>) -> Seq<SummaryView> {
    v.map_values(|s: Summary| s@)
}

/// `a` followed by the later run `b` on the same file.
pub open spec fn merged(a: SummaryView, b: SummaryView) -> SummaryView {
    SummaryView { content_after: b.content_after, rewrites: a.rewrites + b.rewrites, ..a }
}

/// The index of the first summary of `s` for `path`.
pub open spec fn index_of_path(s: Seq<SummaryView>, path: Seq<char>) -> Option<int>
    decreases s.len(),
{
    if s.len() == 0 {
        None
    } else {
        match index_of_path(s.drop_last(), path) {
            Some(k) => Some(k),
            None => if s.last().path == path {
                Some(s.len() - 1)
            } else {
                None
            },
        }
    }
}

/// `s` with `x` merged into the summary of its file, or appended.
pub open spec fn merge_into(s: Seq<SummaryView>, x: SummaryView) -> Seq<SummaryView> {
    match index_of_path(s, x.path) {
        Some(k) => s.update(k, merged(s[k], x)),
        None => s.push(x),
    }
}

/// `s` after merging, in order, each summary of `round` that rewrote
/// something.
pub open spec fn merge_round(s: Seq<SummaryView>, round: Seq<SummaryView>) -> Seq<SummaryView>
    decreases round.len(),
{
    if round.len() == 0 {
        s
    } else {
        let prev = merge_round(s, round.drop_last());
        if round.last().rewrites.len() > 0 {
            merge_into(prev, round.last())
        } else {
            prev
        }
    }
}

/// Whether any summary of `round` rewrote something.
pub open spec fn any_rewrite(round: Seq<SummaryView>) -> bool {
    exists|i: int| 0 <= i < round.len() && (#[trigger] round[i]).rewrites.len() > 0
}

impl Summary {
    /// Appends the later run `other` on the same file.
    pub fn merge(&mut self, other: Summary)
        ensures
            final(self)@ == merged(old(self)@, other@),
    {
        let mut more = other.rewrites;
        self.rewrites.append(&mut more);
        self.content_after = other.content_after;
    }
}

fn find_summary(s: &Vec<Summary>, path: &Vec<char>) -> (r: Option<usize>)
    ensures
        r matches Some(k) ==> k < s@.len() && index_of_path(summaries_view(s@), path@) == Some(
            k as int,
        ),
        r is None ==> index_of_path(summaries_view(s@), path@) is None,
{
    let ghost sv = summaries_view(s@);
    let mut i: usize = 0;
    assert(sv.subrange(0, 0) =~= Seq::<SummaryView>::empty());
    while i < s.len()
        invariant
            i <= s@.len(),
            sv == summaries_view(s@),
            index_of_path(sv.subrange(0, i as int), path@) is None,
        decreases s@.len() - i,
    {
        assert(sv.subrange(0, i + 1).drop_last() =~= sv.subrange(0, i as int));
        if text_eq(&s[i].path, path) {
            proof {
                lemma_index_of_path_extend(sv, path@, i as int);
            }
            return Some(i);
        }
        i = i + 1;
    }
    assert(sv.subrange(0, s@.len() as int) =~= sv);
    None
}

/// The first index for `path` among the first `i + 1` summaries stays the
/// first among all of them.
proof fn lemma_index_of_path_extend(sv: Seq<SummaryView>, path: Seq<char>, i: int)
    requires
        0 <= i < sv.len(),
        sv[i].path == path,
        index_of_path(sv.subrange(0, i), path) is None,
    ensures
        index_of_path(sv, path) == Some(i),
    decreases sv.len(),
{
    assert(sv.subrange(0, i + 1).drop_last() =~= sv.subrange(0, i));
    if i + 1 < sv.len() {
        assert(sv.drop_last().subrange(0, i) =~= sv.subrange(0, i));
        lemma_index_of_path_extend(sv.drop_last(), path, i);
    } else {
        assert(sv.drop_last() =~= sv.subrange(0, i));
    }
}

/// One run of the engine with its arguments, and what it did.
pub struct Step {
    pub piranha_arguments: PiranhaArguments,
    pub summaries: Vec<Summary>,
}

impl Step {
    pub fn new(piranha_arguments: PiranhaArguments) -> (r: Step)
        ensures
            r.piranha_arguments == piranha_arguments,
            r.summaries@.len() == 0,
    {
        Step { piranha_arguments, summaries: Vec::new() }
    }

    /// Records `run`, the summaries of a run with this step's arguments, and
    /// tells whether it rewrote anything.
    pub fn apply(&mut self, run: Vec<Summary>) -> (r: bool)
        ensures
            final(self).summaries == run,
            final(self).piranha_arguments == old(self).piranha_arguments,
            r == any_rewrite(summaries_view(run@)),
    {
        let mut i: usize = 0;
        let mut found = false;
        while i < run.len()
            invariant
                i <= run@.len(),
                found == exists|j: int| 0 <= j < i && (#[trigger] run@[j]).rewrites@.len() > 0,
            decreases run@.len() - i,
        {
            if run[i].rewrites.len() > 0 {
                found = true;
            }
            i = i + 1;
        }
        proof {
            let sv = summaries_view(run@);
            if found {
                let j = choose|j: int| 0 <= j < i && (#[trigger] run@[j]).rewrites@.len() > 0;
                assert(sv[j].rewrites.len() > 0);
            }
            if any_rewrite(sv) {
                let j = choose|j: int| 0 <= j < sv.len() && (#[trigger] sv[j]).rewrites.len() > 0;
                assert(run@[j].rewrites@.len() > 0);
            }
        }
        self.summaries = run;
        found
    }
}

/// The first step of a run: the seed rules over the input.
pub struct SeedWorkflow {
    pub seed_step: Step,
}

impl SeedWorkflow {
    /// Records the seed run and tells whether it rewrote anything.
    pub fn apply(&mut self, run: Vec<Summary>) -> (r: bool)
        ensures
            final(self).seed_step.summaries == run,
            final(self).seed_step.piranha_arguments == old(self).seed_step.piranha_arguments,
            r == any_rewrite(summaries_view(run@)),
    {
        self.seed_step.apply(run)
    }
}

/// A cleanup that follows earlier edits: for each file, its text before
/// and after them.
pub struct CleanupWorkflow {
    pub previous_edit: Vec<(Vec<char>, Vec<char>, Vec<char>)>,
}

impl CleanupWorkflow {
    /// A cleanup over the files that `summaries` describe.
    pub fn from_summaries(summaries: &Vec<Summary>) -> (r: CleanupWorkflow)
        ensures
            r.previous_edit@.len() == summaries@.len(),
            forall|i: int|
                0 <= i < summaries@.len() ==> (#[trigger] r.previous_edit@[i]).0@
                    == summaries@[i].path@ && r.previous_edit@[i].1@
                    == summaries@[i].content_before@ && r.previous_edit@[i].2@
                    == summaries@[i].content_after@,
    {
        let mut previous_edit: Vec<(Vec<char>, Vec<char>, Vec<char>)> = Vec::new();
        let mut i: usize = 0;
        while i < summaries.len()
            invariant
                i <= summaries@.len(),
                previous_edit@.len() == i,
                forall|j: int|
                    0 <= j < i ==> (#[trigger] previous_edit@[j]).0@ == summaries@[j].path@
                        && previous_edit@[j].1@ == summaries@[j].content_before@
                        && previous_edit@[j].2@ == summaries@[j].content_after@,
            decreases summaries@.len() - i,
        {
            previous_edit.push(
                (
                    copy_text(&summaries[i].path),
                    copy_text(&summaries[i].content_before),
                    copy_text(&summaries[i].content_after),
                ),
            );
            i = i + 1;
        }
        CleanupWorkflow { previous_edit }
    }

    /// Whether an edit from `old_content` to `new_content` calls for
    /// cleanup: it changed the text.
    pub fn is_applicable(&self, old_content: &Vec<char>, new_content: &Vec<char>) -> (r: bool)
        ensures
            r == (old_content@ != new_content@),
    {
        !text_eq(old_content, new_content)
    }

    /// Whether the file of entry `i` calls for cleanup.
    pub fn apply_at_path(&self, i: usize) -> (r: bool)
        requires
            i < self.previous_edit@.len(),
        ensures
            r == (self.previous_edit@[i as int].1@ != self.previous_edit@[i as int].2@),
    {
        self.is_applicable(&self.previous_edit[i].1, &self.previous_edit[i].2)
    }

    /// The paths of the files that call for cleanup, in order.
    pub fn apply(&self) -> (r: Vec<Vec<char>>)
        ensures
            r@.map_values(|p: Vec<char>| p@) == applicable_paths(self.previous_edit@),
    {
        let mut r: Vec<Vec<char>> = Vec::new();
        let ghost pe = self.previous_edit@;
        let mut i: usize = 0;
        assert(r@.map_values(|p: Vec<char>| p@) =~= applicable_paths(pe.subrange(0, 0)));
        while i < self.previous_edit.len()
            invariant
                i <= pe.len(),
                pe == self.previous_edit@,
                r@.map_values(|p: Vec<char>| p@) == applicable_paths(pe.subrange(0, i as int)),
            decreases pe.len() - i,
        {
            assert(pe.subrange(0, i + 1).drop_last() =~= pe.subrange(0, i as int));
            assert(pe.subrange(0, i + 1).last() == pe[i as int]);
            if self.apply_at_path(i) {
                let ghost before = r@;
                let p = copy_text(&self.previous_edit[i].0);
                r.push(p);
                assert(r@.map_values(|p: Vec<char>| p@) =~= before.map_values(|p: Vec<char>| p@).push(
                    pe[i as int].0@,
                ));
            }
            i = i + 1;
        }
        assert(pe.subrange(0, pe.len() as int) =~= pe);
        r
    }
}

/// The paths of the entries whose text changed, in order.
pub open spec fn applicable_paths(pe: Seq<(Vec<char>, Vec<char>, Vec<char>)>) -> Seq<Seq<char>>
    decreases pe.len(),
{
    if pe.len() == 0 {
        Seq::empty()
    } else if pe.last().1@ != pe.last().2@ {
        applicable_paths(pe.drop_last()).push(pe.last().0@)
    } else {
        applicable_paths(pe.drop_last())
    }
}

/// A seed step followed by cleanup rounds, with what they did so far.
pub struct Piranha {
    pub seed_workflow: SeedWorkflow,
    pub cleanup_workflows: Vec<CleanupWorkflow>,
    pub summaries: Vec<Summary>,
}

impl Piranha {
    pub fn new(seed_workflow: SeedWorkflow, cleanup_workflows: Vec<CleanupWorkflow>) -> (r: Piranha)
        ensures
            r.seed_workflow == seed_workflow,
            r.cleanup_workflows == cleanup_workflows,
            r.summaries@.len() == 0,
    {
        Piranha { seed_workflow, cleanup_workflows, summaries: Vec::new() }
    }

    /// Takes in the summaries of one cleanup round: each that rewrote
    /// something is merged into the summary of its file, or appended. Tells
    /// whether the round performed any cleanup; once it did not, the
    /// rewrite has reached its fixpoint.
    pub fn apply(&mut self, round: Vec<Summary>) -> (r: bool)
        ensures
            summaries_view(final(self).summaries@) == merge_round(
                summaries_view(old(self).summaries@),
                summaries_view(round@),
            ),
            final(self).seed_workflow == old(self).seed_workflow,
            final(self).cleanup_workflows == old(self).cleanup_workflows,
            r == any_rewrite(summaries_view(round@)),
    {
        let ghost rv = summaries_view(round@);
        let mut performed = false;
        let mut rest = round;
        let n = rest.len();
        let ghost start = summaries_view(self.summaries@);
        let mut pending: Vec<Summary> = Vec::new();
        // Take the round's summaries out in order.
        while rest.len() > 0
            invariant
                summaries_view(pending@) + summaries_view(rest@) == rv,
            decreases rest@.len(),
        {
            let ghost p0 = summaries_view(pending@);
            let ghost r0 = summaries_view(rest@);
            let x = rest.remove(0);
            assert(summaries_view(rest@) =~= r0.drop_first());
            pending.push(x);
            assert(summaries_view(pending@) =~= p0.push(r0[0]));
            assert(summaries_view(pending@) + summaries_view(rest@) =~= p0 + r0);
        }
        assert(summaries_view(pending@) =~= rv);
        let mut i: usize = 0;
        assert(rv.subrange(0, 0) =~= Seq::<SummaryView>::empty());
        while pending.len() > 0
            invariant
                i + pending@.len() == rv.len(),
                rv.len() == n,
                summaries_view(pending@) == rv.subrange(i as int, rv.len() as int),
                summaries_view(self.summaries@) == merge_round(start, rv.subrange(0, i as int)),
                performed == exists|j: int|
                    0 <= j < i && (#[trigger] rv[j]).rewrites.len() > 0,
                self.seed_workflow == old(self).seed_workflow,
                self.cleanup_workflows == old(self).cleanup_workflows,
            decreases pending@.len(),
        {
            let ghost p0 = summaries_view(pending@);
            let ghost e0 = pending@[0];
            let x = pending.remove(0);
            assert(summaries_view(pending@) =~= p0.drop_first());
            assert(p0[0] == e0@);
            assert(p0[0] == rv[i as int]);
            assert(x@ == rv[i as int]);
            assert(rv.subrange(0, i + 1).drop_last() =~= rv.subrange(0, i as int));
            assert(rv.subrange(0, i + 1).last() == rv[i as int]);
            assert(rv.subrange(i + 1, rv.len() as int) =~= p0.drop_first());
            if x.rewrites.len() > 0 {
                performed = true;
                let ghost s0 = summaries_view(self.summaries@);
                match find_summary(&self.summaries, &x.path) {
                    Some(k) => {
                        let mut cur = self.summaries.remove(k);
                        let ghost c0 = cur@;
                        cur.merge(x);
                        self.summaries.insert(k, cur);
                        assert(summaries_view(self.summaries@) =~= s0.update(
                            k as int,
                            merged(c0, rv[i as int]),
                        ));
                    },
                    None => {
                        self.summaries.push(x);
                        assert(summaries_view(self.summaries@) =~= s0.push(rv[i as int]));
                    },
                }
            }
            i = i + 1;
        }
        assert(rv.subrange(0, rv.len() as int) =~= rv);
        performed
    }
}

/// At the fixpoint a round changes nothing: when no summary of `round`
/// rewrote anything, merging it leaves the summaries as they were (and
/// `Piranha::apply` reports that no cleanup was performed).
pub proof fn lemma_fixpoint_round_is_idle(s: Seq<SummaryView>, round: Seq<SummaryView>)
    requires
        !any_rewrite(round),
    ensures
        merge_round(s, round) == s,
    decreases round.len(),
{
    if round.len() > 0 {
        assert(round.drop_last().len() < round.len());
        if any_rewrite(round.drop_last()) {
            let j = choose|j: int|
                0 <= j < round.drop_last().len() && (#[trigger] round.drop_last()[j]).rewrites.len()
                    > 0;
            assert(round[j].rewrites.len() > 0);
        }
        assert(round[round.len() - 1].rewrites.len() == 0);
        lemma_fixpoint_round_is_idle(s, round.drop_last());
    }
}

} // verus!
