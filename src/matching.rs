//! Choosing the matches of a rule among the raw results of its query, and
//! the scope region in which triggered rules are looked for.
use vstd::prelude::*;

use crate::edit::{encloses, Match, Range};
use crate::rule::{FilterKind, Rule, RuleView};
use crate::text::{lookup, Env};

verus! {

/// A raw result of a rule's query: its span, its captures, and for each
/// filter of the rule the number of matches that the filter's sub-query
/// found in the relation the filter names.
pub struct Candidate {
    pub range: Range,
    pub captures: Env,
    pub filter_hits: Vec<usize>,
}

/// Whether a filter of `kind` keeps a candidate for which its sub-query
/// found `hits` matches.
pub open spec fn filter_passes(kind: FilterKind, hits: usize) -> bool {
    match kind {
        FilterKind::Contains | FilterKind::Enclosing => hits > 0,
        FilterKind::NotContains | FilterKind::NotEnclosing => hits == 0,
    }
}

/// Whether `c` is reported as a match of `rule` within `region`: it lies in
/// the region, passes every filter, and binds every constraint tag.
pub open spec fn survives(rule: RuleView, region: Range, c: Candidate) -> bool {
    &&& encloses(region, c.range)
    &&& c.filter_hits@.len() == rule.filters.len()
    &&& forall|i: int|
        0 <= i < rule.filters.len() ==> filter_passes(rule.filters[i].0, #[trigger] c.filter_hits@[i])
    &&& forall|i: int|
        0 <= i < rule.constraints.len() ==> lookup(c.captures@, #[trigger] rule.constraints[i]) is Some
}

pub open spec fn match_view(m: Match) -> (Range, Seq<(Seq<char>, Seq<char>)>) {
    (m.range, m.captures@)
}

pub open spec fn matches_view(v: Seq<Match>) -> Seq<(Range, Seq<(Seq<char>, Seq<char>)>)> {
    v.map_values(|m: Match| match_view(m))
}

/// The candidates that survive, in the order given.
pub open spec fn select_spec(rule: RuleView, region: Range, cs: Seq<Candidate>) -> Seq<
    (Range, Seq<(Seq<char>, Seq<char>)>),
>
    decreases cs.len(),
{
    if cs.len() == 0 {
        Seq::empty()
    } else {
        let prev = select_spec(rule, region, cs.drop_last());
        if survives(rule, region, cs.last()) {
            prev.push((cs.last().range, cs.last().captures@))
        } else {
            prev
        }
    }
}

fn filter_kind_passes(kind: FilterKind, hits: usize) -> (r: bool)
    ensures
        r == filter_passes(kind, hits),
{
    match kind {
        FilterKind::Contains | FilterKind::Enclosing => hits > 0,
        FilterKind::NotContains | FilterKind::NotEnclosing => hits == 0,
    }
}

fn candidate_survives(rule: &Rule, region: Range, c: &Candidate) -> (r: bool)
    ensures
        r == survives(rule@, region, *c),
{
    if !(region.start_offset <= c.range.start_offset && c.range.end_offset <= region.end_offset) {
        return false;
    }
    if c.filter_hits.len() != rule.filters.len() {
        return false;
    }
    let mut i: usize = 0;
    while i < rule.filters.len()
        invariant
            i <= rule.filters@.len(),
            c.filter_hits@.len() == rule.filters@.len(),
            forall|j: int|
                0 <= j < i ==> filter_passes(rule@.filters[j].0, #[trigger] c.filter_hits@[j]),
        decreases rule.filters@.len() - i,
    {
        if !filter_kind_passes(rule.filters[i].kind, c.filter_hits[i]) {
            assert(rule@.filters[i as int].0 == rule.filters@[i as int].kind);
            return false;
        }
        i = i + 1;
    }
    let mut k: usize = 0;
    while k < rule.constraints.len()
        invariant
            k <= rule.constraints@.len(),
            forall|j: int|
                0 <= j < k ==> lookup(c.captures@, #[trigger] rule@.constraints[j]) is Some,
        decreases rule.constraints@.len() - k,
    {
        assert(rule@.constraints[k as int] == rule.constraints@[k as int]@);
        if c.captures.get(&rule.constraints[k]).is_none() {
            return false;
        }
        k = k + 1;
    }
    true
}

/// Whether the candidates come in document order: by where they start.
pub open spec fn in_document_order(cs: Seq<Candidate>) -> bool {
    forall|i: int, j: int|
        0 <= i < j < cs.len() ==> (#[trigger] cs[i]).range.start_offset <= (#[trigger] cs[j]).range.start_offset
}

/// Whether the matches come in document order: by where they start.
pub open spec fn matches_in_document_order(ms: Seq<Match>) -> bool {
    forall|i: int, j: int|
        0 <= i < j < ms.len() ==> (#[trigger] ms[i]).range.start_offset <= (#[trigger] ms[j]).range.start_offset
}

/// The matches of `rule` among `candidates` within `region`: those that
/// lie in the region, pass every filter and bind every constraint tag, in
/// the order given. A query yields its results in document order, and the
/// matches keep it.
pub fn select_matches(rule: &Rule, region: Range, candidates: &Vec<Candidate>) -> (r: Vec<Match>)
    ensures
        matches_view(r@) == select_spec(rule@, region, candidates@),
        forall|i: int| 0 <= i < r@.len() ==> encloses(region, (#[trigger] r@[i]).range),
        in_document_order(candidates@) ==> matches_in_document_order(r@),
{
    let mut r: Vec<Match> = Vec::new();
    let mut i: usize = 0;
    assert(matches_view(r@) =~= select_spec(rule@, region, candidates@.subrange(0, 0)));
    while i < candidates.len()
        invariant
            i <= candidates@.len(),
            matches_view(r@) == select_spec(rule@, region, candidates@.subrange(0, i as int)),
            forall|j: int| 0 <= j < r@.len() ==> encloses(region, (#[trigger] r@[j]).range),
            in_document_order(candidates@) ==> matches_in_document_order(r@),
            in_document_order(candidates@) ==> forall|j: int, k: int|
                0 <= j < r@.len() && i <= k < candidates@.len() ==> (#[trigger] r@[j]).range.start_offset
                    <= (#[trigger] candidates@[k]).range.start_offset,
        decreases candidates@.len() - i,
    {
        assert(candidates@.subrange(0, i + 1).drop_last() =~= candidates@.subrange(0, i as int));
        assert(candidates@.subrange(0, i + 1).last() == candidates@[i as int]);
        let c = &candidates[i];
        if candidate_survives(rule, region, c) {
            let m = Match::new(c.range, c.captures.copy());
            let ghost before = r@;
            r.push(m);
            assert(matches_view(r@) =~= matches_view(before).push((c.range, c.captures@)));
        }
        i = i + 1;
    }
    assert(candidates@.subrange(0, candidates@.len() as int) =~= candidates@);
    r
}

/// The length of a span.
pub open spec fn size(r: Range) -> int {
    r.end_offset - r.start_offset
}

/// The smallest of `cs` that encloses `anchor`; the earliest among equals.
pub open spec fn smallest_enclosing(cs: Seq<Range>, anchor: Range) -> Option<Range>
    decreases cs.len(),
{
    if cs.len() == 0 {
        None
    } else {
        let prev = smallest_enclosing(cs.drop_last(), anchor);
        let c = cs.last();
        if encloses(c, anchor) && (prev is None || size(c) < size(prev->0)) {
            Some(c)
        } else {
            prev
        }
    }
}

/// The region of a scope around `anchor`: the smallest of the scope query's
/// `candidates` that encloses it, or `whole`, the whole file, if none does.
pub fn resolve_scope(anchor: Range, candidates: &Vec<Range>, whole: Range) -> (r: Range)
    ensures
        r == (match smallest_enclosing(candidates@, anchor) {
            Some(c) => c,
            None => whole,
        }),
        smallest_enclosing(candidates@, anchor) is Some ==> encloses(r, anchor) && forall|i: int|
            0 <= i < candidates@.len() && encloses(#[trigger] candidates@[i], anchor) ==> size(r)
                <= size(candidates@[i]),
        smallest_enclosing(candidates@, anchor) is None ==> forall|i: int|
            0 <= i < candidates@.len() ==> !encloses(#[trigger] candidates@[i], anchor),
{
    let mut best: Option<Range> = None;
    let mut i: usize = 0;
    while i < candidates.len()
        invariant
            i <= candidates@.len(),
            best == smallest_enclosing(candidates@.subrange(0, i as int), anchor),
            best matches Some(b) ==> encloses(b, anchor) && forall|j: int|
                0 <= j < i && encloses(#[trigger] candidates@[j], anchor) ==> size(b) <= size(
                    candidates@[j],
                ),
            best is None ==> forall|j: int|
                0 <= j < i ==> !encloses(#[trigger] candidates@[j], anchor),
        decreases candidates@.len() - i,
    {
        assert(candidates@.subrange(0, i + 1).drop_last() =~= candidates@.subrange(0, i as int));
        assert(candidates@.subrange(0, i + 1).last() == candidates@[i as int]);
        let c = candidates[i];
        let inside = c.start_offset <= anchor.start_offset && anchor.end_offset <= c.end_offset;
        if inside {
            match best {
                None => {
                    best = Some(c);
                },
                Some(b) => {
                    if (c.end_offset as u128) + (b.start_offset as u128) < (b.end_offset as u128) + (
                    c.start_offset as u128) {
                        best = Some(c);
                    }
                },
            }
        }
        i = i + 1;
    }
    assert(candidates@.subrange(0, candidates@.len() as int) =~= candidates@);
    match best {
        Some(b) => b,
        None => whole,
    }
}

} // verus!
