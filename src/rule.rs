//! Rewrite rules and their instantiation against a tag environment.
use vstd::prelude::*;

use crate::text::{
    copy_text, lemma_substitute_bindings, lookup, substitute, substitute_text, text_eq, Env,
};

verus! {

/// How a filter's sub-query relates to a candidate match.
#[derive(PartialEq, Eq, Structural, Clone, Copy, Debug)]
pub enum FilterKind {
    /// Some match of the sub-query lies inside the candidate.
    Contains,
    /// No match of the sub-query lies inside the candidate.
    NotContains,
    /// Some match of the sub-query encloses the candidate.
    Enclosing,
    /// No match of the sub-query encloses the candidate.
    NotEnclosing,
}

/// A filter predicate: a structural sub-query and its relation.
pub struct Filter {
    pub kind: FilterKind,
    pub query: Vec<char>,
}

/// A rewrite rule.
pub struct Rule {
    pub name: Vec<char>,
    /// The structural query.
    pub query: Vec<char>,
    /// The capture whose range an edit replaces.
    pub replace_node: Vec<char>,
    /// The replacement template; empty for a match-only rule.
    pub replace: Vec<char>,
    /// Tags that must be bound before the rule applies.
    pub holes: Vec<Vec<char>>,
    /// Membership tags; `seed` marks a starting rule.
    pub groups: Vec<Vec<char>>,
    pub filters: Vec<Filter>,
    /// Tags that every reported match must capture.
    pub constraints: Vec<Vec<char>>,
}

/// The mathematical value of a rule.
pub struct RuleView {
    pub name: Seq<char>,
    pub query: Seq<char>,
    pub replace_node: Seq<char>,
    pub replace: Seq<char>,
    pub holes: Seq<Seq<char>>,
    pub groups: Seq<Seq<char>>,
    pub filters: Seq<(FilterKind, Seq<char>)>,
    pub constraints: Seq<Seq<char>>,
}

pub open spec fn texts_view(v: Seq<Vec<char>>) -> Seq<Seq<char>> {
    v.map_values(|t: Vec<char>| t@)
}

pub open spec fn filter_view(f: Filter) -> (FilterKind, Seq<char>) {
    (f.kind, f.query@)
}

impl View for Rule {
    type V = RuleView;

    open spec fn view(&self) -> RuleView {
        RuleView {
            name: self.name@,
            query: self.query@,
            replace_node: self.replace_node@,
            replace: self.replace@,
            holes: texts_view(self.holes@),
            groups: texts_view(self.groups@),
            filters: self.filters@.map_values(|f: Filter| filter_view(f)),
            constraints: texts_view(self.constraints@),
        }
    }
}

pub open spec fn rules_view(v: Seq<Rule>) -> Seq<RuleView> {
    v.map_values(|r: Rule| r@)
}

/// The first of `holes` that `env` leaves unbound.
pub open spec fn first_unbound(holes: Seq<Seq<char>>, env: Seq<(Seq<char>, Seq<char>)>) -> Option<
    Seq<char>,
>
    decreases holes.len(),
{
    if holes.len() == 0 {
        None
    } else if lookup(env, holes[0]) is None {
        Some(holes[0])
    } else {
        first_unbound(holes.drop_first(), env)
    }
}

/// The rule `r` instantiated under `env`: every string template rendered,
/// or the first declared hole that `env` does not bind.
pub open spec fn instantiate_spec(r: RuleView, env: Seq<(Seq<char>, Seq<char>)>) -> Result<
    RuleView,
    Seq<char>,
> {
    match first_unbound(r.holes, env) {
        Some(h) => Err(h),
        None => Ok(
            RuleView {
                query: substitute(r.query, env),
                replace: substitute(r.replace, env),
                filters: r.filters.map_values(
                    |f: (FilterKind, Seq<char>)| (f.0, substitute(f.1, env)),
                ),
                ..r
            },
        ),
    }
}

/// Instantiation is a function of the rule and of what the environment
/// binds: equal rules under environments that bind every tag alike
/// instantiate to the same rule, or fail on the same hole.
pub proof fn lemma_instantiate_deterministic(
    r1: RuleView,
    r2: RuleView,
    e1: Seq<(Seq<char>, Seq<char>)>,
    e2: Seq<(Seq<char>, Seq<char>)>,
)
    requires
        r1 == r2,
        forall|k: Seq<char>| lookup(e1, k) == lookup(e2, k),
    ensures
        instantiate_spec(r1, e1) == instantiate_spec(r2, e2),
{
    lemma_first_unbound_bindings(r1.holes, e1, e2);
    lemma_substitute_bindings(r1.query, e1, e2);
    lemma_substitute_bindings(r1.replace, e1, e2);
    let f1 = r1.filters.map_values(|f: (FilterKind, Seq<char>)| (f.0, substitute(f.1, e1)));
    let f2 = r1.filters.map_values(|f: (FilterKind, Seq<char>)| (f.0, substitute(f.1, e2)));
    assert forall|i: int| 0 <= i < r1.filters.len() implies f1[i] == f2[i] by {
        lemma_substitute_bindings(r1.filters[i].1, e1, e2);
    }
    assert(f1 =~= f2);
}

proof fn lemma_first_unbound_bindings(
    holes: Seq<Seq<char>>,
    e1: Seq<(Seq<char>, Seq<char>)>,
    e2: Seq<(Seq<char>, Seq<char>)>,
)
    requires
        forall|k: Seq<char>| lookup(e1, k) == lookup(e2, k),
    ensures
        first_unbound(holes, e1) == first_unbound(holes, e2),
    decreases holes.len(),
{
    if holes.len() > 0 {
        assert(lookup(e1, holes[0]) == lookup(e2, holes[0]));
        lemma_first_unbound_bindings(holes.drop_first(), e1, e2);
    }
}

/// A relay rule: no query and no replacement.
pub open spec fn is_dummy_spec(r: RuleView) -> bool {
    r.query.len() == 0 && r.replace.len() == 0
}

/// The group name that marks a seed rule.
pub open spec fn seed_group() -> Seq<char> {
    seq!['s', 'e', 'e', 'd']
}

pub fn seed_group_text() -> (r: Vec<char>)
    ensures
        r@ == seed_group(),
{
    let r = vec!['s', 'e', 'e', 'd'];
    assert(r@ =~= seed_group());
    r
}

/// A copy of a list of texts.
pub fn copy_texts(v: &Vec<Vec<char>>) -> (r: Vec<Vec<char>>)
    ensures
        texts_view(r@) == texts_view(v@),
{
    let mut r: Vec<Vec<char>> = Vec::new();
    let mut i: usize = 0;
    while i < v.len()
        invariant
            i <= v@.len(),
            r@.len() == i,
            forall|j: int| 0 <= j < i ==> (#[trigger] r@[j])@ == v@[j]@,
        decreases v@.len() - i,
    {
        r.push(copy_text(&v[i]));
        i = i + 1;
    }
    assert(texts_view(r@) =~= texts_view(v@));
    r
}

/// Whether two lists of texts are equal.
pub fn texts_eq(a: &Vec<Vec<char>>, b: &Vec<Vec<char>>) -> (r: bool)
    ensures
        r == (texts_view(a@) == texts_view(b@)),
{
    if a.len() != b.len() {
        assert(texts_view(a@).len() != texts_view(b@).len());
        return false;
    }
    let mut i: usize = 0;
    while i < a.len()
        invariant
            a@.len() == b@.len(),
            i <= a@.len(),
            forall|j: int| 0 <= j < i ==> (#[trigger] a@[j])@ == b@[j]@,
        decreases a@.len() - i,
    {
        if !text_eq(&a[i], &b[i]) {
            assert(texts_view(a@)[i as int] != texts_view(b@)[i as int]);
            return false;
        }
        i = i + 1;
    }
    assert(texts_view(a@) =~= texts_view(b@));
    true
}

/// Whether `v` holds `t`.
pub fn texts_contain(v: &Vec<Vec<char>>, t: &Vec<char>) -> (r: bool)
    ensures
        r == texts_view(v@).contains(t@),
{
    let mut i: usize = 0;
    while i < v.len()
        invariant
            i <= v@.len(),
            forall|j: int| 0 <= j < i ==> (#[trigger] v@[j])@ != t@,
        decreases v@.len() - i,
    {
        if text_eq(&v[i], t) {
            assert(texts_view(v@)[i as int] == t@);
            return true;
        }
        i = i + 1;
    }
    assert(!texts_view(v@).contains(t@)) by {
        if texts_view(v@).contains(t@) {
            let k = choose|k: int| 0 <= k < texts_view(v@).len() && texts_view(v@)[k] == t@;
            assert(v@[k]@ == t@);
        }
    }
    false
}

/// A copy of a list of filters.
fn copy_filters(v: &Vec<Filter>) -> (r: Vec<Filter>)
    ensures
        r@.map_values(|f: Filter| filter_view(f)) == v@.map_values(|f: Filter| filter_view(f)),
{
    let mut r: Vec<Filter> = Vec::new();
    let mut i: usize = 0;
    while i < v.len()
        invariant
            i <= v@.len(),
            r@.len() == i,
            forall|j: int| 0 <= j < i ==> filter_view(#[trigger] r@[j]) == filter_view(v@[j]),
        decreases v@.len() - i,
    {
        r.push(Filter { kind: v[i].kind, query: copy_text(&v[i].query) });
        i = i + 1;
    }
    assert(r@.map_values(|f: Filter| filter_view(f)) =~= v@.map_values(|f: Filter| filter_view(f)));
    r
}

/// Whether two lists of filters are equal.
fn filters_eq(a: &Vec<Filter>, b: &Vec<Filter>) -> (r: bool)
    ensures
        r == (a@.map_values(|f: Filter| filter_view(f)) == b@.map_values(|f: Filter| filter_view(f))),
{
    let ghost av = a@.map_values(|f: Filter| filter_view(f));
    let ghost bv = b@.map_values(|f: Filter| filter_view(f));
    if a.len() != b.len() {
        assert(av.len() != bv.len());
        return false;
    }
    let mut i: usize = 0;
    while i < a.len()
        invariant
            a@.len() == b@.len(),
            i <= a@.len(),
            av == a@.map_values(|f: Filter| filter_view(f)),
            bv == b@.map_values(|f: Filter| filter_view(f)),
            forall|j: int| 0 <= j < i ==> filter_view(#[trigger] a@[j]) == filter_view(b@[j]),
        decreases a@.len() - i,
    {
        if a[i].kind != b[i].kind || !text_eq(&a[i].query, &b[i].query) {
            assert(av[i as int] != bv[i as int]);
            return false;
        }
        i = i + 1;
    }
    assert(av =~= bv);
    true
}

impl Rule {
    /// A copy of this rule.
    pub fn copy(&self) -> (r: Rule)
        ensures
            r@ == self@,
    {
        Rule {
            name: copy_text(&self.name),
            query: copy_text(&self.query),
            replace_node: copy_text(&self.replace_node),
            replace: copy_text(&self.replace),
            holes: copy_texts(&self.holes),
            groups: copy_texts(&self.groups),
            filters: copy_filters(&self.filters),
            constraints: copy_texts(&self.constraints),
        }
    }

    /// Structural equality: name and every rendered string.
    pub fn same_as(&self, other: &Rule) -> (r: bool)
        ensures
            r == (self@ == other@),
    {
        text_eq(&self.name, &other.name) && text_eq(&self.query, &other.query) && text_eq(
            &self.replace_node,
            &other.replace_node,
        ) && text_eq(&self.replace, &other.replace) && texts_eq(&self.holes, &other.holes)
            && texts_eq(&self.groups, &other.groups) && filters_eq(&self.filters, &other.filters)
            && texts_eq(&self.constraints, &other.constraints)
    }

    /// Whether this rule is a relay with no query and no replacement.
    pub fn is_dummy(&self) -> (r: bool)
        ensures
            r == is_dummy_spec(self@),
    {
        self.query.len() == 0 && self.replace.len() == 0
    }

    /// Whether this rule belongs to the `seed` group.
    pub fn is_seed_rule(&self) -> (r: bool)
        ensures
            r == self@.groups.contains(seed_group()),
    {
        texts_contain(&self.groups, &seed_group_text())
    }

    /// Puts this rule into the `seed` group, if it is not there yet.
    pub fn add_to_seed_rules_group(&mut self)
        ensures
            final(self)@.groups == (if old(self)@.groups.contains(seed_group()) {
                old(self)@.groups
            } else {
                old(self)@.groups.push(seed_group())
            }),
            final(self)@ == (RuleView { groups: final(self)@.groups, ..old(self)@ }),
    {
        if !self.is_seed_rule() {
            self.groups.push(seed_group_text());
            assert(texts_view(self.groups@) =~= texts_view(old(self).groups@).push(seed_group()));
        }
    }

    /// This rule instantiated under `env`: `Err` with the first declared
    /// hole that `env` leaves unbound, else every template rendered.
    pub fn instantiate(&self, env: &Env) -> (r: Result<Rule, Vec<char>>)
        ensures
            r matches Ok(x) ==> instantiate_spec(self@, env@) == Ok::<RuleView, Seq<char>>(x@),
            r matches Err(h) ==> instantiate_spec(self@, env@) == Err::<RuleView, Seq<char>>(h@),
    {
        let mut i: usize = 0;
        assert(texts_view(self.holes@).subrange(0, self.holes@.len() as int) =~= texts_view(
            self.holes@,
        ));
        while i < self.holes.len()
            invariant
                i <= self.holes@.len(),
                first_unbound(texts_view(self.holes@), env@) == first_unbound(
                    texts_view(self.holes@).subrange(i as int, self.holes@.len() as int),
                    env@,
                ),
            decreases self.holes@.len() - i,
        {
            let ghost rest = texts_view(self.holes@).subrange(i as int, self.holes@.len() as int);
            assert(rest.drop_first() =~= texts_view(self.holes@).subrange(
                i + 1,
                self.holes@.len() as int,
            ));
            if env.get(&self.holes[i]).is_none() {
                return Err(copy_text(&self.holes[i]));
            }
            i = i + 1;
        }
        let mut filters: Vec<Filter> = Vec::new();
        let mut j: usize = 0;
        while j < self.filters.len()
            invariant
                j <= self.filters@.len(),
                filters@.len() == j,
                forall|k: int|
                    0 <= k < j ==> filter_view(#[trigger] filters@[k]) == (
                        self.filters@[k].kind,
                        substitute(self.filters@[k].query@, env@),
                    ),
            decreases self.filters@.len() - j,
        {
            filters.push(
                Filter { kind: self.filters[j].kind, query: substitute_text(&self.filters[j].query, env) },
            );
            j = j + 1;
        }
        let r = Rule {
            name: copy_text(&self.name),
            query: substitute_text(&self.query, env),
            replace_node: copy_text(&self.replace_node),
            replace: substitute_text(&self.replace, env),
            holes: copy_texts(&self.holes),
            groups: copy_texts(&self.groups),
            filters,
            constraints: copy_texts(&self.constraints),
        };
        assert(r@.filters =~= self@.filters.map_values(
            |f: (FilterKind, Seq<char>)| (f.0, substitute(f.1, env@)),
        ));
        Ok(r)
    }
}

} // verus!
