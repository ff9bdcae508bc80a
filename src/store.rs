//! The rule graph and the rule store: rules by name, edges by scope, the
//! global worklist of instantiated rules and the global tag environment.
use vstd::prelude::*;

use crate::rule::{
    instantiate_spec, is_dummy_spec, rules_view, seed_group, texts_view, Rule, RuleView,
};
use crate::text::{copy_text, lemma_lookup_push, lookup, starts_with, text_eq, Env};

verus! {

/// The region in which a triggered rule is looked for.
#[derive(PartialEq, Eq, Structural, Clone, Copy, Debug)]
pub enum Scope {
    Parent,
    Method,
    Class,
    Global,
}

/// One configured entry of the rule graph: `from` triggers each of `to`.
pub struct OutgoingEdges {
    pub from: Vec<char>,
    pub to: Vec<Vec<char>>,
    pub scope: Scope,
}

/// A single directed edge of the rule graph.
pub struct Edge {
    pub from: Vec<char>,
    pub to: Vec<char>,
    pub scope: Scope,
}

pub struct EdgeView {
    pub from: Seq<char>,
    pub to: Seq<char>,
    pub scope: Scope,
}

impl View for Edge {
    type V = EdgeView;

    open spec fn view(&self) -> EdgeView {
        EdgeView { from: self.from@, to: self.to@, scope: self.scope }
    }
}

pub open spec fn edges_view(v: Seq<Edge>) -> Seq<EdgeView> {
    v.map_values(|e: Edge| e@)
}

/// The single edges of one configured entry, in declared order.
pub open spec fn entry_edges(o: OutgoingEdges) -> Seq<EdgeView> {
    texts_view(o.to@).map_values(|t: Seq<char>| EdgeView { from: o.from@, to: t, scope: o.scope })
}

/// The single edges of configured entries, in declared order.
pub open spec fn flatten_edges(v: Seq<OutgoingEdges>) -> Seq<EdgeView>
    decreases v.len(),
{
    if v.len() == 0 {
        Seq::empty()
    } else {
        flatten_edges(v.drop_last()) + entry_edges(v.last())
    }
}

/// The first rule named `name`.
pub open spec fn find_rule(rules: Seq<RuleView>, name: Seq<char>) -> Option<RuleView>
    decreases rules.len(),
{
    if rules.len() == 0 {
        None
    } else if rules[0].name == name {
        Some(rules[0])
    } else {
        find_rule(rules.drop_first(), name)
    }
}

/// The rules triggered by `name` through edges `i..`, each with its scope,
/// instantiated under `env`. A dummy target is replaced by the rules that
/// it triggers itself, through at most `fuel` nested dummies. Targets that
/// are not loaded, or whose instantiation fails, are left out.
pub open spec fn next_from(
    edges: Seq<EdgeView>,
    rules: Seq<RuleView>,
    name: Seq<char>,
    env: Seq<(Seq<char>, Seq<char>)>,
    fuel: nat,
    i: int,
) -> Seq<(Scope, RuleView)>
    decreases fuel, edges.len() - i,
{
    if i < 0 || i >= edges.len() {
        Seq::empty()
    } else {
        let rest = next_from(edges, rules, name, env, fuel, i + 1);
        let e = edges[i];
        if e.from != name {
            rest
        } else {
            match find_rule(rules, e.to) {
                None => rest,
                Some(t) => if is_dummy_spec(t) {
                    if fuel == 0 {
                        rest
                    } else {
                        next_from(edges, rules, e.to, env, (fuel - 1) as nat, 0) + rest
                    }
                } else {
                    match instantiate_spec(t, env) {
                        Ok(x) => seq![(e.scope, x)] + rest,
                        Err(_) => rest,
                    }
                },
            }
        }
    }
}

/// The rules of `s` under `scope`, in order.
pub open spec fn in_scope(s: Seq<(Scope, RuleView)>, scope: Scope) -> Seq<RuleView>
    decreases s.len(),
{
    if s.len() == 0 {
        Seq::empty()
    } else if s.last().0 == scope {
        in_scope(s.drop_last(), scope).push(s.last().1)
    } else {
        in_scope(s.drop_last(), scope)
    }
}

pub open spec fn next_view(v: Seq<(Scope, Rule)>) -> Seq<(Scope, RuleView)> {
    v.map_values(|p: (Scope, Rule)| (p.0, p.1@))
}

/// The rules triggered by one firing, each with the scope it runs in.
pub struct NextRules {
    pub entries: Vec<(Scope, Rule)>,
}

impl View for NextRules {
    type V = Seq<(Scope, RuleView)>;

    open spec fn view(&self) -> Seq<(Scope, RuleView)> {
        next_view(self.entries@)
    }
}

impl NextRules {
    /// The triggered rules that run in `scope`, in order; empty when there
    /// are none, so every scope can be asked for.
    pub fn rules_for(&self, scope: Scope) -> (r: Vec<Rule>)
        ensures
            rules_view(r@) == in_scope(self@, scope),
    {
        let mut r: Vec<Rule> = Vec::new();
        let mut i: usize = 0;
        assert(rules_view(r@) =~= in_scope(self@.subrange(0, 0), scope));
        while i < self.entries.len()
            invariant
                i <= self.entries@.len(),
                rules_view(r@) == in_scope(self@.subrange(0, i as int), scope),
            decreases self.entries@.len() - i,
        {
            assert(self@.subrange(0, i + 1).drop_last() =~= self@.subrange(0, i as int));
            if self.entries[i].0 == scope {
                r.push(self.entries[i].1.copy());
                assert(rules_view(r@) =~= in_scope(self@.subrange(0, i + 1), scope));
            }
            i = i + 1;
        }
        assert(self@.subrange(0, self@.len() as int) =~= self@);
        r
    }
}

/// Flattens configured graph entries into single edges, in declared order.
pub fn flatten(entries: &Vec<OutgoingEdges>) -> (r: Vec<Edge>)
    ensures
        edges_view(r@) == flatten_edges(entries@),
{
    let mut r: Vec<Edge> = Vec::new();
    let mut i: usize = 0;
    assert(edges_view(r@) =~= flatten_edges(entries@.subrange(0, 0)));
    while i < entries.len()
        invariant
            i <= entries@.len(),
            edges_view(r@) == flatten_edges(entries@.subrange(0, i as int)),
        decreases entries@.len() - i,
    {
        let e = &entries[i];
        let ghost base = edges_view(r@);
        let mut j: usize = 0;
        assert(edges_view(r@) =~= base + entry_edges(*e).subrange(0, 0));
        while j < e.to.len()
            invariant
                j <= e.to@.len(),
                i < entries@.len(),
                e == entries@[i as int],
                edges_view(r@) == base + entry_edges(*e).subrange(0, j as int),
            decreases e.to@.len() - j,
        {
            assert(entry_edges(*e)[j as int] == EdgeView {
                from: e.from@,
                to: e.to@[j as int]@,
                scope: e.scope,
            });
            let ne = Edge { from: copy_text(&e.from), to: copy_text(&e.to[j]), scope: e.scope };
            assert(ne@ == entry_edges(*e)[j as int]);
            let ghost before = r@;
            r.push(ne);
            assert(edges_view(r@) =~= edges_view(before).push(ne@));
            assert(entry_edges(*e).subrange(0, j + 1) =~= entry_edges(*e).subrange(0, j as int).push(ne@));
            j = j + 1;
            assert(edges_view(r@) =~= base + entry_edges(*e).subrange(0, j as int));
        }
        assert(entries@.subrange(0, i + 1).drop_last() =~= entries@.subrange(0, i as int));
        assert(entry_edges(*e).subrange(0, j as int) =~= entry_edges(*e));
        i = i + 1;
    }
    assert(entries@.subrange(0, entries@.len() as int) =~= entries@);
    r
}

/// The index of the first rule of `rules` named `name`.
pub fn find_rule_index(rules: &Vec<Rule>, name: &Vec<char>) -> (r: Option<usize>)
    ensures
        r matches Some(k) ==> k < rules@.len() && find_rule(rules_view(rules@), name@) == Some(
            rules@[k as int]@,
        ),
        r is None ==> find_rule(rules_view(rules@), name@) is None,
{
    let ghost all = rules_view(rules@);
    let mut i: usize = 0;
    assert(all.subrange(0, all.len() as int) =~= all);
    while i < rules.len()
        invariant
            i <= rules@.len(),
            all == rules_view(rules@),
            find_rule(all, name@) == find_rule(all.subrange(i as int, all.len() as int), name@),
        decreases rules@.len() - i,
    {
        assert(all.subrange(i as int, all.len() as int).drop_first() =~= all.subrange(
            i + 1,
            all.len() as int,
        ));
        if text_eq(&rules[i].name, name) {
            return Some(i);
        }
        i = i + 1;
    }
    None
}

/// The arguments of a run.
pub struct PiranhaArguments {
    /// Substitutions supplied when the run starts.
    pub input_substitutions: Env,
    /// Tags whose name starts with this prefix are global.
    pub global_tag_prefix: Vec<char>,
}

/// The prefix of global tags when none is configured.
pub open spec fn default_global_prefix() -> Seq<char> {
    seq!['G', 'L', 'O', 'B', 'A', 'L', '_']
}

impl PiranhaArguments {
    /// Arguments with the given substitutions and the default global prefix.
    pub fn new(input_substitutions: Env) -> (r: PiranhaArguments)
        ensures
            r.input_substitutions == input_substitutions,
            r.global_tag_prefix@ == default_global_prefix(),
    {
        let p = vec!['G', 'L', 'O', 'B', 'A', 'L', '_'];
        assert(p@ =~= default_global_prefix());
        PiranhaArguments { input_substitutions, global_tag_prefix: p }
    }
}

/// One language-specific query that yields an enclosing scope.
pub struct ScopeQueryGenerator {
    /// The query for the enclosing node.
    pub enclosing_node: Vec<char>,
    /// The template of the query that selects the scope.
    pub scope: Vec<char>,
}

/// The scope queries of one scope level.
pub struct ScopeGenerator {
    pub name: Vec<char>,
    pub rules: Vec<ScopeQueryGenerator>,
}

pub open spec fn sqg_view(g: ScopeQueryGenerator) -> (Seq<char>, Seq<char>) {
    (g.enclosing_node@, g.scope@)
}

pub open spec fn sqgs_view(v: Seq<ScopeQueryGenerator>) -> Seq<(Seq<char>, Seq<char>)> {
    v.map_values(|g: ScopeQueryGenerator| sqg_view(g))
}

/// The scope queries of the first generator named `level`; empty if none.
pub open spec fn scope_queries(scopes: Seq<ScopeGenerator>, level: Seq<char>) -> Seq<
    (Seq<char>, Seq<char>),
>
    decreases scopes.len(),
{
    if scopes.len() == 0 {
        Seq::empty()
    } else if scopes[0].name@ == level {
        sqgs_view(scopes[0].rules@)
    } else {
        scope_queries(scopes.drop_first(), level)
    }
}

/// Whether `p` is a prefix of `k`.
pub open spec fn has_prefix(k: Seq<char>, p: Seq<char>) -> bool {
    p.len() <= k.len() && k.subrange(0, p.len() as int) == p
}

/// The worklist `g` after offering it `r` instantiated under `env`: the
/// instantiation is appended unless it fails or is already present.
pub open spec fn add_global(g: Seq<RuleView>, r: RuleView, env: Seq<(Seq<char>, Seq<char>)>) -> Seq<
    RuleView,
> {
    match instantiate_spec(r, env) {
        Ok(x) => if g.contains(x) {
            g
        } else {
            g.push(x)
        },
        Err(_) => g,
    }
}

/// The initial worklist: every seed rule of `rules`, in order, offered
/// under `env`.
pub open spec fn seed_worklist(rules: Seq<RuleView>, env: Seq<(Seq<char>, Seq<char>)>) -> Seq<
    RuleView,
>
    decreases rules.len(),
{
    if rules.len() == 0 {
        Seq::empty()
    } else {
        let g = seed_worklist(rules.drop_last(), env);
        if rules.last().groups.contains(seed_group()) {
            add_global(g, rules.last(), env)
        } else {
            g
        }
    }
}

/// The worklist `g` after each of `rs` is offered to it, in order.
pub open spec fn offer_all(g: Seq<RuleView>, rs: Seq<RuleView>, env: Seq<(Seq<char>, Seq<char>)>) -> Seq<
    RuleView,
>
    decreases rs.len(),
{
    if rs.len() == 0 {
        g
    } else {
        add_global(offer_all(g, rs.drop_last(), env), rs.last(), env)
    }
}

/// The global tags `g` after absorbing the bindings of `new` in order: a
/// binding is kept when its tag has `prefix` and is not yet bound.
pub open spec fn absorb(
    g: Seq<(Seq<char>, Seq<char>)>,
    new: Seq<(Seq<char>, Seq<char>)>,
    prefix: Seq<char>,
) -> Seq<(Seq<char>, Seq<char>)>
    decreases new.len(),
{
    if new.len() == 0 {
        g
    } else {
        let e = new[0];
        let g2 = if has_prefix(e.0, prefix) && lookup(g, e.0) is None {
            g.push(e)
        } else {
            g
        };
        absorb(g2, new.drop_first(), prefix)
    }
}

/// The rules, graph, worklist and global tags of a run.
pub struct RuleStore {
    /// All loaded rules; a name refers to the first rule that has it.
    pub rules_by_name: Vec<Rule>,
    /// The rule graph, in declared order.
    pub edges: Vec<Edge>,
    /// The global worklist of instantiated rules.
    pub global_rules: Vec<Rule>,
    pub scopes: Vec<ScopeGenerator>,
    pub piranha_args: PiranhaArguments,
    /// Tags captured so far whose name has the global prefix.
    pub global_tags: Env,
}

/// Why a configuration cannot be loaded.
#[derive(Debug)]
pub enum ConfigError {
    /// An edge names a rule that is not loaded.
    UnknownRule(Vec<char>),
    /// A seed rule (its name, then the hole) has a hole that the input
    /// substitutions leave unbound.
    UnboundSeedHole(Vec<char>, Vec<char>),
}

/// Whether both ends of `e` name loaded rules.
pub open spec fn edge_resolves(rules: Seq<RuleView>, e: EdgeView) -> bool {
    find_rule(rules, e.from) is Some && find_rule(rules, e.to) is Some
}

/// The end of `e` that names no loaded rule; its source end first.
pub open spec fn unresolved_name(rules: Seq<RuleView>, e: EdgeView) -> Seq<char> {
    if find_rule(rules, e.from) is None {
        e.from
    } else {
        e.to
    }
}

/// Edge `i` is the first of `edges` with an end that names no loaded rule.
pub open spec fn first_unresolved(rules: Seq<RuleView>, edges: Seq<EdgeView>, i: int) -> bool {
    &&& !edge_resolves(rules, edges[i])
    &&& forall|j: int| 0 <= j < i ==> edge_resolves(rules, #[trigger] edges[j])
}

/// A seed rule that does not instantiate under `env`.
pub open spec fn seed_fails(r: RuleView, env: Seq<(Seq<char>, Seq<char>)>) -> bool {
    r.groups.contains(seed_group()) && instantiate_spec(r, env) is Err
}

/// Rule `i` is the first of `rules` that is a seed and fails to instantiate.
pub open spec fn first_failing_seed(
    rules: Seq<RuleView>,
    env: Seq<(Seq<char>, Seq<char>)>,
    i: int,
) -> bool {
    &&& seed_fails(rules[i], env)
    &&& forall|j: int| 0 <= j < i ==> !seed_fails(#[trigger] rules[j], env)
}

impl RuleStore {
    /// No rule is listed twice in the global worklist.
    pub open spec fn worklist_unique(&self) -> bool {
        rules_view(self.global_rules@).no_duplicates()
    }

    /// The rules that firing `name` triggers under `env`, each with its scope.
    pub open spec fn next_spec(&self, name: Seq<char>, env: Seq<(Seq<char>, Seq<char>)>) -> Seq<
        (Scope, RuleView),
    > {
        next_from(
            edges_view(self.edges@),
            rules_view(self.rules_by_name@),
            name,
            env,
            self.rules_by_name@.len() as nat,
            0,
        )
    }

    fn collect_next(&self, name: &Vec<char>, env: &Env, fuel: usize, out: &mut Vec<(Scope, Rule)>)
        ensures
            next_view(final(out)@) == next_view(old(out)@) + next_from(
                edges_view(self.edges@),
                rules_view(self.rules_by_name@),
                name@,
                env@,
                fuel as nat,
                0,
            ),
        decreases fuel,
    {
        let ghost ev = edges_view(self.edges@);
        let ghost rv = rules_view(self.rules_by_name@);
        let mut i: usize = 0;
        assert(next_view(out@) =~= next_view(old(out)@));
        while i < self.edges.len()
            invariant
                i <= self.edges@.len(),
                ev == edges_view(self.edges@),
                rv == rules_view(self.rules_by_name@),
                next_view(old(out)@) + next_from(ev, rv, name@, env@, fuel as nat, 0) == next_view(
                    out@,
                ) + next_from(ev, rv, name@, env@, fuel as nat, i as int),
            decreases self.edges@.len() - i,
        {
            let ghost before = next_view(out@);
            let ghost rest = next_from(ev, rv, name@, env@, fuel as nat, i + 1);
            let e = &self.edges[i];
            assert(ev[i as int] == e@);
            if text_eq(&e.from, name) {
                match find_rule_index(&self.rules_by_name, &e.to) {
                    None => {},
                    Some(k) => {
                        let t = &self.rules_by_name[k];
                        if t.is_dummy() {
                            if fuel > 0 {
                                self.collect_next(&e.to, env, fuel - 1, out);
                                assert(next_view(out@) + rest =~= before + (next_from(
                                    ev,
                                    rv,
                                    e.to@,
                                    env@,
                                    (fuel - 1) as nat,
                                    0,
                                ) + rest));
                            }
                        } else {
                            match t.instantiate(env) {
                                Ok(x) => {
                                    let ghost xv = x@;
                                    out.push((e.scope, x));
                                    assert(next_view(out@) =~= before.push((e.scope, xv)));
                                    assert(next_view(out@) + rest =~= before + (seq![
                                        (e.scope, xv),
                                    ] + rest));
                                },
                                Err(_) => {},
                            }
                        }
                    },
                }
            }
            i = i + 1;
        }
    }

    /// The rules that firing `rule_name` triggers, instantiated under
    /// `tag_matches`, each with the scope it runs in. A dummy target is
    /// expanded into the rules that it triggers, each under its own edge's
    /// scope.
    pub fn get_next(&self, rule_name: &Vec<char>, tag_matches: &Env) -> (r: NextRules)
        ensures
            r@ == self.next_spec(rule_name@, tag_matches@),
    {
        let mut entries: Vec<(Scope, Rule)> = Vec::new();
        self.collect_next(rule_name, tag_matches, self.rules_by_name.len(), &mut entries);
        assert(next_view(entries@) =~= self.next_spec(rule_name@, tag_matches@));
        NextRules { entries }
    }

    /// Whether the worklist holds a rule equal to `r`.
    fn has_global_rule(&self, r: &Rule) -> (b: bool)
        ensures
            b == rules_view(self.global_rules@).contains(r@),
    {
        let mut i: usize = 0;
        while i < self.global_rules.len()
            invariant
                i <= self.global_rules@.len(),
                forall|j: int| 0 <= j < i ==> (#[trigger] self.global_rules@[j])@ != r@,
            decreases self.global_rules@.len() - i,
        {
            if self.global_rules[i].same_as(r) {
                assert(rules_view(self.global_rules@)[i as int] == r@);
                return true;
            }
            i = i + 1;
        }
        assert(!rules_view(self.global_rules@).contains(r@)) by {
            if rules_view(self.global_rules@).contains(r@) {
                let k = choose|k: int|
                    0 <= k < rules_view(self.global_rules@).len() && rules_view(
                        self.global_rules@,
                    )[k] == r@;
                assert(self.global_rules@[k]@ == r@);
            }
        }
        false
    }

    /// Instantiates `rule` under `tag_captures` and appends it to the global
    /// worklist, unless instantiation fails or an equal rule is there.
    pub fn add_to_global_rules(&mut self, rule: &Rule, tag_captures: &Env)
        ensures
            rules_view(final(self).global_rules@) == add_global(
                rules_view(old(self).global_rules@),
                rule@,
                tag_captures@,
            ),
            final(self).rules_by_name == old(self).rules_by_name,
            final(self).edges == old(self).edges,
            final(self).scopes == old(self).scopes,
            final(self).piranha_args == old(self).piranha_args,
            final(self).global_tags == old(self).global_tags,
            old(self).worklist_unique() ==> final(self).worklist_unique(),
    {
        proof {
            if old(self).worklist_unique() {
                lemma_offered_rule_listed_once(
                    rules_view(old(self).global_rules@),
                    rule@,
                    tag_captures@,
                );
            }
        }
        if let Ok(r) = rule.instantiate(tag_captures) {
            if !self.has_global_rule(&r) {
                let ghost before = self.global_rules@;
                let ghost rv = r@;
                self.global_rules.push(r);
                assert(rules_view(self.global_rules@) =~= rules_view(before).push(rv));
            }
        }
    }

    /// Merges into the global tags each binding of `new_entries` whose tag
    /// has the global prefix and is not bound yet.
    pub fn add_global_tags(&mut self, new_entries: &Env)
        ensures
            final(self).global_tags@ == absorb(
                old(self).global_tags@,
                new_entries@,
                old(self).piranha_args.global_tag_prefix@,
            ),
            final(self).rules_by_name == old(self).rules_by_name,
            final(self).edges == old(self).edges,
            final(self).scopes == old(self).scopes,
            final(self).piranha_args == old(self).piranha_args,
            final(self).global_rules == old(self).global_rules,
    {
        let ghost prefix = self.piranha_args.global_tag_prefix@;
        let ghost all = new_entries@;
        let mut i: usize = 0;
        assert(all.subrange(0, all.len() as int) =~= all);
        while i < new_entries.entries.len()
            invariant
                i <= all.len(),
                all == new_entries@,
                prefix == self.piranha_args.global_tag_prefix@,
                absorb(old(self).global_tags@, all, prefix) == absorb(
                    self.global_tags@,
                    all.subrange(i as int, all.len() as int),
                    prefix,
                ),
                self.rules_by_name == old(self).rules_by_name,
                self.edges == old(self).edges,
                self.scopes == old(self).scopes,
                self.piranha_args == old(self).piranha_args,
                self.global_rules == old(self).global_rules,
            decreases all.len() - i,
        {
            assert(all.subrange(i as int, all.len() as int).drop_first() =~= all.subrange(
                i + 1,
                all.len() as int,
            ));
            let tag = &new_entries.entries[i].0;
            if starts_with(tag, &self.piranha_args.global_tag_prefix) && self.global_tags.get(
                tag,
            ).is_none() {
                self.global_tags.push(copy_text(tag), copy_text(&new_entries.entries[i].1));
            }
            i = i + 1;
        }
        assert(absorb(self.global_tags@, all.subrange(all.len() as int, all.len() as int), prefix)
            == self.global_tags@);
    }

    /// The substitutions every instantiation sees: the input substitutions,
    /// then the global tags; earlier bindings win.
    pub fn default_substitutions(&self) -> (r: Env)
        ensures
            r@ == self.piranha_args.input_substitutions@ + self.global_tags@,
    {
        self.piranha_args.input_substitutions.layered(&self.global_tags)
    }

    /// The scope queries configured for `scope_level`; empty if none.
    pub fn get_scope_query_generators(&self, scope_level: &Vec<char>) -> (r: Vec<
        ScopeQueryGenerator,
    >)
        ensures
            sqgs_view(r@) == scope_queries(self.scopes@, scope_level@),
    {
        let ghost all = self.scopes@;
        let mut i: usize = 0;
        assert(all.subrange(0, all.len() as int) =~= all);
        while i < self.scopes.len()
            invariant
                i <= all.len(),
                all == self.scopes@,
                scope_queries(all, scope_level@) == scope_queries(
                    all.subrange(i as int, all.len() as int),
                    scope_level@,
                ),
            decreases all.len() - i,
        {
            assert(all.subrange(i as int, all.len() as int).drop_first() =~= all.subrange(
                i + 1,
                all.len() as int,
            ));
            if text_eq(&self.scopes[i].name, scope_level) {
                let src = &self.scopes[i].rules;
                let mut r: Vec<ScopeQueryGenerator> = Vec::new();
                let mut j: usize = 0;
                while j < src.len()
                    invariant
                        j <= src@.len(),
                        r@.len() == j,
                        forall|k: int| 0 <= k < j ==> sqg_view(#[trigger] r@[k]) == sqg_view(src@[k]),
                    decreases src@.len() - j,
                {
                    r.push(
                        ScopeQueryGenerator {
                            enclosing_node: copy_text(&src[j].enclosing_node),
                            scope: copy_text(&src[j].scope),
                        },
                    );
                    j = j + 1;
                }
                assert(sqgs_view(r@) =~= sqgs_view(src@));
                return r;
            }
            i = i + 1;
        }
        let r: Vec<ScopeQueryGenerator> = Vec::new();
        assert(sqgs_view(r@) =~= Seq::<(Seq<char>, Seq<char>)>::empty());
        r
    }

    /// The global part of a propagation: each rule that the firing triggered
    /// in global scope is offered to the worklist under `captures`, then the
    /// captured global tags are absorbed.
    pub fn propagate_globals(&mut self, next: &NextRules, captures: &Env)
        ensures
            rules_view(final(self).global_rules@) == offer_all(
                rules_view(old(self).global_rules@),
                in_scope(next@, Scope::Global),
                captures@,
            ),
            final(self).global_tags@ == absorb(
                old(self).global_tags@,
                captures@,
                old(self).piranha_args.global_tag_prefix@,
            ),
            final(self).rules_by_name == old(self).rules_by_name,
            final(self).edges == old(self).edges,
            final(self).scopes == old(self).scopes,
            final(self).piranha_args == old(self).piranha_args,
            old(self).worklist_unique() ==> final(self).worklist_unique(),
    {
        let globals = next.rules_for(Scope::Global);
        let ghost gv = rules_view(globals@);
        let mut i: usize = 0;
        assert(gv.subrange(0, 0) =~= Seq::<RuleView>::empty());
        while i < globals.len()
            invariant
                i <= globals@.len(),
                gv == rules_view(globals@),
                gv == in_scope(next@, Scope::Global),
                rules_view(self.global_rules@) == offer_all(
                    rules_view(old(self).global_rules@),
                    gv.subrange(0, i as int),
                    captures@,
                ),
                self.global_tags == old(self).global_tags,
                self.rules_by_name == old(self).rules_by_name,
                self.edges == old(self).edges,
                self.scopes == old(self).scopes,
                self.piranha_args == old(self).piranha_args,
                old(self).worklist_unique() ==> self.worklist_unique(),
            decreases globals@.len() - i,
        {
            assert(gv.subrange(0, i + 1).drop_last() =~= gv.subrange(0, i as int));
            assert(gv.subrange(0, i + 1).last() == globals@[i as int]@);
            self.add_to_global_rules(&globals[i], captures);
            i = i + 1;
        }
        assert(gv.subrange(0, gv.len() as int) =~= gv);
        self.add_global_tags(captures);
    }

    /// A store over `rules`, the graph `edges` and `scopes`, whose worklist
    /// holds every seed rule instantiated under the input substitutions.
    /// Loading fails when an edge names a rule that is not loaded (the first
    /// such name, in edge order), or else when a seed rule leaves a hole
    /// unbound under the input substitutions (the first such rule).
    pub fn new(
        args: PiranhaArguments,
        rules: Vec<Rule>,
        edges: &Vec<OutgoingEdges>,
        scopes: Vec<ScopeGenerator>,
    ) -> (r: Result<RuleStore, ConfigError>)
        ensures
            r is Ok <==> (forall|i: int|
                0 <= i < flatten_edges(edges@).len() ==> edge_resolves(
                    rules_view(rules@),
                    #[trigger] flatten_edges(edges@)[i],
                )) && (forall|i: int|
                0 <= i < rules@.len() ==> !seed_fails(
                    #[trigger] rules_view(rules@)[i],
                    args.input_substitutions@,
                )),
            r matches Err(ConfigError::UnknownRule(n)) ==> exists|i: int|
                0 <= i < flatten_edges(edges@).len() && first_unresolved(
                    rules_view(rules@),
                    flatten_edges(edges@),
                    i,
                ) && n@ == unresolved_name(rules_view(rules@), #[trigger] flatten_edges(edges@)[i]),
            r matches Err(ConfigError::UnboundSeedHole(name, hole)) ==> (forall|i: int|
                0 <= i < flatten_edges(edges@).len() ==> edge_resolves(
                    rules_view(rules@),
                    #[trigger] flatten_edges(edges@)[i],
                )) && exists|i: int|
                0 <= i < rules@.len() && first_failing_seed(
                    rules_view(rules@),
                    args.input_substitutions@,
                    i,
                ) && name@ == (#[trigger] rules_view(rules@)[i]).name && instantiate_spec(
                    rules_view(rules@)[i],
                    args.input_substitutions@,
                ) == Err::<RuleView, Seq<char>>(hole@),
            r matches Ok(st) ==> {
                &&& st.rules_by_name == rules
                &&& edges_view(st.edges@) == flatten_edges(edges@)
                &&& st.scopes == scopes
                &&& st.piranha_args == args
                &&& st.global_tags@ == Seq::<(Seq<char>, Seq<char>)>::empty()
                &&& rules_view(st.global_rules@) == seed_worklist(
                    rules_view(rules@),
                    args.input_substitutions@,
                )
                &&& st.worklist_unique()
            },
    {
        let ghost rv = rules_view(rules@);
        let flat = flatten(edges);
        let ghost ev = edges_view(flat@);
        let mut k: usize = 0;
        while k < flat.len()
            invariant
                k <= flat@.len(),
                ev == edges_view(flat@),
                ev == flatten_edges(edges@),
                rv == rules_view(rules@),
                forall|j: int| 0 <= j < k ==> edge_resolves(rv, #[trigger] ev[j]),
            decreases flat@.len() - k,
        {
            assert(ev[k as int] == flat@[k as int]@);
            if find_rule_index(&rules, &flat[k].from).is_none() {
                assert(first_unresolved(rv, ev, k as int));
                return Err(ConfigError::UnknownRule(copy_text(&flat[k].from)));
            }
            if find_rule_index(&rules, &flat[k].to).is_none() {
                assert(first_unresolved(rv, ev, k as int));
                return Err(ConfigError::UnknownRule(copy_text(&flat[k].to)));
            }
            k = k + 1;
        }
        let env = args.input_substitutions.copy();
        let mut store = RuleStore {
            rules_by_name: rules,
            edges: flat,
            global_rules: Vec::new(),
            scopes,
            piranha_args: args,
            global_tags: Env::new(),
        };
        let mut i: usize = 0;
        assert(rules_view(store.global_rules@) =~= seed_worklist(rv.subrange(0, 0), env@));
        while i < store.rules_by_name.len()
            invariant
                i <= rules@.len(),
                rv == rules_view(rules@),
                env@ == args.input_substitutions@,
                store.rules_by_name == rules,
                edges_view(store.edges@) == flatten_edges(edges@),
                ev == flatten_edges(edges@),
                forall|j: int| 0 <= j < ev.len() ==> edge_resolves(rv, #[trigger] ev[j]),
                store.scopes == scopes,
                store.piranha_args == args,
                store.global_tags@ == Seq::<(Seq<char>, Seq<char>)>::empty(),
                rules_view(store.global_rules@) == seed_worklist(rv.subrange(0, i as int), env@),
                store.worklist_unique(),
                forall|j: int| 0 <= j < i ==> !seed_fails(#[trigger] rv[j], env@),
            decreases rules@.len() - i,
        {
            assert(rv.subrange(0, i + 1).drop_last() =~= rv.subrange(0, i as int));
            assert(rv.subrange(0, i + 1).last() == rules@[i as int]@);
            assert(rv[i as int] == rules@[i as int]@);
            if store.rules_by_name[i].is_seed_rule() {
                let r = store.rules_by_name[i].copy();
                match r.instantiate(&env) {
                    Err(h) => {
                        assert(first_failing_seed(rv, env@, i as int));
                        return Err(ConfigError::UnboundSeedHole(copy_text(&r.name), h));
                    },
                    Ok(_) => {},
                }
                store.add_to_global_rules(&r, &env);
            }
            i = i + 1;
        }
        assert(rv.subrange(0, rv.len() as int) =~= rv);
        Ok(store)
    }

    /// An empty store with the given scope generators.
    pub fn default_with_scopes(scopes: Vec<ScopeGenerator>) -> (r: RuleStore)
        ensures
            r.scopes == scopes,
            r.rules_by_name@.len() == 0,
            r.edges@.len() == 0,
            r.global_rules@.len() == 0,
            r.global_tags@.len() == 0,
            r.piranha_args.input_substitutions@.len() == 0,
            r.piranha_args.global_tag_prefix@ == default_global_prefix(),
    {
        RuleStore {
            rules_by_name: Vec::new(),
            edges: Vec::new(),
            global_rules: Vec::new(),
            scopes,
            piranha_args: PiranhaArguments::new(Env::new()),
            global_tags: Env::new(),
        }
    }
}

impl Default for RuleStore {
    /// An empty store.
    fn default() -> (r: RuleStore)
        ensures
            r.scopes@.len() == 0,
            r.rules_by_name@.len() == 0,
            r.edges@.len() == 0,
            r.global_rules@.len() == 0,
            r.global_tags@.len() == 0,
            r.piranha_args.input_substitutions@.len() == 0,
            r.piranha_args.global_tag_prefix@ == default_global_prefix(),
    {
        RuleStore::default_with_scopes(Vec::new())
    }
}

/// `r` put into the `seed` group.
pub open spec fn seeded(r: RuleView) -> RuleView {
    RuleView {
        groups: if r.groups.contains(seed_group()) {
            r.groups
        } else {
            r.groups.push(seed_group())
        },
        ..r
    }
}

/// The rules and graph entries of a run: the language's own, then the
/// input ones, with every input rule put into the `seed` group.
pub fn read_config_files(
    language_rules: Vec<Rule>,
    language_edges: Vec<OutgoingEdges>,
    input_rules: Vec<Rule>,
    input_edges: Vec<OutgoingEdges>,
) -> (r: (Vec<Rule>, Vec<OutgoingEdges>))
    ensures
        rules_view(r.0@) == rules_view(language_rules@) + rules_view(input_rules@).map_values(
            |x: RuleView| seeded(x),
        ),
        r.1@ == language_edges@ + input_edges@,
{
    let mut all_rules = language_rules;
    let ghost base = rules_view(all_rules@);
    let mut i: usize = 0;
    while i < input_rules.len()
        invariant
            i <= input_rules@.len(),
            rules_view(all_rules@) == base + rules_view(input_rules@).subrange(0, i as int).map_values(
                |x: RuleView| seeded(x),
            ),
        decreases input_rules@.len() - i,
    {
        let mut x = input_rules[i].copy();
        x.add_to_seed_rules_group();
        let ghost before = rules_view(all_rules@);
        let ghost xv = x@;
        all_rules.push(x);
        assert(rules_view(all_rules@) =~= before.push(xv));
        assert(xv =~= seeded(input_rules@[i as int]@));
        i = i + 1;
        assert(rules_view(input_rules@).subrange(0, i as int).map_values(|x: RuleView| seeded(x))
            =~= rules_view(input_rules@).subrange(0, i - 1).map_values(|x: RuleView| seeded(x)).push(
            xv,
        ));
        assert(rules_view(all_rules@) =~= base + rules_view(input_rules@).subrange(
            0,
            i as int,
        ).map_values(|x: RuleView| seeded(x)));
    }
    assert(rules_view(input_rules@).subrange(0, i as int) =~= rules_view(input_rules@));
    let mut all_edges = language_edges;
    let mut extra = input_edges;
    all_edges.append(&mut extra);
    (all_rules, all_edges)
}

proof fn lemma_contains_suffix(a: Seq<(Scope, RuleView)>, b: Seq<(Scope, RuleView)>, y: (Scope, RuleView))
    requires
        b.contains(y),
    ensures
        (a + b).contains(y),
{
    let j = choose|j: int| 0 <= j < b.len() && b[j] == y;
    assert((a + b)[a.len() + j] == y);
}

proof fn lemma_contains_prefix(a: Seq<(Scope, RuleView)>, b: Seq<(Scope, RuleView)>, y: (Scope, RuleView))
    requires
        a.contains(y),
    ensures
        (a + b).contains(y),
{
    let j = choose|j: int| 0 <= j < a.len() && a[j] == y;
    assert((a + b)[j] == y);
}

/// Once an edge `k` from `name` leads to a loaded rule that is no relay
/// and instantiates to `x`, the rules triggered through edges `i..`, for
/// any `i <= k`, hold `x` under that edge's scope.
proof fn lemma_next_from_direct(
    edges: Seq<EdgeView>,
    rules: Seq<RuleView>,
    name: Seq<char>,
    env: Seq<(Seq<char>, Seq<char>)>,
    fuel: nat,
    i: int,
    k: int,
    t: RuleView,
    x: RuleView,
)
    requires
        0 <= i <= k < edges.len(),
        edges[k].from == name,
        find_rule(rules, edges[k].to) == Some(t),
        !is_dummy_spec(t),
        instantiate_spec(t, env) == Ok::<RuleView, Seq<char>>(x),
    ensures
        next_from(edges, rules, name, env, fuel, i).contains((edges[k].scope, x)),
    decreases k - i,
{
    let y = (edges[k].scope, x);
    let rest = next_from(edges, rules, name, env, fuel, i + 1);
    if i == k {
        assert((seq![y] + rest)[0] == y);
    } else {
        lemma_next_from_direct(edges, rules, name, env, fuel, i + 1, k, t, x);
        let e = edges[i];
        if e.from == name {
            match find_rule(rules, e.to) {
                None => {},
                Some(u) => {
                    if is_dummy_spec(u) {
                        if fuel > 0 {
                            lemma_contains_suffix(
                                next_from(edges, rules, e.to, env, (fuel - 1) as nat, 0),
                                rest,
                                y,
                            );
                        }
                    } else {
                        match instantiate_spec(u, env) {
                            Ok(w) => lemma_contains_suffix(seq![(e.scope, w)], rest, y),
                            Err(_) => {},
                        }
                    }
                },
            }
        }
    }
}

/// Once an edge `k` from `name` leads to a relay whose own triggered rules
/// hold `y`, the rules triggered through edges `i..`, for any `i <= k`,
/// hold `y` too.
proof fn lemma_next_from_relay(
    edges: Seq<EdgeView>,
    rules: Seq<RuleView>,
    name: Seq<char>,
    env: Seq<(Seq<char>, Seq<char>)>,
    fuel: nat,
    i: int,
    k: int,
    d: RuleView,
    y: (Scope, RuleView),
)
    requires
        0 <= i <= k < edges.len(),
        fuel > 0,
        edges[k].from == name,
        find_rule(rules, edges[k].to) == Some(d),
        is_dummy_spec(d),
        next_from(edges, rules, edges[k].to, env, (fuel - 1) as nat, 0).contains(y),
    ensures
        next_from(edges, rules, name, env, fuel, i).contains(y),
    decreases k - i,
{
    let rest = next_from(edges, rules, name, env, fuel, i + 1);
    if i == k {
        lemma_contains_prefix(
            next_from(edges, rules, edges[k].to, env, (fuel - 1) as nat, 0),
            rest,
            y,
        );
    } else {
        lemma_next_from_relay(edges, rules, name, env, fuel, i + 1, k, d, y);
        let e = edges[i];
        if e.from == name {
            match find_rule(rules, e.to) {
                None => {},
                Some(u) => {
                    if is_dummy_spec(u) {
                        lemma_contains_suffix(
                            next_from(edges, rules, e.to, env, (fuel - 1) as nat, 0),
                            rest,
                            y,
                        );
                    } else {
                        match instantiate_spec(u, env) {
                            Ok(w) => lemma_contains_suffix(seq![(e.scope, w)], rest, y),
                            Err(_) => {},
                        }
                    }
                },
            }
        }
    }
}

proof fn lemma_in_scope_contains(s: Seq<(Scope, RuleView)>, scope: Scope, x: RuleView)
    requires
        s.contains((scope, x)),
    ensures
        in_scope(s, scope).contains(x),
    decreases s.len(),
{
    if s.last() == (scope, x) {
        assert(in_scope(s, scope).last() == x);
    } else {
        let j = choose|j: int| 0 <= j < s.len() && s[j] == (scope, x);
        assert(s.drop_last()[j] == (scope, x));
        lemma_in_scope_contains(s.drop_last(), scope, x);
        let m = choose|m: int|
            0 <= m < in_scope(s.drop_last(), scope).len() && in_scope(s.drop_last(), scope)[m] == x;
        if s.last().0 == scope {
            assert(in_scope(s, scope)[m] == x);
        }
    }
}

/// Relays are transparent: where rule `a` has an edge to a relay `d`, and
/// `d` an edge of scope `scope` to a rule `b` that is no relay and
/// instantiates under `env` to `x`, the rules that firing `a` triggers
/// under `env` hold `x` in `scope`.
pub proof fn lemma_dummy_transparency(
    store: RuleStore,
    a: Seq<char>,
    d: Seq<char>,
    b: Seq<char>,
    env: Seq<(Seq<char>, Seq<char>)>,
    k1: int,
    k2: int,
    scope: Scope,
    x: RuleView,
)
    requires
        0 <= k1 < store.edges@.len(),
        0 <= k2 < store.edges@.len(),
        store.edges@[k1]@.from == a,
        store.edges@[k1]@.to == d,
        store.edges@[k2]@.from == d,
        store.edges@[k2]@.to == b,
        store.edges@[k2]@.scope == scope,
        find_rule(rules_view(store.rules_by_name@), d) matches Some(dr) && is_dummy_spec(dr),
        find_rule(rules_view(store.rules_by_name@), b) matches Some(br) && !is_dummy_spec(br)
            && instantiate_spec(br, env) == Ok::<RuleView, Seq<char>>(x),
    ensures
        in_scope(store.next_spec(a, env), scope).contains(x),
{
    let ev = edges_view(store.edges@);
    let rv = rules_view(store.rules_by_name@);
    let fuel = store.rules_by_name@.len() as nat;
    let dr = find_rule(rv, d)->0;
    let br = find_rule(rv, b)->0;
    assert(ev[k1] == store.edges@[k1]@);
    assert(ev[k2] == store.edges@[k2]@);
    assert(fuel > 0);
    lemma_next_from_direct(ev, rv, d, env, (fuel - 1) as nat, 0, k2, br, x);
    lemma_next_from_relay(ev, rv, a, env, fuel, 0, k1, dr, (scope, x));
    lemma_in_scope_contains(store.next_spec(a, env), scope, x);
}

/// The global tags only grow: what was bound keeps its value, the old
/// bindings stay a prefix, and a tag that was unbound becomes bound exactly
/// when it has the global prefix and `new` binds it, to `new`'s value.
pub proof fn lemma_global_tags_monotonic(
    g: Seq<(Seq<char>, Seq<char>)>,
    new: Seq<(Seq<char>, Seq<char>)>,
    prefix: Seq<char>,
)
    ensures
        absorb(g, new, prefix).len() >= g.len(),
        absorb(g, new, prefix).subrange(0, g.len() as int) == g,
        forall|k: Seq<char>|
            #[trigger] lookup(absorb(g, new, prefix), k) == (if lookup(g, k) is Some {
                lookup(g, k)
            } else if has_prefix(k, prefix) {
                lookup(new, k)
            } else {
                None
            }),
    decreases new.len(),
{
    if new.len() == 0 {
        assert(g.subrange(0, g.len() as int) =~= g);
    } else {
        let e = new[0];
        let g2 = if has_prefix(e.0, prefix) && lookup(g, e.0) is None {
            g.push(e)
        } else {
            g
        };
        lemma_global_tags_monotonic(g2, new.drop_first(), prefix);
        let res = absorb(g, new, prefix);
        assert(res.subrange(0, g.len() as int) =~= g2.subrange(0, g.len() as int));
        assert(g2.subrange(0, g.len() as int) =~= g);
        assert forall|k: Seq<char>| #[trigger]
            lookup(res, k) == (if lookup(g, k) is Some {
                lookup(g, k)
            } else if has_prefix(k, prefix) {
                lookup(new, k)
            } else {
                None
            }) by {
            lemma_lookup_push(g, e, k);
            assert(lookup(res, k) == lookup(absorb(g2, new.drop_first(), prefix), k));
        }
    }
}

/// The worklist only grows: offering it a rule keeps it as a prefix, and
/// offering the same rule under the same tags again changes nothing, so a
/// rule is listed at most once however often it is offered.
pub proof fn lemma_global_rules_monotonic(
    g: Seq<RuleView>,
    r: RuleView,
    env: Seq<(Seq<char>, Seq<char>)>,
)
    ensures
        add_global(g, r, env).len() >= g.len(),
        add_global(g, r, env).subrange(0, g.len() as int) == g,
        add_global(add_global(g, r, env), r, env) == add_global(g, r, env),
{
    assert(g.subrange(0, g.len() as int) =~= g);
    if let Ok(x) = instantiate_spec(r, env) {
        if !g.contains(x) {
            assert(g.push(x)[g.len() as int] == x);
            assert(g.push(x).subrange(0, g.len() as int) =~= g);
        }
    }
}

/// Offering a rule to a worklist without repeats keeps it without repeats,
/// and its instantiation, when there is one, is then listed exactly once.
pub proof fn lemma_offered_rule_listed_once(
    g: Seq<RuleView>,
    r: RuleView,
    env: Seq<(Seq<char>, Seq<char>)>,
)
    requires
        g.no_duplicates(),
    ensures
        add_global(g, r, env).no_duplicates(),
        instantiate_spec(r, env) matches Ok(x) ==> add_global(g, r, env).contains(x) && forall|
            i: int,
            j: int,
        |
            0 <= i < add_global(g, r, env).len() && 0 <= j < add_global(g, r, env).len()
                && #[trigger] add_global(g, r, env)[i] == x && #[trigger] add_global(g, r, env)[j]
                == x ==> i == j,
{
    if let Ok(x) = instantiate_spec(r, env) {
        if g.contains(x) {
        } else {
            let s = g.push(x);
            assert(s[g.len() as int] == x);
            assert forall|i: int, j: int|
                0 <= i < s.len() && 0 <= j < s.len() && i != j implies s[i] != s[j] by {
                if i < g.len() && j < g.len() {
                    assert(s[i] == g[i] && s[j] == g[j]);
                } else if i < g.len() {
                    assert(s[i] == g[i]);
                } else if j < g.len() {
                    assert(s[j] == g[j]);
                }
            }
        }
    }
}

} // verus!
