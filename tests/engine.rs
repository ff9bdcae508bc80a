use piranha::cache::QueryCache;
use piranha::driver::{FileEvent, FileState, Propagation};
use piranha::edit::{edit_for_match, Edit, EditError, Match, Point, Range, SourceCodeUnit};
use piranha::matching::{resolve_scope, select_matches, Candidate};
use piranha::rule::{Filter, FilterKind, Rule};
use piranha::store::{
    read_config_files, ConfigError, OutgoingEdges, PiranhaArguments, RuleStore, Scope, ScopeGenerator,
    ScopeQueryGenerator,
};
use piranha::text::{substitute_text, Env};
use piranha::workflow::{CleanupWorkflow, Piranha, SeedWorkflow, Step, Summary};

fn t(s: &str) -> Vec<char> {
    s.chars().collect()
}

fn s(v: &[char]) -> String {
    v.iter().collect()
}

fn env(pairs: &[(&str, &str)]) -> Env {
    let mut e = Env::new();
    for (k, v) in pairs {
        e.push(t(k), t(v));
    }
    e
}

fn rule(name: &str, query: &str, replace: &str, holes: &[&str], groups: &[&str]) -> Rule {
    Rule {
        name: t(name),
        query: t(query),
        replace_node: t("n"),
        replace: t(replace),
        holes: holes.iter().map(|h| t(h)).collect(),
        groups: groups.iter().map(|g| t(g)).collect(),
        filters: Vec::new(),
        constraints: Vec::new(),
    }
}

fn span(a: usize, b: usize) -> Range {
    Range {
        start_offset: a,
        end_offset: b,
        start_point: Point { row: 0, column: a },
        end_point: Point { row: 0, column: b },
    }
}

fn store_of(rules: Vec<Rule>, edges: Vec<OutgoingEdges>, input: Env) -> RuleStore {
    RuleStore::new(PiranhaArguments::new(input), rules, &edges, Vec::new()).ok().unwrap()
}

fn entry(from: &str, to: &[&str], scope: Scope) -> OutgoingEdges {
    OutgoingEdges { from: t(from), to: to.iter().map(|x| t(x)).collect(), scope }
}

#[test]
fn substitutes_bound_holes_and_keeps_unbound() {
    let e = env(&[("x", "1")]);
    assert_eq!(s(&substitute_text(&t("foo(@x, @y)"), &e)), "foo(1, @y)");
}

#[test]
fn hole_name_is_longest_tag_run() {
    let e = env(&[("a", "A")]);
    assert_eq!(s(&substitute_text(&t("@ab @a.b @"), &e)), "@ab A.b @");
}

#[test]
fn earliest_binding_wins() {
    let e = env(&[("k", "first"), ("k", "second")]);
    assert_eq!(s(&e.get(&t("k")).unwrap()), "first");
    assert!(e.get(&t("z")).is_none());
    let layered = env(&[("k", "input")]).layered(&env(&[("k", "global"), ("g", "G")]));
    assert_eq!(s(&layered.get(&t("k")).unwrap()), "input");
    assert_eq!(s(&layered.get(&t("g")).unwrap()), "G");
}

#[test]
fn instantiate_renders_every_template() {
    let mut r = rule("r", "(call @name)", "@name()", &["name"], &[]);
    r.filters.push(Filter { kind: FilterKind::NotContains, query: t("(throw @name)") });
    let out = r.instantiate(&env(&[("name", "f")])).ok().unwrap();
    assert_eq!(s(&out.query), "(call f)");
    assert_eq!(s(&out.replace), "f()");
    assert_eq!(s(&out.filters[0].query), "(throw f)");
    assert_eq!(out.filters[0].kind, FilterKind::NotContains);
    assert_eq!(s(&out.name), "r");
    assert_eq!(s(&r.query), "(call @name)");
}

#[test]
fn instantiate_fails_on_first_unbound_hole() {
    let r = rule("r", "@a @b", "", &["a", "b"], &[]);
    let err = r.instantiate(&env(&[("b", "1")])).err().unwrap();
    assert_eq!(s(&err), "a");
    let err2 = r.instantiate(&env(&[("a", "1")])).err().unwrap();
    assert_eq!(s(&err2), "b");
}

#[test]
fn instantiate_is_deterministic() {
    let r = rule("r", "(x @v)", "@v", &["v"], &[]);
    let e = env(&[("v", "q")]);
    let a = r.instantiate(&e).ok().unwrap();
    let b = r.instantiate(&e).ok().unwrap();
    assert!(a.same_as(&b));
    assert_eq!(s(&a.query), "(x q)");
}

#[test]
fn dummy_and_seed_predicates() {
    assert!(rule("d", "", "", &[], &[]).is_dummy());
    assert!(!rule("d", "q", "", &[], &[]).is_dummy());
    let mut r = rule("r", "q", "", &[], &["other"]);
    assert!(!r.is_seed_rule());
    r.add_to_seed_rules_group();
    assert!(r.is_seed_rule());
    r.add_to_seed_rules_group();
    assert_eq!(r.groups.len(), 2);
}

#[test]
fn get_next_groups_by_scope_and_lists_every_scope() {
    let rules = vec![
        rule("a", "qa", "", &[], &[]),
        rule("b", "qb @x", "", &[], &[]),
        rule("c", "qc", "", &[], &[]),
    ];
    let store = store_of(rules, vec![entry("a", &["b"], Scope::Method), entry("a", &["c"], Scope::Parent)], Env::new());
    let next = store.get_next(&t("a"), &env(&[("x", "1")]));
    let m = next.rules_for(Scope::Method);
    assert_eq!(m.len(), 1);
    assert_eq!(s(&m[0].query), "qb 1");
    assert_eq!(next.rules_for(Scope::Parent).len(), 1);
    assert_eq!(next.rules_for(Scope::Global).len(), 0);
    assert_eq!(next.rules_for(Scope::Class).len(), 0);
}

#[test]
fn dummy_relay_is_transparent() {
    let rules = vec![
        rule("a", "qa", "", &[], &[]),
        rule("d", "", "", &[], &[]),
        rule("b", "(def @arg)", "", &["arg"], &[]),
    ];
    let store = store_of(
        rules,
        vec![entry("a", &["d"], Scope::Parent), entry("d", &["b"], Scope::Global)],
        Env::new(),
    );
    let next = store.get_next(&t("a"), &env(&[("arg", "foo")]));
    let g = next.rules_for(Scope::Global);
    assert_eq!(g.len(), 1);
    assert_eq!(s(&g[0].query), "(def foo)");
    assert_eq!(next.rules_for(Scope::Parent).len(), 0);
}

#[test]
fn chained_propagation_through_dummy() {
    let rules = vec![
        rule("find_call", "(call @arg)", "", &[], &["seed"]),
        rule("d", "", "", &[], &[]),
        rule("delete_def", "(def @arg)", "", &["arg"], &[]),
    ];
    let mut store = store_of(
        rules,
        vec![entry("find_call", &["d"], Scope::Parent), entry("d", &["delete_def"], Scope::Global)],
        Env::new(),
    );
    assert_eq!(store.global_rules.len(), 1);
    let caps = env(&[("arg", "X")]);
    for _ in 0..2 {
        let next = store.get_next(&t("find_call"), &caps);
        store.propagate_globals(&next, &caps);
    }
    assert_eq!(store.global_rules.len(), 2);
    assert_eq!(s(&store.global_rules[1].name), "delete_def");
    assert_eq!(s(&store.global_rules[1].query), "(def X)");
}

#[test]
fn global_dedup_compares_rendered_strings() {
    let mut store = store_of(Vec::new(), Vec::new(), Env::new());
    let r = rule("del", "(def @arg)", "", &["arg"], &[]);
    store.add_to_global_rules(&r, &env(&[("arg", "A")]));
    store.add_to_global_rules(&r, &env(&[("arg", "B")]));
    store.add_to_global_rules(&r, &env(&[("arg", "A")]));
    assert_eq!(store.global_rules.len(), 2);
    store.add_to_global_rules(&r, &Env::new());
    assert_eq!(store.global_rules.len(), 2);
}

#[test]
fn global_tags_only_grow() {
    let mut store = store_of(Vec::new(), Vec::new(), Env::new());
    store.add_global_tags(&env(&[("GLOBAL_a", "1"), ("local", "2")]));
    assert_eq!(store.global_tags.entries.len(), 1);
    store.add_global_tags(&env(&[("GLOBAL_a", "changed"), ("GLOBAL_b", "3")]));
    assert_eq!(s(&store.global_tags.get(&t("GLOBAL_a")).unwrap()), "1");
    assert_eq!(s(&store.global_tags.get(&t("GLOBAL_b")).unwrap()), "3");
    assert!(store.global_tags.get(&t("local")).is_none());
}

#[test]
fn default_substitutions_put_input_first() {
    let mut store = store_of(Vec::new(), Vec::new(), env(&[("GLOBAL_k", "input")]));
    store.add_global_tags(&env(&[("GLOBAL_k", "global"), ("GLOBAL_j", "j")]));
    let d = store.default_substitutions();
    assert_eq!(s(&d.get(&t("GLOBAL_k")).unwrap()), "input");
    assert_eq!(s(&d.get(&t("GLOBAL_j")).unwrap()), "j");
}

#[test]
fn seeds_enter_worklist_at_start() {
    let rules = vec![
        rule("s1", "(a @flag)", "", &["flag"], &["seed"]),
        rule("plain", "q", "", &[], &[]),
        rule("s2", "(b @flag)", "", &["flag"], &["seed"]),
        rule("s1", "(a @flag)", "", &["flag"], &["seed"]),
    ];
    let store = store_of(rules, Vec::new(), env(&[("flag", "F")]));
    assert_eq!(store.global_rules.len(), 2);
    assert_eq!(s(&store.global_rules[0].query), "(a F)");
    assert_eq!(s(&store.global_rules[1].query), "(b F)");
}

#[test]
fn config_marks_input_rules_as_seeds() {
    let (rules, edges) = read_config_files(
        vec![rule("lang", "q", "", &[], &[])],
        vec![entry("lang", &["x"], Scope::Parent)],
        vec![rule("input", "q", "", &[], &[])],
        vec![entry("input", &["lang"], Scope::Global)],
    );
    assert_eq!(rules.len(), 2);
    assert!(!rules[0].is_seed_rule());
    assert!(rules[1].is_seed_rule());
    assert_eq!(edges.len(), 2);
    assert_eq!(s(&edges[1].from), "input");
}

#[test]
fn scope_query_generators_by_level() {
    let gen = ScopeGenerator {
        name: t("Method"),
        rules: vec![ScopeQueryGenerator { enclosing_node: t("(method) @m"), scope: t("(m)") }],
    };
    let store = RuleStore::default_with_scopes(vec![gen]);
    let found = store.get_scope_query_generators(&t("Method"));
    assert_eq!(found.len(), 1);
    assert_eq!(s(&found[0].enclosing_node), "(method) @m");
    assert_eq!(store.get_scope_query_generators(&t("Class")).len(), 0);
    let empty = RuleStore::default();
    assert_eq!(empty.get_scope_query_generators(&t("Method")).len(), 0);
    assert_eq!(s(&empty.piranha_args.global_tag_prefix), "GLOBAL_");
}

#[test]
fn apply_edit_splices_and_reports_points() {
    let mut unit = SourceCodeUnit::new(t("a.java"), t("ab\ncd"), Env::new());
    let e = Edit::new(Match::new(span(3, 4), Env::new()), t("XY\nZ"), t("r"));
    let nr = unit.apply_edit(&e).unwrap();
    assert_eq!(s(&unit.code), "ab\nXY\nZd");
    assert_eq!(nr.start_offset, 3);
    assert_eq!(nr.end_offset, 7);
    assert_eq!(nr.start_point, Point { row: 1, column: 0 });
    assert_eq!(nr.end_point, Point { row: 2, column: 1 });
}

#[test]
fn apply_edit_rejects_out_of_range() {
    let mut unit = SourceCodeUnit::new(t("a"), t("abc"), Env::new());
    let bad = Edit::delete_range(span(2, 9));
    assert_eq!(unit.apply_edit(&bad).err(), Some(EditError::InvalidEditRange));
    let reversed = Edit::delete_range(span(2, 1));
    assert_eq!(unit.apply_edit(&reversed).err(), Some(EditError::InvalidEditRange));
    assert_eq!(s(&unit.code), "abc");
}

#[test]
fn delete_range_edit() {
    let e = Edit::delete_range(span(1, 2));
    assert_eq!(s(e.matched_rule()), "Delete Range");
    assert!(e.replacement_string().is_empty());
    assert_eq!(e.p_match().range, span(1, 2));
}

#[test]
fn unused_local_declaration_removed() {
    let before = "void m() {\n  int x = 1;\n  use(y);\n}\n";
    let start = before.find("  int x").unwrap();
    let end = before.find("  use(y)").unwrap();
    let mut unit = SourceCodeUnit::new(t("M.java"), t(before), Env::new());
    let nr = unit.apply_edit(&Edit::delete_range(span(start, end))).unwrap();
    assert_eq!(s(&unit.code), "void m() {\n  use(y);\n}\n");
    assert_eq!(nr.start_offset, nr.end_offset);
    assert_eq!(nr.start_point, Point { row: 1, column: 0 });
}

#[test]
fn stale_flag_always_true() {
    let src = "if (flags.get(\"X\")) { A; } else { B; }";
    let mut unit = SourceCodeUnit::new(t("F.java"), t(src), Env::new());
    let cond = src.find("flags").unwrap();
    let cond_end = src.find(")) {").unwrap() + 1;
    let flag_rule = rule("replace_flag", "(flag)", "@treated", &[], &[]);
    let m = Match::new(span(cond, cond_end), env(&[("stale_flag_name", "X")]));
    let e = edit_for_match(&flag_rule, &m, &env(&[("treated", "true")])).unwrap();
    unit.apply_edit(&e).unwrap();
    assert_eq!(s(&unit.code), "if (true) { A; } else { B; }");
    let simplify = rule("simplify_if_true", "(if)", "@body", &[], &[]);
    let all = span(0, unit.code.len());
    let m2 = Match::new(all, env(&[("body", "A;")]));
    let e2 = edit_for_match(&simplify, &m2, &Env::new()).unwrap();
    unit.apply_edit(&e2).unwrap();
    assert_eq!(s(&unit.code), "A;");
}

#[test]
fn match_only_rule_leaves_text() {
    let r = rule("find", "(for)", "", &[], &["seed"]);
    let text = "for (;;) {}";
    let unit = SourceCodeUnit::new(t("a"), t(text), Env::new());
    let m = Match::new(span(0, 3), Env::new());
    assert!(edit_for_match(&r, &m, &Env::new()).is_none());
    assert_eq!(s(&unit.code), text);
}

#[test]
fn replacement_sees_env_then_captures() {
    let r = rule("r", "q", "@a-@b", &[], &[]);
    let m = Match::new(span(0, 1), env(&[("a", "cap"), ("b", "B")]));
    let e = edit_for_match(&r, &m, &env(&[("a", "env")])).unwrap();
    assert_eq!(s(&e.replacement_string), "env-B");
    assert_eq!(s(&e.matched_rule), "r");
    assert_eq!(e.p_match.range, span(0, 1));
}

#[test]
fn filter_not_contains_drops_return_with_throw() {
    let mut r = rule("ret", "(return_statement) @r", "", &[], &[]);
    r.filters.push(Filter { kind: FilterKind::NotContains, query: t("(throw_statement)") });
    let cands = vec![
        Candidate { range: span(0, 10), captures: Env::new(), filter_hits: vec![1] },
        Candidate { range: span(20, 30), captures: Env::new(), filter_hits: vec![0] },
    ];
    let got = select_matches(&r, span(0, 100), &cands);
    assert_eq!(got.len(), 1);
    assert_eq!(got[0].range, span(20, 30));
}

#[test]
fn filter_contains_and_enclosing_need_a_hit() {
    let mut r = rule("r", "q", "", &[], &[]);
    r.filters.push(Filter { kind: FilterKind::Contains, query: t("a") });
    r.filters.push(Filter { kind: FilterKind::NotEnclosing, query: t("b") });
    let cands = vec![
        Candidate { range: span(0, 5), captures: Env::new(), filter_hits: vec![2, 0] },
        Candidate { range: span(5, 9), captures: Env::new(), filter_hits: vec![0, 0] },
        Candidate { range: span(9, 12), captures: Env::new(), filter_hits: vec![1, 1] },
    ];
    let got = select_matches(&r, span(0, 100), &cands);
    assert_eq!(got.len(), 1);
    assert_eq!(got[0].range, span(0, 5));
}

#[test]
fn matches_stay_within_scope_region() {
    let r = rule("r", "q", "", &[], &[]);
    let cands = vec![
        Candidate { range: span(0, 5), captures: Env::new(), filter_hits: vec![] },
        Candidate { range: span(10, 15), captures: Env::new(), filter_hits: vec![] },
        Candidate { range: span(18, 25), captures: Env::new(), filter_hits: vec![] },
    ];
    let got = select_matches(&r, span(8, 20), &cands);
    assert_eq!(got.len(), 1);
    assert_eq!(got[0].range, span(10, 15));
}

#[test]
fn constraint_tags_must_be_captured() {
    let mut r = rule("r", "q", "", &[], &[]);
    r.constraints.push(t("name"));
    let cands = vec![
        Candidate { range: span(0, 5), captures: env(&[("other", "1")]), filter_hits: vec![] },
        Candidate { range: span(6, 9), captures: env(&[("name", "n")]), filter_hits: vec![] },
    ];
    let got = select_matches(&r, span(0, 100), &cands);
    assert_eq!(got.len(), 1);
    assert_eq!(s(&got[0].captures.get(&t("name")).unwrap()), "n");
}

#[test]
fn scope_is_smallest_enclosing_or_whole_file() {
    let whole = span(0, 100);
    let cands = vec![span(0, 90), span(10, 40), span(20, 35), span(50, 60)];
    assert_eq!(resolve_scope(span(22, 30), &cands, whole), span(20, 35));
    assert_eq!(resolve_scope(span(12, 38), &cands, whole), span(10, 40));
    assert_eq!(resolve_scope(span(95, 99), &cands, whole), whole);
    let ties = vec![span(0, 10), span(5, 15)];
    assert_eq!(resolve_scope(span(6, 8), &ties, whole), span(0, 10));
}

fn summary(path: &str, before: &str, after: &str, n: usize) -> Summary {
    Summary {
        path: t(path),
        content_before: t(before),
        content_after: t(after),
        rewrites: (0..n).map(|i| Edit::delete_range(span(i, i))).collect(),
    }
}

#[test]
fn step_records_run() {
    let mut step = Step::new(PiranhaArguments::new(Env::new()));
    assert!(step.summaries.is_empty());
    assert!(step.apply(vec![summary("a", "x", "y", 1)]));
    assert_eq!(step.summaries.len(), 1);
    assert!(!step.apply(vec![summary("a", "y", "y", 0)]));
    let mut seed = SeedWorkflow { seed_step: Step::new(PiranhaArguments::new(Env::new())) };
    assert!(seed.apply(vec![summary("b", "1", "2", 2)]));
    assert_eq!(seed.seed_step.summaries.len(), 1);
}

#[test]
fn cleanup_applies_to_changed_files() {
    let c = CleanupWorkflow::from_summaries(&vec![
        summary("a", "x", "y", 1),
        summary("b", "same", "same", 0),
        summary("c", "p", "q", 1),
    ]);
    assert!(c.is_applicable(&t("1"), &t("2")));
    assert!(!c.is_applicable(&t("1"), &t("1")));
    assert!(c.apply_at_path(0));
    assert!(!c.apply_at_path(1));
    let paths: Vec<String> = c.apply().iter().map(|p| s(p)).collect();
    assert_eq!(paths, vec!["a".to_string(), "c".to_string()]);
}

#[test]
fn cleanup_rounds_merge_until_idle() {
    let seed = SeedWorkflow { seed_step: Step::new(PiranhaArguments::new(Env::new())) };
    let mut p = Piranha::new(seed, Vec::new());
    assert!(p.apply(vec![summary("a", "0", "1", 1), summary("b", "0", "0", 0)]));
    assert_eq!(p.summaries.len(), 1);
    assert!(p.apply(vec![summary("a", "1", "2", 2), summary("c", "5", "6", 1)]));
    assert_eq!(p.summaries.len(), 2);
    assert_eq!(s(&p.summaries[0].content_before), "0");
    assert_eq!(s(&p.summaries[0].content_after), "2");
    assert_eq!(p.summaries[0].rewrites.len(), 3);
    assert!(!p.apply(vec![summary("a", "2", "2", 0)]));
    assert_eq!(p.summaries.len(), 2);
    assert_eq!(p.summaries[0].rewrites.len(), 3);
}

#[test]
fn query_cache_compiles_each_text_once() {
    let calls = std::cell::Cell::new(0usize);
    let compile = |q: &Vec<char>| {
        calls.set(calls.get() + 1);
        q.len()
    };
    let mut cache: QueryCache<usize> = QueryCache::new();
    let a = cache.query(&t("(call)"), &compile);
    let b = cache.query(&t("(if_statement)"), &compile);
    let c = cache.query(&t("(call)"), &compile);
    assert_eq!(a, 0);
    assert_eq!(b, 1);
    assert_eq!(c, 0);
    assert_eq!(calls.get(), 2);
    assert_eq!(*cache.get(1), 14);
    assert_eq!(cache.entries.len(), 2);
}

#[test]
fn file_state_runs_to_fixpoint() {
    let mut st = FileState::Clean;
    for e in [
        FileEvent::EditApplied,
        FileEvent::EditApplied,
    ] {
        st = st.step(e);
    }
    assert_eq!(st, FileState::Dirty(2));
    st = st.step(FileEvent::LocalScanIdle);
    assert_eq!(st, FileState::LocalFixpointReached);
    st = st.step(FileEvent::GlobalsPropagated);
    assert_eq!(st, FileState::GlobalReseedPending);
    st = st.step(FileEvent::ScanEnded);
    assert_eq!(st, FileState::Clean);
    assert!(!st.is_final());
    st = st.step(FileEvent::ScanEnded);
    assert_eq!(st, FileState::Fixpoint);
    assert!(st.is_final());
    assert_eq!(st.step(FileEvent::EditApplied), FileState::Fixpoint);
    assert_eq!(FileState::Dirty(3).step(FileEvent::ParseFailed), FileState::Error);
    assert_eq!(FileState::Error.step(FileEvent::EditApplied), FileState::Error);
}

#[test]
fn edge_to_unknown_rule_is_config_error() {
    let rules = vec![rule("a", "q", "", &[], &[])];
    let edges = vec![entry("a", &["a", "b"], Scope::Parent)];
    let r = RuleStore::new(PiranhaArguments::new(Env::new()), rules, &edges, Vec::new());
    match r.err().unwrap() {
        ConfigError::UnknownRule(n) => assert_eq!(s(&n), "b"),
        other => panic!("unexpected {:?}", other),
    }
    let edges2 = vec![entry("ghost", &["a"], Scope::Global)];
    let r2 = RuleStore::new(PiranhaArguments::new(Env::new()), vec![rule("a", "q", "", &[], &[])], &edges2, Vec::new());
    match r2.err().unwrap() {
        ConfigError::UnknownRule(n) => assert_eq!(s(&n), "ghost"),
        other => panic!("unexpected {:?}", other),
    }
}

#[test]
fn seed_with_unbound_hole_is_config_error() {
    let rules = vec![
        rule("ok", "(a @flag)", "", &["flag"], &["seed"]),
        rule("bad", "(b @missing)", "", &["missing"], &["seed"]),
        rule("plain", "(c @missing)", "", &["missing"], &[]),
    ];
    let r = RuleStore::new(PiranhaArguments::new(env(&[("flag", "F")])), rules, &Vec::new(), Vec::new());
    match r.err().unwrap() {
        ConfigError::UnboundSeedHole(name, hole) => {
            assert_eq!(s(&name), "bad");
            assert_eq!(s(&hole), "missing");
        }
        other => panic!("unexpected {:?}", other),
    }
    let fine = vec![rule("plain", "(c @missing)", "", &["missing"], &[])];
    assert!(RuleStore::new(PiranhaArguments::new(Env::new()), fine, &Vec::new(), Vec::new()).is_ok());
}

#[test]
fn propagation_runs_parent_method_class_then_global() {
    let mut p = Propagation::start();
    assert_eq!(p, Propagation::Local(Scope::Parent));
    p = p.step(true);
    assert_eq!(p, Propagation::Local(Scope::Parent));
    p = p.step(false);
    assert_eq!(p, Propagation::Local(Scope::Method));
    p = p.step(false);
    assert_eq!(p, Propagation::Local(Scope::Class));
    p = p.step(true);
    assert_eq!(p, Propagation::Local(Scope::Class));
    p = p.step(false);
    assert_eq!(p, Propagation::Global);
    p = p.step(false);
    assert_eq!(p, Propagation::Finished);
}

#[test]
fn matches_keep_document_order() {
    let r = rule("r", "q", "", &[], &[]);
    let cands = vec![
        Candidate { range: span(1, 3), captures: Env::new(), filter_hits: vec![] },
        Candidate { range: span(4, 6), captures: Env::new(), filter_hits: vec![] },
        Candidate { range: span(7, 9), captures: Env::new(), filter_hits: vec![] },
    ];
    let got = select_matches(&r, span(0, 10), &cands);
    let starts: Vec<usize> = got.iter().map(|m| m.range.start_offset).collect();
    assert_eq!(starts, vec![1, 4, 7]);
}
