//! Matches, edits, and the source text that edits rewrite.
use vstd::prelude::*;

use crate::rule::Rule;
use crate::text::{append_text, copy_text, slice_text, substitute, substitute_text, Env};

verus! {

/// A row and column in a text; both count from zero.
#[derive(PartialEq, Eq, Structural, Clone, Copy, Debug)]
pub struct Point {
    pub row: usize,
    pub column: usize,
}

/// A span of a text. Offsets count characters, not bytes, from zero: a
/// byte-based parser's ranges are converted before they reach the library.
#[derive(PartialEq, Eq, Structural, Clone, Copy, Debug)]
pub struct Range {
    pub start_offset: usize,
    pub end_offset: usize,
    pub start_point: Point,
    pub end_point: Point,
}

/// Whether `outer` covers `inner`.
pub open spec fn encloses(outer: Range, inner: Range) -> bool {
    outer.start_offset <= inner.start_offset && inner.end_offset <= outer.end_offset
}

/// A located site in a source text with the tags captured there.
pub struct Match {
    pub range: Range,
    pub captures: Env,
}

impl Match {
    pub fn new(range: Range, captures: Env) -> (r: Match)
        ensures
            r.range == range,
            r.captures == captures,
    {
        Match { range, captures }
    }

    pub fn copy(&self) -> (r: Match)
        ensures
            r.range == self.range,
            r.captures@ == self.captures@,
    {
        Match { range: self.range, captures: self.captures.copy() }
    }
}

/// A replacement of the text under a match.
pub struct Edit {
    /// The match whose range is replaced.
    pub p_match: Match,
    /// The text put in its place.
    pub replacement_string: Vec<char>,
    /// The name of the rule that produced the edit.
    pub matched_rule: Vec<char>,
}

/// The rule name of a deletion that no rule produced.
pub open spec fn delete_range_name() -> Seq<char> {
    seq!['D', 'e', 'l', 'e', 't', 'e', ' ', 'R', 'a', 'n', 'g', 'e']
}

impl Edit {
    pub fn new(p_match: Match, replacement_string: Vec<char>, matched_rule: Vec<char>) -> (r: Edit)
        ensures
            r.p_match == p_match,
            r.replacement_string == replacement_string,
            r.matched_rule == matched_rule,
    {
        Edit { p_match, replacement_string, matched_rule }
    }

    /// An edit that deletes `replacement_range`.
    pub fn delete_range(replacement_range: Range) -> (r: Edit)
        ensures
            r.p_match.range == replacement_range,
            r.p_match.captures@.len() == 0,
            r.replacement_string@.len() == 0,
            r.matched_rule@ == delete_range_name(),
    {
        let name = vec!['D', 'e', 'l', 'e', 't', 'e', ' ', 'R', 'a', 'n', 'g', 'e'];
        assert(name@ =~= delete_range_name());
        Edit {
            p_match: Match::new(replacement_range, Env::new()),
            replacement_string: Vec::new(),
            matched_rule: name,
        }
    }

    pub fn p_match(&self) -> (r: &Match)
        ensures
            r == &self.p_match,
    {
        &self.p_match
    }

    pub fn replacement_string(&self) -> (r: &Vec<char>)
        ensures
            r == &self.replacement_string,
    {
        &self.replacement_string
    }

    pub fn matched_rule(&self) -> (r: &Vec<char>)
        ensures
            r == &self.matched_rule,
    {
        &self.matched_rule
    }
}

/// The edit that `rule` makes at `m`: its replacement rendered under `env`
/// and then the match's captures (earlier bindings win), or none for a
/// match-only rule, whose replacement is empty.
pub open spec fn edit_spec(rule_replace: Seq<char>, env: Seq<(Seq<char>, Seq<char>)>, captures: Seq<
    (Seq<char>, Seq<char>),
>) -> Option<Seq<char>> {
    if rule_replace.len() == 0 {
        None
    } else {
        Some(substitute(rule_replace, env + captures))
    }
}

/// The edit that `rule` makes at `m` under `env`; none for a match-only
/// rule.
pub fn edit_for_match(rule: &Rule, m: &Match, env: &Env) -> (r: Option<Edit>)
    ensures
        r is None <==> edit_spec(rule.replace@, env@, m.captures@) is None,
        r matches Some(e) ==> Some(e.replacement_string@) == edit_spec(
            rule.replace@,
            env@,
            m.captures@,
        ) && e.p_match.range == m.range && e.p_match.captures@ == m.captures@
            && e.matched_rule@ == rule.name@,
{
    if rule.replace.len() == 0 {
        None
    } else {
        let all = env.layered(&m.captures);
        let replacement = substitute_text(&rule.replace, &all);
        Some(Edit::new(m.copy(), replacement, copy_text(&rule.name)))
    }
}

/// The point just after the first `n` characters of `t`.
pub open spec fn point_at(t: Seq<char>, n: int) -> (nat, nat)
    decreases n,
{
    if n <= 0 {
        (0, 0)
    } else {
        let p = point_at(t, n - 1);
        if t[n - 1] == '\n' {
            ((p.0 + 1) as nat, 0)
        } else {
            (p.0, (p.1 + 1) as nat)
        }
    }
}

/// `t` with the characters from `s` up to `e` replaced by `x`.
pub open spec fn splice(t: Seq<char>, s: int, e: int, x: Seq<char>) -> Seq<char> {
    t.subrange(0, s) + x + t.subrange(e, t.len() as int)
}

/// The point after the first `n` characters of `t`.
pub fn point_of(t: &Vec<char>, n: usize) -> (r: Point)
    requires
        n <= t@.len(),
    ensures
        (r.row as nat, r.column as nat) == point_at(t@, n as int),
{
    let mut row: usize = 0;
    let mut column: usize = 0;
    let mut i: usize = 0;
    while i < n
        invariant
            i <= n <= t@.len(),
            row <= i,
            column <= i,
            (row as nat, column as nat) == point_at(t@, i as int),
        decreases n - i,
    {
        if t[i] == '\n' {
            row = row + 1;
            column = 0;
        } else {
            column = column + 1;
        }
        i = i + 1;
    }
    Point { row, column }
}

/// Why an edit could not be applied.
#[derive(PartialEq, Eq, Structural, Clone, Copy, Debug)]
pub enum EditError {
    /// The edit's range does not lie within the text.
    InvalidEditRange,
}

/// The text of one source file.
pub struct SourceCodeUnit {
    pub path: Vec<char>,
    pub code: Vec<char>,
    /// Tags bound for this file.
    pub substitutions: Env,
}

impl SourceCodeUnit {
    pub fn new(path: Vec<char>, code: Vec<char>, substitutions: Env) -> (r: SourceCodeUnit)
        ensures
            r.path == path,
            r.code == code,
            r.substitutions == substitutions,
    {
        SourceCodeUnit { path, code, substitutions }
    }

    /// Splices the edit's replacement into the text over the edit's range
    /// and returns the span of the inserted text. Fails, leaving the text
    /// as it was, when the range does not lie within the text.
    pub fn apply_edit(&mut self, edit: &Edit) -> (r: Result<Range, EditError>)
        ensures
            final(self).path == old(self).path,
            final(self).substitutions == old(self).substitutions,
            ({
                let s = edit.p_match.range.start_offset as int;
                let e = edit.p_match.range.end_offset as int;
                let x = edit.replacement_string@;
                let t = old(self).code@;
                if s <= e && e <= t.len() {
                    let nt = splice(t, s, e, x);
                    &&& final(self).code@ == nt
                    &&& r matches Ok(nr) && nr.start_offset == s && nr.end_offset == s + x.len() && (
                    nr.start_point.row as nat,
                    nr.start_point.column as nat,
                ) == point_at(nt, s) && (nr.end_point.row as nat, nr.end_point.column as nat)
                        == point_at(nt, s + x.len())
                } else {
                    &&& final(self).code@ == t
                    &&& r == Err::<Range, EditError>(EditError::InvalidEditRange)
                }
            }),
    {
        let s = edit.p_match.range.start_offset;
        let e = edit.p_match.range.end_offset;
        if s > e || e > self.code.len() {
            return Err(EditError::InvalidEditRange);
        }
        let mut nt = slice_text(&self.code, 0, s);
        append_text(&mut nt, &edit.replacement_string);
        let tail = slice_text(&self.code, e, self.code.len());
        append_text(&mut nt, &tail);
        let nl = nt.len();
        assert(nl == s + edit.replacement_string@.len() + (self.code@.len() - e));
        let end = s + edit.replacement_string.len();
        let start_point = point_of(&nt, s);
        let end_point = point_of(&nt, end);
        self.code = nt;
        Ok(Range { start_offset: s, end_offset: end, start_point, end_point })
    }
}

/// A rule whose replacement is empty makes no edit anywhere, so applying
/// what it produces leaves every text as it was.
pub proof fn lemma_match_only(
    rule_replace: Seq<char>,
    env: Seq<(Seq<char>, Seq<char>)>,
    captures: Seq<(Seq<char>, Seq<char>)>,
)
    requires
        rule_replace.len() == 0,
    ensures
        edit_spec(rule_replace, env, captures) is None,
{
}

} // verus!
