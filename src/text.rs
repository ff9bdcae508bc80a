//! Text values, tag environments and template substitution.
use vstd::prelude::*;

verus! {

/// A tag environment: an ordered list of `(tag, value)` bindings.
/// When a tag is bound more than once, the earliest binding wins, so
/// layering environments is concatenation.
pub struct Env {
    pub entries: Vec<(Vec<char>, Vec<char>)>,
}

pub open spec fn pair_view(p: (Vec<char>, Vec<char>)) -> (Seq<char>, Seq<char>) {
    (p.0@, p.1@)
}

impl View for Env {
    type V = Seq<(Seq<char>, Seq<char>)>;

    open spec fn view(&self) -> Seq<(Seq<char>, Seq<char>)> {
        self.entries@.map_values(|p: (Vec<char>, Vec<char>)| pair_view(p))
    }
}

/// The value bound to `key`: the first binding of `key` in `env`.
pub open spec fn lookup(env: Seq<(Seq<char>, Seq<char>)>, key: Seq<char>) -> Option<Seq<char>>
    decreases env.len(),
{
    if env.len() == 0 {
        None
    } else if env[0].0 == key {
        Some(env[0].1)
    } else {
        lookup(env.drop_first(), key)
    }
}

/// The tags bound in `env`, as a map.
pub open spec fn env_map(env: Seq<(Seq<char>, Seq<char>)>) -> Map<Seq<char>, Seq<char>> {
    Map::new(|k: Seq<char>| lookup(env, k) is Some, |k: Seq<char>| lookup(env, k)->0)
}

/// A character that may appear in a tag name after `@`.
pub open spec fn is_tag_char(c: char) -> bool {
    ('a' <= c && c <= 'z') || ('A' <= c && c <= 'Z') || ('0' <= c && c <= '9') || c == '_'
}

/// The number of leading tag characters of `t`.
pub open spec fn tag_len(t: Seq<char>) -> nat
    decreases t.len(),
{
    if t.len() > 0 && is_tag_char(t[0]) {
        1 + tag_len(t.drop_first())
    } else {
        0
    }
}

/// `t` with each `@name` hole whose `name` is bound in `env` replaced by its
/// value. A hole's name is the longest run of tag characters after `@`;
/// unbound holes are kept as they are.
pub open spec fn substitute(t: Seq<char>, env: Seq<(Seq<char>, Seq<char>)>) -> Seq<char>
    decreases t.len(),
    via substitute_decreases
{
    if t.len() == 0 {
        Seq::empty()
    } else if t[0] == '@' && tag_len(t.drop_first()) > 0 {
        let n = tag_len(t.drop_first());
        let name = t.subrange(1, 1 + n as int);
        let rest = t.subrange(1 + n as int, t.len() as int);
        match lookup(env, name) {
            Some(v) => v + substitute(rest, env),
            None => name.insert(0, '@') + substitute(rest, env),
        }
    } else {
        seq![t[0]] + substitute(t.drop_first(), env)
    }
}

/// A run of tag characters is no longer than the text it starts.
pub proof fn lemma_tag_len_bound(t: Seq<char>)
    ensures
        tag_len(t) <= t.len(),
    decreases t.len(),
{
    if t.len() > 0 && is_tag_char(t[0]) {
        lemma_tag_len_bound(t.drop_first());
    }
}

#[via_fn]
proof fn substitute_decreases(t: Seq<char>, env: Seq<(Seq<char>, Seq<char>)>) {
    if t.len() > 0 {
        lemma_tag_len_bound(t.drop_first());
    }
}

/// Appending a binding changes only the tags that were unbound.
pub proof fn lemma_lookup_push(
    g: Seq<(Seq<char>, Seq<char>)>,
    e: (Seq<char>, Seq<char>),
    k: Seq<char>,
)
    ensures
        lookup(g.push(e), k) == (if lookup(g, k) is Some {
            lookup(g, k)
        } else if e.0 == k {
            Some(e.1)
        } else {
            None
        }),
    decreases g.len(),
{
    if g.len() > 0 {
        assert(g.push(e).drop_first() =~= g.drop_first().push(e));
        assert(g.push(e)[0] == g[0]);
        lemma_lookup_push(g.drop_first(), e, k);
    } else {
        assert(g.push(e).drop_first() =~= Seq::<(Seq<char>, Seq<char>)>::empty());
        assert(g.push(e)[0] == e);
        assert(lookup(g.push(e).drop_first(), k) is None);
    }
}

/// Substitution reads an environment only through what it binds.
pub proof fn lemma_substitute_bindings(
    t: Seq<char>,
    e1: Seq<(Seq<char>, Seq<char>)>,
    e2: Seq<(Seq<char>, Seq<char>)>,
)
    requires
        forall|k: Seq<char>| lookup(e1, k) == lookup(e2, k),
    ensures
        substitute(t, e1) == substitute(t, e2),
    decreases t.len(),
{
    if t.len() > 0 {
        lemma_tag_len_bound(t.drop_first());
        if t[0] == '@' && tag_len(t.drop_first()) > 0 {
            let n = tag_len(t.drop_first());
            lemma_substitute_bindings(t.subrange(1 + n as int, t.len() as int), e1, e2);
        } else {
            lemma_substitute_bindings(t.drop_first(), e1, e2);
        }
    }
}

/// A copy of `t`.
pub fn copy_text(t: &Vec<char>) -> (r: Vec<char>)
    ensures
        r@ == t@,
{
    let r = t.clone();
    assert(r@ =~= t@);
    r
}

/// Whether two texts are equal.
pub fn text_eq(a: &Vec<char>, b: &Vec<char>) -> (r: bool)
    ensures
        r == (a@ == b@),
{
    if a.len() != b.len() {
        return false;
    }
    let mut i: usize = 0;
    while i < a.len()
        invariant
            a@.len() == b@.len(),
            i <= a@.len(),
            forall|j: int| 0 <= j < i ==> a@[j] == b@[j],
        decreases a@.len() - i,
    {
        if a[i] != b[i] {
            return false;
        }
        i = i + 1;
    }
    assert(a@ =~= b@);
    true
}

/// Whether `p` is a prefix of `t`.
pub fn starts_with(t: &Vec<char>, p: &Vec<char>) -> (r: bool)
    ensures
        r == (p@.len() <= t@.len() && t@.subrange(0, p@.len() as int) == p@),
{
    if p.len() > t.len() {
        return false;
    }
    let mut i: usize = 0;
    while i < p.len()
        invariant
            p@.len() <= t@.len(),
            i <= p@.len(),
            forall|j: int| 0 <= j < i ==> t@[j] == p@[j],
        decreases p@.len() - i,
    {
        if t[i] != p[i] {
            return false;
        }
        i = i + 1;
    }
    assert(t@.subrange(0, p@.len() as int) =~= p@);
    true
}

/// Whether `c` may appear in a tag name.
pub fn tag_char(c: char) -> (r: bool)
    ensures
        r == is_tag_char(c),
{
    ('a' <= c && c <= 'z') || ('A' <= c && c <= 'Z') || ('0' <= c && c <= '9') || c == '_'
}

/// Appends `s` to `out`.
pub fn append_text(out: &mut Vec<char>, s: &Vec<char>)
    ensures
        final(out)@ == old(out)@ + s@,
{
    let mut i: usize = 0;
    while i < s.len()
        invariant
            i <= s@.len(),
            out@ == old(out)@ + s@.subrange(0, i as int),
        decreases s@.len() - i,
    {
        out.push(s[i]);
        i = i + 1;
        assert(out@ =~= old(out)@ + s@.subrange(0, i as int));
    }
    assert(s@.subrange(0, s@.len() as int) =~= s@);
}

/// The characters of `t` from `lo` up to `hi`.
pub fn slice_text(t: &Vec<char>, lo: usize, hi: usize) -> (r: Vec<char>)
    requires
        lo <= hi <= t@.len(),
    ensures
        r@ == t@.subrange(lo as int, hi as int),
{
    let mut r: Vec<char> = Vec::new();
    let mut i: usize = lo;
    while i < hi
        invariant
            lo <= i <= hi <= t@.len(),
            r@ == t@.subrange(lo as int, i as int),
        decreases hi - i,
    {
        r.push(t[i]);
        i = i + 1;
        assert(r@ =~= t@.subrange(lo as int, i as int));
    }
    r
}

/// The template `t` with every bound `@name` hole replaced by its value
/// in `env`.
pub fn substitute_text(t: &Vec<char>, env: &Env) -> (r: Vec<char>)
    ensures
        r@ == substitute(t@, env@),
{
    let mut out: Vec<char> = Vec::new();
    let mut i: usize = 0;
    let ghost len = t@.len() as int;
    assert(t@.subrange(0, len) =~= t@);
    assert(out@ + substitute(t@, env@) =~= substitute(t@, env@));
    while i < t.len()
        invariant
            i <= len,
            len == t@.len(),
            substitute(t@, env@) == out@ + substitute(t@.subrange(i as int, len), env@),
        decreases len - i,
    {
        let ghost cur = t@.subrange(i as int, len);
        assert(cur.drop_first() =~= t@.subrange(i + 1, len));
        let mut j: usize = i + 1;
        if t[i] == '@' {
            assert(t@.subrange(i + 1, len) =~= t@.subrange(j as int, len));
            while j < t.len() && tag_char(t[j])
                invariant
                    i + 1 <= j <= len,
                    len == t@.len(),
                    tag_len(t@.subrange(i + 1, len)) == (j - (i + 1)) + tag_len(
                        t@.subrange(j as int, len),
                    ),
                decreases len - j,
            {
                assert(t@.subrange(j as int, len).drop_first() =~= t@.subrange(j + 1, len));
                j = j + 1;
            }
        }
        if j > i + 1 {
            let ghost n = tag_len(cur.drop_first());
            assert(n == j - (i + 1));
            assert(cur.subrange(1, 1 + n as int) =~= t@.subrange(i + 1, j as int));
            assert(cur.subrange(1 + n as int, cur.len() as int) =~= t@.subrange(j as int, len));
            let name = slice_text(t, i + 1, j);
            match env.get(&name) {
                Some(v) => {
                    append_text(&mut out, &v);
                },
                None => {
                    out.push('@');
                    append_text(&mut out, &name);
                    assert(seq!['@'] + name@ =~= name@.insert(0, '@'));
                },
            }
            i = j;
        } else {
            out.push(t[i]);
            i = i + 1;
        }
        assert(substitute(t@, env@) =~= out@ + substitute(t@.subrange(i as int, len), env@));
    }
    assert(out@ + substitute(t@.subrange(len, len), env@) =~= out@);
    out
}

impl Env {
    /// An environment with no bindings.
    pub fn new() -> (r: Env)
        ensures
            r@ == Seq::<(Seq<char>, Seq<char>)>::empty(),
    {
        let r = Env { entries: Vec::new() };
        assert(r@ =~= Seq::<(Seq<char>, Seq<char>)>::empty());
        r
    }

    /// Appends a binding; it takes effect only where `tag` was not bound.
    pub fn push(&mut self, tag: Vec<char>, value: Vec<char>)
        ensures
            final(self)@ == old(self)@.push((tag@, value@)),
    {
        self.entries.push((tag, value));
        assert(self@ =~= old(self)@.push((tag@, value@)));
    }

    /// The value bound to `key`.
    pub fn get(&self, key: &Vec<char>) -> (r: Option<Vec<char>>)
        ensures
            r matches Some(v) ==> lookup(self@, key@) == Some(v@),
            r is None ==> lookup(self@, key@) is None,
    {
        let mut i: usize = 0;
        assert(self@.subrange(0, self@.len() as int) =~= self@);
        while i < self.entries.len()
            invariant
                i <= self@.len(),
                self@.len() == self.entries@.len(),
                lookup(self@, key@) == lookup(self@.subrange(i as int, self@.len() as int), key@),
            decreases self@.len() - i,
        {
            let ghost rest = self@.subrange(i as int, self@.len() as int);
            assert(rest.drop_first() =~= self@.subrange(i + 1, self@.len() as int));
            assert(rest[0] == pair_view(self.entries@[i as int]));
            if text_eq(&self.entries[i].0, key) {
                return Some(copy_text(&self.entries[i].1));
            }
            i = i + 1;
        }
        None
    }

    /// A copy of this environment.
    pub fn copy(&self) -> (r: Env)
        ensures
            r@ == self@,
    {
        let mut entries: Vec<(Vec<char>, Vec<char>)> = Vec::new();
        let mut i: usize = 0;
        while i < self.entries.len()
            invariant
                i <= self.entries@.len(),
                entries@.len() == i,
                forall|j: int| 0 <= j < i ==> pair_view(#[trigger] entries@[j]) == self@[j],
            decreases self.entries@.len() - i,
        {
            entries.push((copy_text(&self.entries[i].0), copy_text(&self.entries[i].1)));
            i = i + 1;
        }
        let r = Env { entries };
        assert(r@ =~= self@);
        r
    }

    /// This environment layered over `other`: bindings of `self` win.
    pub fn layered(&self, other: &Env) -> (r: Env)
        ensures
            r@ == self@ + other@,
    {
        let mut r = self.copy();
        let mut i: usize = 0;
        while i < other.entries.len()
            invariant
                i <= other.entries@.len(),
                r@ == self@ + other@.subrange(0, i as int),
            decreases other.entries@.len() - i,
        {
            r.push(copy_text(&other.entries[i].0), copy_text(&other.entries[i].1));
            i = i + 1;
            assert(r@ =~= self@ + other@.subrange(0, i as int));
        }
        assert(other@.subrange(0, other@.len() as int) =~= other@);
        r
    }
}

} // verus!
