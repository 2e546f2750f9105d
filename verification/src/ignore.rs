//! Ignore patterns: which relative paths a scan leaves out.

use vstd::prelude::*;
use crate::text::has_char;
use crate::text::is_prefix;
use crate::text::to_chars;
use crate::text::contains_char;

verus! {

/// Whether the glob `pattern` matches all of `text`: `*` stands for any run of
/// characters, the empty one included, `?` for exactly one character, and every
/// other character for itself.
pub open spec fn glob_matches(text: Seq<char>, pattern: Seq<char>) -> bool
    decreases pattern.len(), text.len(),
{
    if pattern.len() == 0 {
        text.len() == 0
    } else if pattern[0] == '*' {
        glob_matches(text, pattern.drop_first()) || (text.len() > 0 && glob_matches(
            text.drop_first(),
            pattern,
        ))
    } else if text.len() == 0 {
        false
    } else if pattern[0] == '?' || pattern[0] == text[0] {
        glob_matches(text.drop_first(), pattern.drop_first())
    } else {
        false
    }
}

/// The path with every backslash turned into a forward slash.
pub open spec fn normalized(path: Seq<char>) -> Seq<char> {
    path.map_values(|c: char| if c == '\\' { '/' } else { c })
}

/// `path[from..to]` is one component of `path`: a non-empty run of characters
/// without a slash that a slash or an end of the path bounds on either side.
pub open spec fn is_component(path: Seq<char>, from: int, to: int) -> bool {
    &&& 0 <= from < to <= path.len()
    &&& (from == 0 || path[from - 1] == '/')
    &&& (to == path.len() || path[to] == '/')
    &&& forall|i: int| from <= i < to ==> path[i] != '/'
}

/// Whether some component of `path` matches the name pattern `pattern`.
pub open spec fn name_pattern_ignores(pattern: Seq<char>, path: Seq<char>) -> bool {
    exists|from: int, to: int| #[trigger]
        is_component(path, from, to) && glob_matches(path.subrange(from, to), pattern)
}

/// Whether the path pattern `pattern` matches `path` itself or names a directory above it.
pub open spec fn path_pattern_ignores(pattern: Seq<char>, path: Seq<char>) -> bool {
    glob_matches(path, pattern) || is_prefix(pattern.push('/'), path)
}

/// Whether one pattern excludes the normalized path `path`. A pattern with a slash
/// in it is a path pattern, any other a name pattern.
pub open spec fn pattern_ignores(pattern: Seq<char>, path: Seq<char>) -> bool {
    if has_char(pattern, '/') {
        path_pattern_ignores(pattern, path)
    } else {
        name_pattern_ignores(pattern, path)
    }
}

/// Whether any of `patterns` excludes `path`, once its separators are normalized.
pub open spec fn ignores(patterns: Seq<Seq<char>>, path: Seq<char>) -> bool {
    exists|i: int| 0 <= i < patterns.len() && #[trigger] pattern_ignores(patterns[i], normalized(path))
}

/// A leading `*` matches some prefix of the text, and the rest of the pattern what is left.
pub proof fn lemma_star_splits(text: Seq<char>, pattern: Seq<char>)
    requires
        pattern.len() > 0,
        pattern[0] == '*',
    ensures
        glob_matches(text, pattern) <==> exists|k: int|
            0 <= k <= text.len() && #[trigger] glob_matches(text.skip(k), pattern.drop_first()),
    decreases text.len(),
{
    let rest = pattern.drop_first();
    let splits = |x: Seq<char>| exists|k: int| 0 <= k <= x.len() && #[trigger] glob_matches(x.skip(k), rest);
    assert(text.skip(0) =~= text);
    if text.len() > 0 {
        let tail = text.drop_first();
        lemma_star_splits(tail, pattern);
        if glob_matches(text, pattern) {
            if glob_matches(text, rest) {
                assert(glob_matches(text.skip(0), rest));
            } else {
                assert(glob_matches(tail, pattern));
                let k = choose|k: int| 0 <= k <= tail.len() && #[trigger] glob_matches(tail.skip(k), rest);
                assert(tail.skip(k) =~= text.skip(k + 1));
                assert(glob_matches(text.skip(k + 1), rest));
            }
            assert(splits(text));
        }
        if splits(text) {
            let k = choose|k: int| 0 <= k <= text.len() && #[trigger] glob_matches(text.skip(k), rest);
            if k > 0 {
                assert(tail.skip(k - 1) =~= text.skip(k));
                assert(glob_matches(tail.skip(k - 1), rest));
                assert(glob_matches(tail, pattern));
            }
            assert(glob_matches(text, pattern));
        }
    } else {
        if glob_matches(text, pattern) {
            assert(glob_matches(text.skip(0), rest));
        }
        if splits(text) {
            let k = choose|k: int| 0 <= k <= text.len() && #[trigger] glob_matches(text.skip(k), rest);
            assert(k == 0);
        }
    }
}

/// The pattern `*` matches every text.
pub proof fn lemma_star_matches_everything(text: Seq<char>)
    ensures
        glob_matches(text, seq!['*']),
    decreases text.len(),
{
    let p = seq!['*'];
    assert(p.len() == 1 && p[0] == '*');
    assert(p.drop_first() =~= Seq::<char>::empty());
    if text.len() > 0 {
        lemma_star_matches_everything(text.drop_first());
    } else {
        assert(glob_matches(text, p.drop_first()));
    }
}

/// A pattern without wildcards matches its own text and no other.
pub proof fn lemma_literal_pattern(text: Seq<char>, pattern: Seq<char>)
    requires
        !has_char(pattern, '*'),
        !has_char(pattern, '?'),
    ensures
        glob_matches(text, pattern) <==> text == pattern,
    decreases pattern.len(),
{
    if pattern.len() == 0 {
        assert(text.len() == 0 ==> text =~= pattern);
    } else {
        assert(pattern[0] != '*' && pattern[0] != '?');
        if text.len() > 0 {
            let rest = pattern.drop_first();
            assert forall|i: int| 0 <= i < rest.len() implies rest[i] != '*' && rest[i] != '?' by {
                assert(rest[i] == pattern[i + 1]);
            }
            lemma_literal_pattern(text.drop_first(), rest);
            if text[0] == pattern[0] && text.drop_first() == rest {
                assert(text =~= seq![text[0]] + text.drop_first());
                assert(pattern =~= seq![pattern[0]] + rest);
            }
        }
    }
}

/// Every path below a directory that a path pattern names is excluded.
pub proof fn lemma_path_pattern_prunes_subtree(patterns: Seq<Seq<char>>, i: int, rest: Seq<char>)
    requires
        0 <= i < patterns.len(),
        has_char(patterns[i], '/'),
        !has_char(patterns[i], '\\'),
        !has_char(rest, '\\'),
    ensures
        ignores(patterns, patterns[i].push('/') + rest),
{
    let p = patterns[i];
    let path = p.push('/') + rest;
    assert forall|j: int| 0 <= j < path.len() implies path[j] != '\\' by {
        if j < p.len() {
            assert(path[j] == p[j]);
        } else if j > p.len() {
            assert(path[j] == rest[j - p.len() - 1]);
        }
    }
    assert(normalized(path) =~= path);
    assert(path.subrange(0, p.push('/').len() as int) =~= p.push('/'));
    assert(pattern_ignores(patterns[i], normalized(path)));
}

/// The ordered list of patterns that decides which relative paths a scan leaves out.
pub struct IgnoreMatcher {
    patterns: Vec<Vec<char>>,
}

impl View for IgnoreMatcher {
    type V = Seq<Seq<char>>;

    closed spec fn view(&self) -> Seq<Seq<char>> {
        self.patterns@.map_values(|p: Vec<char>| p@)
    }
}

impl IgnoreMatcher {
    /// A matcher over `patterns`, in the order given.
    pub fn new(patterns: &[String]) -> (m: Self)
        ensures
            m@ == patterns@.map_values(|p: String| p@),
    {
        let mut stored: Vec<Vec<char>> = Vec::new();
        let mut i: usize = 0;
        while i < patterns.len()
            invariant
                i <= patterns@.len(),
                stored@.len() == i,
                forall|j: int| 0 <= j < i ==> (#[trigger] stored@[j])@ == patterns@[j]@,
            decreases patterns@.len() - i,
        {
            stored.push(to_chars(patterns[i].as_str()));
            i += 1;
        }
        let m = IgnoreMatcher { patterns: stored };
        assert(m@ =~= patterns@.map_values(|p: String| p@));
        m
    }

    /// Whether the scan leaves `rel_path` out: true if any pattern excludes it.
    pub fn is_ignored(&self, rel_path: &str) -> (ignored: bool)
        ensures
            ignored == ignores(self@, rel_path@),
    {
        let path = normalize(rel_path);
        let mut i: usize = 0;
        while i < self.patterns.len()
            invariant
                i <= self.patterns@.len(),
                path@ == normalized(rel_path@),
                self@.len() == self.patterns@.len(),
                forall|j: int| 0 <= j < self.patterns@.len() ==> (#[trigger] self@[j]) == self.patterns@[j]@,
                forall|j: int| 0 <= j < i ==> !pattern_ignores(#[trigger] self@[j], path@),
            decreases self.patterns@.len() - i,
        {
            let pattern = &self.patterns[i];
            assert(pattern@ == self@[i as int]);
            let hit = if contains_char(pattern.as_slice(), '/') {
                Self::matches_path_pattern(path.as_slice(), pattern.as_slice())
            } else {
                Self::matches_name_pattern(path.as_slice(), pattern.as_slice())
            };
            assert(hit == pattern_ignores(self@[i as int], path@));
            if hit {
                return true;
            }
            i += 1;
        }
        false
    }

    /// Whether the path pattern `pattern` matches the whole of `path` or is followed
    /// in it by a slash.
    fn matches_path_pattern(path: &[char], pattern: &[char]) -> (hit: bool)
        ensures
            hit == path_pattern_ignores(pattern@, path@),
    {
        if Self::matches_pattern(path, 0, path.len(), pattern) {
            assert(path@.subrange(0, path@.len() as int) =~= path@);
            return true;
        }
        assert(path@.subrange(0, path@.len() as int) =~= path@);
        let n = pattern.len();
        let ghost pre = pattern@.push('/');
        assert(pre.len() == n + 1);
        if n >= path.len() {
            return false;
        }
        let mut i: usize = 0;
        while i < n
            invariant
                i <= n,
                n == pattern@.len(),
                n < path@.len(),
                pre == pattern@.push('/'),
                !glob_matches(path@, pattern@),
                forall|j: int| 0 <= j < i ==> path@[j] == pattern@[j],
            decreases n - i,
        {
            if path[i] != pattern[i] {
                assert(path@.subrange(0, pre.len() as int)[i as int] == path@[i as int]);
                assert(pre[i as int] == pattern@[i as int]);
                return false;
            }
            i += 1;
        }
        if path[n] == '/' {
            assert(path@.subrange(0, pre.len() as int) =~= pre);
            true
        } else {
            assert(path@.subrange(0, pre.len() as int)[n as int] == path@[n as int]);
            assert(pre[n as int] == '/');
            false
        }
    }

    /// Whether some component of `path` matches the name pattern `pattern`.
    fn matches_name_pattern(path: &[char], pattern: &[char]) -> (hit: bool)
        ensures
            hit == name_pattern_ignores(pattern@, path@),
    {
        let n = path.len();
        let mut start: usize = 0;
        let mut i: usize = 0;
        while i < n
            invariant
                start <= i <= n,
                n == path@.len(),
                start == 0 || path@[start - 1] == '/',
                forall|j: int| start <= j < i ==> path@[j] != '/',
                forall|f: int, t: int| #[trigger]
                    is_component(path@, f, t) && t < start ==> !glob_matches(path@.subrange(f, t), pattern@),
            decreases n - i,
        {
            if path[i] == '/' {
                if start < i {
                    assert(is_component(path@, start as int, i as int));
                    if Self::matches_pattern(path, start, i, pattern) {
                        return true;
                    }
                }
                assert forall|f: int, t: int| #[trigger]
                    is_component(path@, f, t) && t < i + 1 implies !glob_matches(
                    path@.subrange(f, t),
                    pattern@,
                ) by {
                    if t >= start {
                        lemma_component_at(path@, start as int, i as int, f, t);
                    }
                }
                start = i + 1;
            }
            i += 1;
        }
        if start < n {
            assert(is_component(path@, start as int, n as int));
            if Self::matches_pattern(path, start, n, pattern) {
                return true;
            }
        }
        assert forall|f: int, t: int| #[trigger]
            is_component(path@, f, t) implies !glob_matches(path@.subrange(f, t), pattern@) by {
            if t >= start {
                lemma_component_at(path@, start as int, n as int, f, t);
            }
        }
        false
    }

    /// Whether `pattern` matches the name `text[from..to]`.
    fn matches_pattern(text: &[char], from: usize, to: usize, pattern: &[char]) -> (hit: bool)
        requires
            from <= to <= text@.len(),
        ensures
            hit == glob_matches(text@.subrange(from as int, to as int), pattern@),
    {
        Self::glob_match(text, from, to, pattern)
    }

    /// Whether the glob `pattern` matches `text[from..to]`.
    fn glob_match(text: &[char], from: usize, to: usize, pattern: &[char]) -> (hit: bool)
        requires
            from <= to <= text@.len(),
        ensures
            hit == glob_matches(text@.subrange(from as int, to as int), pattern@),
    {
        assert(pattern@.skip(0) =~= pattern@);
        Self::glob_match_recursive(text, from, to, pattern, 0)
    }

    /// Whether the rest of the pattern, from `at` on, matches `text[from..to]`. At a `*`
    /// it tries every split of the text in turn.
    fn glob_match_recursive(text: &[char], from: usize, to: usize, pattern: &[char], at: usize) -> (hit: bool)
        requires
            from <= to <= text@.len(),
            at <= pattern@.len(),
        ensures
            hit == glob_matches(text@.subrange(from as int, to as int), pattern@.skip(at as int)),
        decreases pattern@.len() - at, to - from,
    {
        let ghost t = text@.subrange(from as int, to as int);
        let ghost p = pattern@.skip(at as int);
        let plen = pattern.len();
        if at == plen {
            return from == to;
        }
        assert(p[0] == pattern@[at as int]);
        assert(p.drop_first() =~= pattern@.skip(at + 1));
        if pattern[at] == '*' {
            proof {
                lemma_star_splits(t, p);
            }
            let mut i: usize = from;
            loop
                invariant
                    from <= i <= to,
                    from <= to <= text@.len(),
                    at < plen,
                    plen == pattern@.len(),
                    t == text@.subrange(from as int, to as int),
                    p == pattern@.skip(at as int),
                    p.drop_first() == pattern@.skip(at + 1),
                    glob_matches(t, p) <==> exists|k: int|
                        0 <= k <= t.len() && #[trigger] glob_matches(t.skip(k), p.drop_first()),
                    forall|k: int| 0 <= k < i - from ==> !#[trigger] glob_matches(t.skip(k), p.drop_first()),
                decreases to - i,
            {
                assert(t.skip(i - from) =~= text@.subrange(i as int, to as int));
                if Self::glob_match_recursive(text, i, to, pattern, at + 1) {
                    assert(glob_matches(t.skip(i - from), p.drop_first()));
                    return true;
                }
                if i == to {
                    assert(t.len() == to - from);
                    assert(!glob_matches(t.skip(i - from), p.drop_first()));
                    return false;
                }
                i += 1;
            }
        } else if from == to {
            false
        } else if pattern[at] == '?' || pattern[at] == text[from] {
            assert(t[0] == text@[from as int]);
            assert(t.drop_first() =~= text@.subrange(from + 1, to as int));
            Self::glob_match_recursive(text, from + 1, to, pattern, at + 1)
        } else {
            assert(t[0] == text@[from as int]);
            false
        }
    }
}

/// The characters of `path` with every backslash turned into a forward slash.
fn normalize(path: &str) -> (out: Vec<char>)
    ensures
        out@ == normalized(path@),
{
    let chars = to_chars(path);
    let mut out: Vec<char> = Vec::new();
    let mut i: usize = 0;
    while i < chars.len()
        invariant
            i <= chars@.len(),
            chars@ == path@,
            out@.len() == i,
            forall|j: int| 0 <= j < i ==> out@[j] == normalized(path@)[j],
        decreases chars@.len() - i,
    {
        let c = chars[i];
        if c == '\\' {
            out.push('/');
        } else {
            out.push(c);
        }
        i += 1;
    }
    assert(out@ =~= normalized(path@));
    out
}

/// A component that ends at or after `start` is the run `path[start..end]`, where no
/// slash lies in that run and a slash or the end of the path follows it.
proof fn lemma_component_at(path: Seq<char>, start: int, end: int, f: int, t: int)
    requires
        0 <= start <= end <= path.len(),
        start == 0 || path[start - 1] == '/',
        end == path.len() || path[end] == '/',
        forall|j: int| start <= j < end ==> path[j] != '/',
        is_component(path, f, t),
        start <= t <= end,
    ensures
        f == start,
        t == end,
        start < end,
{
    if t < end {
        assert(path[t] == '/');
    }
    if f < start {
        assert(path[start - 1] != '/');
    }
    if f > start {
        assert(path[f - 1] == '/');
    }
}

} // verus!
