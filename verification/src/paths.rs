//! Relative paths as text: components run between forward slashes.

use vstd::prelude::*;
use vstd::string::StringExecFns;
use crate::text::from_chars;
use crate::text::to_chars;

verus! {

/// The position of the last `c` in `s`, or -1 where `s` holds none.
pub open spec fn last_index_of(s: Seq<char>, c: char) -> int
    decreases s.len(),
{
    if s.len() == 0 {
        -1
    } else if s.last() == c {
        s.len() - 1
    } else {
        last_index_of(s.drop_last(), c)
    }
}

/// [`last_index_of`] names an occurrence of `c` after which no other follows.
pub proof fn lemma_last_index_of(s: Seq<char>, c: char)
    ensures
        -1 <= last_index_of(s, c) < s.len(),
        last_index_of(s, c) >= 0 ==> s[last_index_of(s, c)] == c,
        forall|j: int| last_index_of(s, c) < j < s.len() ==> s[j] != c,
    decreases s.len(),
{
    if s.len() > 0 && s.last() != c {
        lemma_last_index_of(s.drop_last(), c);
        assert forall|j: int| last_index_of(s, c) < j < s.len() implies s[j] != c by {
            if j < s.len() - 1 {
                assert(s.drop_last()[j] == s[j]);
            }
        }
    }
}

/// A position that holds `c` with no `c` after it is the last index of `c`.
pub proof fn lemma_last_index_unique(s: Seq<char>, c: char, at: int)
    requires
        -1 <= at < s.len(),
        at >= 0 ==> s[at] == c,
        forall|j: int| at < j < s.len() ==> s[j] != c,
    ensures
        last_index_of(s, c) == at,
{
    lemma_last_index_of(s, c);
}

/// Where the last component of `path` begins.
pub open spec fn name_start(path: Seq<char>) -> int {
    last_index_of(path, '/') + 1
}

/// The directory that holds `path`; empty for a path of one component.
pub open spec fn parent_of(path: Seq<char>) -> Seq<char> {
    if last_index_of(path, '/') >= 0 {
        path.take(last_index_of(path, '/'))
    } else {
        Seq::empty()
    }
}

/// Where the extension of `path` begins, its dot included: at the last dot of the
/// last component, unless that dot is the component's first character. Where the
/// path has no extension this is the end of the path.
pub open spec fn extension_start(path: Seq<char>) -> int {
    if last_index_of(path, '.') > name_start(path) {
        last_index_of(path, '.')
    } else {
        path.len() as int
    }
}

/// The name under which the local version of a conflicting file is kept: the
/// path with `.conflict.<machine>.<stamp>` put in before its extension.
pub open spec fn conflict_path(path: Seq<char>, machine: Seq<char>, stamp: Seq<char>) -> Seq<char> {
    path.take(extension_start(path)) + ".conflict."@ + machine + "."@ + stamp + path.skip(
        extension_start(path),
    )
}

/// `dir` is a directory above `path`: what stands before one of its slashes.
pub open spec fn is_ancestor(dir: Seq<char>, path: Seq<char>) -> bool {
    exists|i: int| 0 < i < path.len() && path[i] == '/' && dir == #[trigger] path.take(i)
}

/// `rel` below `base`, with one slash between them unless `base` is empty or ends in one.
pub open spec fn joined(base: Seq<char>, rel: Seq<char>) -> Seq<char> {
    if base.len() == 0 {
        rel
    } else if base.last() == '/' {
        base + rel
    } else {
        base + "/"@ + rel
    }
}

/// A directory above another is shorter, and is not the root.
pub proof fn lemma_ancestor_is_shorter(dir: Seq<char>, path: Seq<char>)
    requires
        is_ancestor(dir, path),
    ensures
        0 < dir.len() < path.len(),
{
    let i = choose|i: int| 0 < i < path.len() && path[i] == '/' && dir == #[trigger] path.take(i);
    assert(dir.len() == i);
}

/// What is above a directory is above everything below it.
pub proof fn lemma_ancestor_of_ancestor(top: Seq<char>, dir: Seq<char>, path: Seq<char>)
    requires
        is_ancestor(top, dir),
        is_ancestor(dir, path),
    ensures
        is_ancestor(top, path),
{
    let j = choose|j: int| 0 < j < path.len() && path[j] == '/' && dir == #[trigger] path.take(j);
    let i = choose|i: int| 0 < i < dir.len() && dir[i] == '/' && top == #[trigger] dir.take(i);
    assert(dir.len() == j);
    assert(path[i] == dir[i]);
    assert(top =~= path.take(i));
}

/// The parent of a path is above it, unless the path lies in the root.
pub proof fn lemma_parent_is_nearest(path: Seq<char>)
    ensures
        parent_of(path).len() < path.len() || path.len() == 0,
        parent_of(path).len() > 0 ==> is_ancestor(parent_of(path), path),
        forall|dir: Seq<char>|
            is_ancestor(dir, path) ==> dir == parent_of(path) || #[trigger] is_ancestor(dir, parent_of(path)),
{
    lemma_last_index_of(path, '/');
    let k = last_index_of(path, '/');
    if k > 0 {
        assert(parent_of(path) == path.take(k));
    }
    assert forall|dir: Seq<char>| is_ancestor(dir, path) implies dir == parent_of(path) || #[trigger] is_ancestor(
        dir,
        parent_of(path),
    ) by {
        let i = choose|i: int| 0 < i < path.len() && path[i] == '/' && dir == #[trigger] path.take(i);
        assert(i <= k);
        if i < k {
            let parent = path.take(k);
            assert(parent[i] == '/');
            assert(dir =~= parent.take(i));
        }
    }
}

/// Of two directories above the same path, the shorter is above the longer.
pub proof fn lemma_ancestors_are_nested(near: Seq<char>, far: Seq<char>, path: Seq<char>)
    requires
        is_ancestor(near, path),
        is_ancestor(far, path),
        far.len() < near.len(),
    ensures
        is_ancestor(far, near),
{
    let j = choose|j: int| 0 < j < path.len() && path[j] == '/' && near == #[trigger] path.take(j);
    let i = choose|i: int| 0 < i < path.len() && path[i] == '/' && far == #[trigger] path.take(i);
    assert(near.len() == j && far.len() == i);
    assert(near[i] == path[i]);
    assert(far =~= near.take(i));
}

/// The directories above a path, listed from the longest to the shortest without a
/// gap, are the path's parent, that directory's parent, and so on up to a
/// directory that lies in the root.
pub proof fn lemma_nearest_first_is_parent_chain(path: Seq<char>, dirs: Seq<Seq<char>>)
    requires
        forall|k: int| 0 <= k < dirs.len() ==> is_ancestor(#[trigger] dirs[k], path),
        forall|k: int, l: int| 0 <= k < l < dirs.len() ==> dirs[k].len() > dirs[l].len(),
        forall|dir: Seq<char>| is_ancestor(dir, path) ==> exists|k: int| 0 <= k < dirs.len() && #[trigger] dirs[k] == dir,
    ensures
        dirs.len() == 0 <==> parent_of(path).len() == 0,
        dirs.len() > 0 ==> dirs[0] == parent_of(path),
        forall|k: int| 0 <= k < dirs.len() - 1 ==> #[trigger] dirs[k + 1] == parent_of(dirs[k]),
        dirs.len() > 0 ==> parent_of(dirs.last()).len() == 0,
{
    lemma_parent_is_nearest(path);
    let p = parent_of(path);
    if p.len() > 0 {
        let m = choose|m: int| 0 <= m < dirs.len() && #[trigger] dirs[m] == p;
        assert(is_ancestor(dirs[0], path));
        if dirs[0] != p {
            lemma_ancestor_is_shorter(dirs[0], p);
        }
    }
    if dirs.len() > 0 {
        assert(is_ancestor(dirs[0], path));
        if dirs[0] != p {
            lemma_ancestor_is_shorter(dirs[0], p);
        } else {
            lemma_ancestor_is_shorter(dirs[0], path);
        }
    }
    assert forall|k: int| 0 <= k < dirs.len() - 1 implies #[trigger] dirs[k + 1] == parent_of(dirs[k]) by {
        let near = dirs[k];
        let far = dirs[k + 1];
        let q = parent_of(near);
        assert(is_ancestor(near, path) && is_ancestor(far, path));
        lemma_ancestors_are_nested(near, far, path);
        lemma_parent_is_nearest(near);
        if far != q {
            lemma_ancestor_is_shorter(far, q);
            lemma_ancestor_of_ancestor(q, near, path);
            let m = choose|m: int| 0 <= m < dirs.len() && #[trigger] dirs[m] == q;
            if m <= k {
                if m < k {
                    assert(dirs[m].len() > dirs[k].len());
                }
            } else if m > k + 1 {
                assert(dirs[k + 1].len() > dirs[m].len());
            }
        }
    }
    if dirs.len() > 0 {
        let last = dirs.last();
        let q = parent_of(last);
        lemma_parent_is_nearest(last);
        if q.len() > 0 {
            assert(is_ancestor(last, path));
            lemma_ancestor_of_ancestor(q, last, path);
            let m = choose|m: int| 0 <= m < dirs.len() && #[trigger] dirs[m] == q;
            lemma_ancestor_is_shorter(q, last);
            if m < dirs.len() - 1 {
                assert(dirs[m].len() > dirs[dirs.len() - 1].len());
            }
        }
    }
}

/// The position of the last `c` in `chars`, if any.
pub fn find_last(chars: &[char], c: char) -> (at: Option<usize>)
    ensures
        match at {
            Some(i) => i == last_index_of(chars@, c) && i < chars@.len() && chars@[i as int] == c,
            None => last_index_of(chars@, c) == -1,
        },
{
    let mut i: usize = chars.len();
    while i > 0
        invariant
            i <= chars@.len(),
            forall|j: int| i <= j < chars@.len() ==> chars@[j] != c,
        decreases i,
    {
        i -= 1;
        if chars[i] == c {
            proof {
                lemma_last_index_unique(chars@, c, i as int);
            }
            return Some(i);
        }
    }
    proof {
        lemma_last_index_unique(chars@, c, -1);
    }
    None
}

/// The directory that holds `path`.
pub fn parent(path: &str) -> (dir: String)
    ensures
        dir@ == parent_of(path@),
{
    let chars = to_chars(path);
    match find_last(chars.as_slice(), '/') {
        Some(i) => from_chars(chars.as_slice(), 0, i),
        None => String::new(),
    }
}

/// The name of the conflict copy of `path` made on `machine` at the time `stamp`.
pub fn conflict_name(path: &str, machine: &str, stamp: &str) -> (name: String)
    ensures
        name@ == conflict_path(path@, machine@, stamp@),
{
    let chars = to_chars(path);
    let n = chars.len();
    let start: usize = match find_last(chars.as_slice(), '/') {
        Some(i) => i + 1,
        None => 0,
    };
    let cut: usize = match find_last(chars.as_slice(), '.') {
        Some(d) => if d > start {
            d
        } else {
            n
        },
        None => n,
    };
    assert(cut == extension_start(path@));
    let mut name = from_chars(chars.as_slice(), 0, cut);
    name.append(".conflict.");
    name.append(machine);
    name.append(".");
    name.append(stamp);
    let tail = from_chars(chars.as_slice(), cut, n);
    name.append(tail.as_str());
    name
}

/// `rel` below `base`.
pub fn join(base: &str, rel: &str) -> (path: String)
    ensures
        path@ == joined(base@, rel@),
{
    let chars = to_chars(base);
    let n = chars.len();
    if n == 0 {
        return rel.to_string();
    }
    let mut path = base.to_string();
    if chars[n - 1] != '/' {
        path.append("/");
    }
    path.append(rel);
    path
}

/// The directories above `path`, from the nearest to the farthest. The root itself,
/// which the empty path stands for, is not among them.
pub fn ancestor_dirs(path: &str) -> (dirs: Vec<String>)
    ensures
        forall|k: int| 0 <= k < dirs@.len() ==> is_ancestor(#[trigger] dirs@[k]@, path@),
        forall|k: int, l: int| 0 <= k < l < dirs@.len() ==> dirs@[k]@.len() > dirs@[l]@.len(),
        forall|dir: Seq<char>| is_ancestor(dir, path@) ==> exists|k: int| 0 <= k < dirs@.len() && #[trigger] dirs@[k]@ == dir,
        dirs@.len() > 0 ==> dirs@[0]@ == parent_of(path@),
        forall|k: int| 0 <= k < dirs@.len() - 1 ==> (#[trigger] dirs@[k + 1])@ == parent_of(dirs@[k]@),
        dirs@.len() > 0 ==> parent_of(dirs@.last()@).len() == 0,
{
    let chars = to_chars(path);
    let mut dirs: Vec<String> = Vec::new();
    let mut i: usize = chars.len();
    while i > 1
        invariant
            i <= chars@.len() || (i == 0 && chars@.len() == 0),
            chars@ == path@,
            forall|k: int| 0 <= k < dirs@.len() ==> is_ancestor(#[trigger] dirs@[k]@, path@),
            forall|k: int| 0 <= k < dirs@.len() ==> (#[trigger] dirs@[k])@.len() >= i,
            forall|k: int, l: int| 0 <= k < l < dirs@.len() ==> dirs@[k]@.len() > dirs@[l]@.len(),
            forall|j: int|
                i <= j < path@.len() && path@[j] == '/' ==> exists|k: int|
                    0 <= k < dirs@.len() && #[trigger] dirs@[k]@ == path@.take(j),
        decreases i,
    {
        i -= 1;
        if chars[i] == '/' {
            let dir = from_chars(chars.as_slice(), 0, i);
            assert(dir@ == path@.take(i as int));
            let ghost before = dirs@;
            dirs.push(dir);
            assert forall|j: int| i <= j < path@.len() && path@[j] == '/' implies exists|k: int|
                0 <= k < dirs@.len() && #[trigger] dirs@[k]@ == path@.take(j) by {
                if j == i {
                    assert(dirs@[before.len() as int]@ == path@.take(j));
                } else {
                    let k = choose|k: int| 0 <= k < before.len() && #[trigger] before[k]@ == path@.take(j);
                    assert(dirs@[k]@ == path@.take(j));
                }
            }
        }
    }
    assert forall|dir: Seq<char>| is_ancestor(dir, path@) implies exists|k: int|
        0 <= k < dirs@.len() && #[trigger] dirs@[k]@ == dir by {
        let j = choose|j: int| 0 < j < path@.len() && path@[j] == '/' && dir == #[trigger] path@.take(j);
        assert(i <= j);
    }
    proof {
        let texts = dirs@.map_values(|s: String| s@);
        assert forall|dir: Seq<char>| is_ancestor(dir, path@) implies exists|k: int|
            0 <= k < texts.len() && #[trigger] texts[k] == dir by {
            let k = choose|k: int| 0 <= k < dirs@.len() && #[trigger] dirs@[k]@ == dir;
            assert(texts[k] == dir);
        }
        lemma_nearest_first_is_parent_chain(path@, texts);
        assert forall|k: int| 0 <= k < dirs@.len() - 1 implies (#[trigger] dirs@[k + 1])@ == parent_of(
            dirs@[k]@,
        ) by {
            assert(texts[k + 1] == parent_of(texts[k]));
        }
    }
    dirs
}

} // verus!
