//! Import paths: where the file named by an import directive lies.
//!
//! Paths are text with `/` between components. The directory of a file is
//! its path without the last component; an empty component (a doubled or
//! closing `/`) and a component `.` behind the start say nothing and are
//! passed over. A relative import is joined to the directory of the file
//! that holds the directive, never to the directory the process happens
//! to run in.

use vstd::prelude::*;

verus! {

/// Whether `path` starts at the root.
pub open spec fn is_absolute(path: Seq<char>) -> bool {
    path.len() > 0 && path[0] == '/'
}

/// Whether `path` starts with the component `.`, which is kept there.
pub open spec fn has_cur_dir(path: Seq<char>) -> bool {
    !is_absolute(path) && path.len() > 0 && path[0] == '.' && (path.len() == 1 || path[1] == '/')
}

/// Where the components that can be removed begin: behind a leading `/`
/// or a leading `.`.
pub open spec fn body_start(path: Seq<char>) -> int {
    if is_absolute(path) || has_cur_dir(path) {
        1
    } else {
        0
    }
}

/// Where the last segment of the first `end` characters begins: behind
/// the last `/` at or after `base`, or at `base`.
pub open spec fn segment_start(path: Seq<char>, base: int, end: int) -> int
    decreases end - base,
{
    if end <= base {
        base
    } else if path[end - 1] == '/' {
        end
    } else {
        segment_start(path, base, end - 1)
    }
}

/// Whether the segment from `start` to `end` is no component: it is
/// empty or reads `.`.
pub open spec fn is_skipped(path: Seq<char>, start: int, end: int) -> bool {
    end == start || (end == start + 1 && path[start] == '.')
}

/// Where the text ends once the segment that begins at `start` is cut
/// off together with the `/` before it.
pub open spec fn cut_before(base: int, start: int) -> int {
    if start > base {
        start - 1
    } else {
        base
    }
}

/// Where the first `end` characters end once the segments at their end
/// that are no components are cut off.
pub open spec fn trimmed(path: Seq<char>, base: int, end: int) -> int
    decreases end - base,
{
    if end <= base {
        base
    } else {
        let start = segment_start(path, base, end);
        if is_skipped(path, start, end) {
            proof {
                lemma_segment_bounds(path, base, end);
            }
            trimmed(path, base, cut_before(base, start))
        } else {
            end
        }
    }
}

/// How long the parent of `path` is: the path without its last component
/// and without what says nothing before it. A path of nothing but `.`
/// has the empty parent. `None` where there is no component to remove:
/// for the empty path and for the root.
pub open spec fn parent_len(path: Seq<char>) -> Option<int> {
    let base = body_start(path);
    let end = trimmed(path, base, path.len() as int);
    if end > base {
        Some(trimmed(path, base, cut_before(base, segment_start(path, base, end))))
    } else if has_cur_dir(path) {
        Some(0)
    } else {
        None
    }
}

/// The directory of `path`: its parent, or `path` itself where it has
/// none.
pub open spec fn directory_of(path: Seq<char>) -> Seq<char> {
    match parent_len(path) {
        Some(len) => path.subrange(0, len),
        None => path,
    }
}

/// `literal` as seen from the directory `dir`: an absolute literal stands
/// for itself; any other follows `dir`, behind a `/` where `dir` is not
/// empty and does not end in one.
pub open spec fn joined(dir: Seq<char>, literal: Seq<char>) -> Seq<char> {
    if is_absolute(literal) {
        literal
    } else if dir.len() > 0 && dir.last() != '/' {
        dir + seq!['/'] + literal
    } else {
        dir + literal
    }
}

/// The path that `literal` denotes when it is written in the file `base`.
/// Without a file (inline text) a relative literal stays as written, which
/// leaves it relative to the current directory.
pub open spec fn resolved(base: Option<Seq<char>>, literal: Seq<char>) -> Seq<char> {
    match base {
        Some(file) => joined(directory_of(file), literal),
        None => literal,
    }
}

/// A segment begins within the text it is a segment of, behind a `/` or
/// at `base`, and holds no `/`.
pub proof fn lemma_segment_bounds(path: Seq<char>, base: int, end: int)
    requires
        base <= end,
    ensures
        base <= segment_start(path, base, end) <= end,
        segment_start(path, base, end) > base ==> path[segment_start(path, base, end) - 1] == '/',
        forall|j: int| segment_start(path, base, end) <= j < end ==> path[j] != '/',
    decreases end - base,
{
    if end > base && path[end - 1] != '/' {
        lemma_segment_bounds(path, base, end - 1);
    }
}

/// A position with the properties of [`lemma_segment_bounds`] is where
/// the segment begins.
pub proof fn lemma_segment_start_is(path: Seq<char>, base: int, end: int, start: int)
    requires
        base <= start <= end,
        start > base ==> path[start - 1] == '/',
        forall|j: int| start <= j < end ==> path[j] != '/',
    ensures
        segment_start(path, base, end) == start,
    decreases end - base,
{
    if end > base && path[end - 1] != '/' {
        lemma_segment_start_is(path, base, end - 1, start);
    }
}

/// What is left after trimming lies between `base` and `end`, and
/// trimming it again changes nothing.
pub proof fn lemma_trimmed_bounds(path: Seq<char>, base: int, end: int)
    requires
        base <= end,
    ensures
        base <= trimmed(path, base, end) <= end,
        trimmed(path, base, trimmed(path, base, end)) == trimmed(path, base, end),
    decreases end - base,
{
    if end > base {
        let start = segment_start(path, base, end);
        lemma_segment_bounds(path, base, end);
        if is_skipped(path, start, end) {
            lemma_trimmed_bounds(path, base, cut_before(base, start));
        }
    }
}

/// The parent of a path is a part of it.
pub proof fn lemma_parent_bounds(path: Seq<char>)
    ensures
        parent_len(path) matches Some(len) ==> 0 <= len <= path.len(),
{
    let base = body_start(path);
    lemma_trimmed_bounds(path, base, path.len() as int);
    let end = trimmed(path, base, path.len() as int);
    if end > base {
        lemma_segment_bounds(path, base, end);
        lemma_trimmed_bounds(path, base, cut_before(base, segment_start(path, base, end)));
    }
}

/// Whether `name` is one component of a path that is kept: it is not
/// empty, holds no `/` and is not `.`.
pub open spec fn is_component(name: Seq<char>) -> bool {
    &&& name.len() > 0
    &&& forall|j: int| 0 <= j < name.len() ==> name[j] != '/'
    &&& name != seq!['.']
}

/// Whether `dir` ends in a component, or holds none at all: nothing can
/// be trimmed from its end.
pub open spec fn is_settled(dir: Seq<char>) -> bool {
    trimmed(dir, body_start(dir), dir.len() as int) == dir.len()
}

/// Segments are found in the text before `end` alone.
pub proof fn lemma_segment_same(a: Seq<char>, b: Seq<char>, base: int, end: int)
    requires
        0 <= base <= end <= a.len(),
        end <= b.len(),
        forall|j: int| 0 <= j < end ==> a[j] == b[j],
    ensures
        segment_start(a, base, end) == segment_start(b, base, end),
    decreases end - base,
{
    if end > base && a[end - 1] != '/' {
        lemma_segment_same(a, b, base, end - 1);
    }
}

/// Trimming looks at the text before `end` alone.
pub proof fn lemma_trimmed_same(a: Seq<char>, b: Seq<char>, base: int, end: int)
    requires
        0 <= base <= end <= a.len(),
        end <= b.len(),
        forall|j: int| 0 <= j < end ==> a[j] == b[j],
    ensures
        trimmed(a, base, end) == trimmed(b, base, end),
    decreases end - base,
{
    if end > base {
        lemma_segment_same(a, b, base, end);
        lemma_segment_bounds(a, base, end);
        let start = segment_start(a, base, end);
        if is_skipped(a, start, end) {
            lemma_trimmed_same(a, b, base, cut_before(base, start));
        }
    }
}

/// A text that ends in `/` and from whose end nothing can be trimmed is
/// the root.
pub proof fn lemma_settled_slash(dir: Seq<char>)
    requires
        is_settled(dir),
        dir.len() > 0,
        dir.last() == '/',
    ensures
        dir == seq!['/'],
{
    let base = body_start(dir);
    let len = dir.len() as int;
    if len > base {
        lemma_segment_bounds(dir, base, len);
        lemma_trimmed_bounds(dir, base, cut_before(base, segment_start(dir, base, len)));
    }
    assert(dir =~= seq!['/']);
}

/// The components that can be removed begin at the same place in a
/// directory and in what is joined to it.
pub proof fn lemma_joined_body_start(dir: Seq<char>, literal: Seq<char>)
    requires
        literal.len() > 0,
        literal[0] != '/',
        dir.len() == 0 ==> !has_cur_dir(literal),
    ensures
        body_start(joined(dir, literal)) == body_start(dir),
{
    let path = joined(dir, literal);
    if dir.len() > 0 {
        assert(path[0] == dir[0]);
        if dir.len() >= 2 {
            assert(path[1] == dir[1]);
        } else if dir.last() != '/' {
            assert(path[1] == '/');
        }
    } else {
        assert(path =~= literal);
    }
}

/// The directory of a component joined to `dir` is `dir` without what
/// can be trimmed from its end.
pub proof fn lemma_directory_of_joined(dir: Seq<char>, name: Seq<char>)
    requires
        is_component(name),
    ensures
        directory_of(joined(dir, name)) == dir.subrange(
            0,
            trimmed(dir, body_start(dir), dir.len() as int),
        ),
{
    let path = joined(dir, name);
    let base = body_start(dir);
    let len = path.len() as int;
    let start = len - name.len();
    assert(!has_cur_dir(name)) by {
        if name.len() == 1 {
            assert(name =~= seq![name[0]]);
        }
    }
    lemma_joined_body_start(dir, name);
    lemma_trimmed_bounds(dir, base, dir.len() as int);
    assert(base <= start) by {
        if dir.len() == 0 {
            assert(path =~= name);
        }
    }
    assert forall|j: int| start <= j < len implies path[j] != '/' by {
        assert(path[j] == name[j - start]);
    }
    assert(start > base ==> path[start - 1] == '/');
    lemma_segment_start_is(path, base, len, start);
    assert(!is_skipped(path, start, len)) by {
        if len == start + 1 {
            assert(name =~= seq![path[start]]);
        }
    }
    assert(trimmed(path, base, len) == len);
    lemma_segment_start_is(path, base, len, start);
    let cut = cut_before(base, start);
    if dir.len() == 0 {
        assert(cut == 0);
    } else if dir.last() == '/' {
        assert(start == dir.len());
        lemma_segment_start_is(dir, base, dir.len() as int, dir.len() as int);
        if start > base {
            lemma_trimmed_same(path, dir, base, cut);
        }
    } else {
        assert(cut == dir.len());
        lemma_trimmed_same(path, dir, base, cut);
    }
    lemma_trimmed_bounds(path, base, cut);
    assert(directory_of(path) =~= dir.subrange(0, trimmed(dir, base, dir.len() as int)));
}

/// The directory of a path is settled: nothing can be trimmed from its
/// end.
pub proof fn lemma_directory_is_settled(path: Seq<char>)
    requires
        parent_len(path) is Some,
    ensures
        is_settled(directory_of(path)),
{
    let base = body_start(path);
    let dir = directory_of(path);
    let len = dir.len() as int;
    lemma_parent_bounds(path);
    lemma_trimmed_bounds(path, base, path.len() as int);
    let end = trimmed(path, base, path.len() as int);
    if end > base {
        lemma_segment_bounds(path, base, end);
        let cut = cut_before(base, segment_start(path, base, end));
        lemma_trimmed_bounds(path, base, cut);
        assert(len == trimmed(path, base, cut));
        assert(body_start(dir) == base) by {
            if len >= 1 {
                assert(dir[0] == path[0]);
            }
            if len >= 2 {
                assert(dir[1] == path[1]);
            }
            if len == 1 && base == 0 && path[0] == '.' {
                // One character that stays is a component, so it is not `.`.
                assert(trimmed(path, base, 1) == 1);
                assert(segment_start(path, 0, 0) == 0);
                assert(segment_start(path, 0, 1) == 0);
                assert(is_skipped(path, 0, 1));
                assert(trimmed(path, 0, 0) == 0);
                assert(false);
            }
        }
        lemma_trimmed_same(dir, path, base, len);
    } else {
        assert(dir =~= Seq::<char>::empty());
    }
}

/// Joining `.` to a settled directory adds nothing that stays: what is
/// left after trimming is the directory, or `.` where it was empty.
pub proof fn lemma_dot_is_trimmed(dir: Seq<char>)
    requires
        is_settled(dir),
    ensures
        ({
            let dotted = joined(dir, seq!['.']);
            dotted.subrange(0, trimmed(dotted, body_start(dotted), dotted.len() as int)) == if dir.len()
                == 0 {
                seq!['.']
            } else {
                dir
            }
        }),
{
    let dot = seq!['.'];
    let dotted = joined(dir, dot);
    let len = dotted.len() as int;
    if dir.len() == 0 {
        assert(dotted =~= dot);
        assert(dotted.subrange(0, 1) =~= dot);
    } else {
        let base = body_start(dir);
        lemma_joined_body_start(dir, dot);
        if dir.last() == '/' {
            lemma_settled_slash(dir);
        }
        assert(dotted[len - 1] == '.');
        assert(dotted[len - 2] == '/');
        lemma_segment_start_is(dotted, base, len, len - 1);
        assert(is_skipped(dotted, len - 1, len));
        let cut = cut_before(base, len - 1);
        assert(cut == dir.len());
        lemma_trimmed_same(dotted, dir, base, cut);
        assert(dotted.subrange(0, dir.len() as int) =~= dir);
    }
}

/// Where the last segment of the first `end` characters begins.
fn find_segment(path: &str, base: usize, end: usize) -> (start: usize)
    requires
        base <= end <= path@.len(),
    ensures
        start == segment_start(path@, base as int, end as int),
        base <= start <= end,
{
    let mut start: usize = end;
    while start > base && path.get_char(start - 1) != '/'
        invariant
            base <= start <= end <= path@.len(),
            segment_start(path@, base as int, start as int) == segment_start(
                path@,
                base as int,
                end as int,
            ),
        decreases start,
    {
        start = start - 1;
    }
    start
}

/// Cuts off the segments at the end that are no components.
fn trim(path: &str, base: usize, end: usize) -> (len: usize)
    requires
        base <= end <= path@.len(),
    ensures
        len == trimmed(path@, base as int, end as int),
        base <= len <= end,
{
    let mut len: usize = end;
    loop
        invariant
            base <= len <= end <= path@.len(),
            trimmed(path@, base as int, len as int) == trimmed(path@, base as int, end as int),
        decreases len,
    {
        if len <= base {
            return len;
        }
        let start = find_segment(path, base, len);
        let skipped = len == start || (len == start + 1 && path.get_char(start) == '.');
        if !skipped {
            return len;
        }
        len = if start > base {
            start - 1
        } else {
            base
        };
    }
}

/// Whether `path` starts at the root.
pub fn starts_at_root(path: &str) -> (b: bool)
    ensures
        b == is_absolute(path@),
{
    path.unicode_len() > 0 && path.get_char(0) == '/'
}

/// Whether `path` starts with the component `.`.
pub fn starts_with_cur_dir(path: &str) -> (b: bool)
    ensures
        b == has_cur_dir(path@),
{
    let n: usize = path.unicode_len();
    !starts_at_root(path) && n > 0 && path.get_char(0) == '.' && (n == 1 || path.get_char(1)
        == '/')
}

/// How long the parent of `path` is.
pub fn parent_length(path: &str) -> (found: Option<usize>)
    ensures
        match found {
            Some(len) => parent_len(path@) == Some(len as int) && len <= path@.len(),
            None => parent_len(path@) is None,
        },
{
    let n: usize = path.unicode_len();
    let cur_dir = starts_with_cur_dir(path);
    let base: usize = if starts_at_root(path) || cur_dir {
        1
    } else {
        0
    };
    let end = trim(path, base, n);
    if end > base {
        let start = find_segment(path, base, end);
        let cut: usize = if start > base {
            start - 1
        } else {
            base
        };
        Some(trim(path, base, cut))
    } else if cur_dir {
        Some(0)
    } else {
        None
    }
}

/// The directory of `path`.
pub fn directory(path: &str) -> (dir: String)
    ensures
        dir@ == directory_of(path@),
{
    match parent_length(path) {
        Some(len) => String::from_str(path.substring_char(0, len)),
        None => String::from_str(path),
    }
}

/// `literal` as seen from the directory `dir`.
pub fn join(dir: String, literal: &str) -> (path: String)
    ensures
        path@ == joined(dir@, literal@),
{
    if starts_at_root(literal) {
        return String::from_str(literal);
    }
    let n: usize = dir.as_str().unicode_len();
    if n > 0 && dir.as_str().get_char(n - 1) != '/' {
        proof {
            reveal_strlit("/");
            assert("/"@ =~= seq!['/']);
        }
        dir.concat("/").concat(literal)
    } else {
        dir.concat(literal)
    }
}

/// The path that `literal` denotes when written in the file `base`.
pub fn resolve(base: &Option<String>, literal: &str) -> (path: String)
    ensures
        path@ == resolved(
            match *base {
                Some(file) => Some(file@),
                None => None,
            },
            literal@,
        ),
{
    match base {
        Some(file) => join(directory(file.as_str()), literal),
        None => String::from_str(literal),
    }
}

} // verus!
