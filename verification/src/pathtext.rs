//! Paths written the same way on every platform: segments of ordinary
//! characters joined by single `/`. For such text, what `std::path` makes
//! of it does not depend on the platform, up to the separator it writes.

use vstd::prelude::*;

verus! {

/// Neither a separator on any platform (`/`, `\`) nor `:`, which starts a
/// drive or stream name on some.
pub open spec fn plain_char(c: char) -> bool {
    c != '/' && c != '\\' && c != ':'
}

/// A segment of `p` starts at `i`.
pub open spec fn seg_start(p: Seq<char>, i: int) -> bool {
    i == 0 || (0 < i <= p.len() && p[i - 1] == '/')
}

/// The segment at `i` is `.` or `..`.
pub open spec fn dot_segment_at(p: Seq<char>, i: int) -> bool {
    (0 <= i < p.len() && p[i] == '.' && (i + 1 == p.len() || p[i + 1] == '/')) || (0 <= i && i + 1 < p.len()
        && p[i] == '.' && p[i + 1] == '.' && (i + 2 == p.len() || p[i + 2] == '/'))
}

/// A relative path of one or more segments, each made of plain characters
/// and neither `.` nor `..`, joined by single `/`.
pub open spec fn plain_rel(p: Seq<char>) -> bool {
    &&& p.len() > 0
    &&& p[0] != '/'
    &&& p.last() != '/'
    &&& forall|i: int| 0 <= i < p.len() ==> (#[trigger] p[i] == '/' || plain_char(p[i]))
    &&& forall|i: int| 0 <= i < p.len() - 1 ==> !(#[trigger] p[i] == '/' && p[i + 1] == '/')
    &&& forall|i: int| seg_start(p, i) ==> !dot_segment_at(p, i)
}

/// A plain relative path, or one such path after a leading `/`.
pub open spec fn plain_path(p: Seq<char>) -> bool {
    plain_rel(p) || (p.len() > 1 && p[0] == '/' && plain_rel(p.drop_first()))
}

/// What `Path::strip_prefix` leaves of `path` once `root` is taken off,
/// for plain paths: nothing when they are equal, the rest after `root/`,
/// and (the prefix not being there) `path` itself.
pub open spec fn relative_text(path: Seq<char>, root: Seq<char>) -> Seq<char> {
    if path == root {
        Seq::empty()
    } else if path.len() > root.len() && path.take(root.len() as int) == root && path[root.len() as int] == '/' {
        path.skip(root.len() as int + 1)
    } else {
        path
    }
}

/// The position just after the last `/` of `p` (0 where it has none).
pub open spec fn name_start(p: Seq<char>) -> int
    decreases p.len(),
{
    if p.len() == 0 {
        0
    } else if p.last() == '/' {
        p.len() as int
    } else {
        name_start(p.drop_last())
    }
}

/// The last segment of `p`.
pub open spec fn file_name(p: Seq<char>) -> Seq<char> {
    p.skip(name_start(p))
}

/// `Path::parent` of a plain path: everything before its last segment,
/// `/` for a single segment after `/`, and nothing for a single segment.
pub open spec fn parent_text(p: Seq<char>) -> Seq<char> {
    let k = name_start(p);
    if k == 0 {
        Seq::empty()
    } else if k == 1 {
        seq!['/']
    } else {
        p.take(k - 1)
    }
}

/// The position of the last `.` of `n`, or `-1`.
pub open spec fn last_dot(n: Seq<char>) -> int
    decreases n.len(),
{
    if n.len() == 0 {
        -1
    } else if n.last() == '.' {
        n.len() - 1
    } else {
        last_dot(n.drop_last())
    }
}

/// `Path::file_stem` of a file name: the part before its last `.`, or the
/// whole name where it has no `.` besides a leading one.
pub open spec fn stem_of(n: Seq<char>) -> Seq<char> {
    let d = last_dot(n);
    if d <= 0 {
        n
    } else {
        n.take(d)
    }
}

/// `Path::extension` of a file name: the part after its last `.`, where it
/// has a `.` besides a leading one.
pub open spec fn ext_of(n: Seq<char>) -> Option<Seq<char>> {
    let d = last_dot(n);
    if d <= 0 {
        None
    } else {
        Some(n.skip(d + 1))
    }
}

/// `Path::join` of `dir` and a relative path `rel`, where the platform
/// writes `sep` between them: `rel` itself after an empty `dir`, no new
/// separator after one that ends `dir`.
pub open spec fn joined(dir: Seq<char>, rel: Seq<char>, sep: char) -> Seq<char> {
    if dir.len() == 0 {
        rel
    } else if dir.last() == '/' {
        dir + rel
    } else {
        dir + seq![sep] + rel
    }
}

/// A directory that `Path::join` treats the same way on every platform.
pub open spec fn plain_dir(d: Seq<char>) -> bool {
    d.len() == 0 || d == seq!['/'] || plain_path(d)
}

proof fn lemma_name_start(p: Seq<char>)
    ensures
        0 <= name_start(p) <= p.len(),
        name_start(p) > 0 ==> p[name_start(p) - 1] == '/',
        forall|i: int| name_start(p) <= i < p.len() ==> p[i] != '/',
    decreases p.len(),
{
    if p.len() > 0 && p.last() != '/' {
        let q = p.drop_last();
        lemma_name_start(q);
        assert forall|i: int| name_start(p) <= i < p.len() implies p[i] != '/' by {
            if i < q.len() {
                assert(q[i] == p[i]);
            }
        }
        if name_start(p) > 0 {
            assert(q[name_start(p) - 1] == p[name_start(p) - 1]);
        }
    }
}

proof fn lemma_prefix_rel(p: Seq<char>, k: int)
    requires
        plain_rel(p),
        0 < k < p.len(),
        p[k] == '/',
    ensures
        plain_rel(p.take(k)),
{
    let q = p.take(k);
    assert(q[0] == p[0]);
    assert(p[k - 1] != '/');
    assert(q.last() == p[k - 1]);
    assert forall|i: int| 0 <= i < q.len() implies (#[trigger] q[i] == '/' || plain_char(q[i])) by {
        assert(q[i] == p[i]);
    }
    assert forall|i: int| 0 <= i < q.len() - 1 implies !(#[trigger] q[i] == '/' && q[i + 1] == '/') by {
        assert(q[i] == p[i] && q[i + 1] == p[i + 1]);
    }
    assert forall|i: int| seg_start(q, i) implies !dot_segment_at(q, i) by {
        assert(seg_start(p, i));
        if dot_segment_at(q, i) {
            if 0 <= i < q.len() && q[i] == '.' && (i + 1 == q.len() || q[i + 1] == '/') {
                assert(p[i] == '.');
                if i + 1 < q.len() {
                    assert(p[i + 1] == q[i + 1]);
                }
                assert(dot_segment_at(p, i));
            } else {
                assert(p[i] == '.' && p[i + 1] == '.');
                if i + 2 < q.len() {
                    assert(p[i + 2] == q[i + 2]);
                }
                assert(dot_segment_at(p, i));
            }
        }
    }
}

/// The parent of a plain path is a directory that `Path::join` treats the
/// same way on every platform.
pub proof fn lemma_parent_plain(p: Seq<char>)
    requires
        plain_path(p),
    ensures
        plain_dir(parent_text(p)),
{
    lemma_name_start(p);
    let k = name_start(p);
    if k >= 2 {
        if plain_rel(p) {
            lemma_prefix_rel(p, k - 1);
        } else {
            let r = p.drop_first();
            assert(r[k - 2] == p[k - 1]);
            if k - 2 == 0 {
                assert(r[0] != '/');
            }
            lemma_prefix_rel(r, k - 2);
            assert(p.take(k - 1).drop_first() =~= r.take(k - 2));
            assert(p.take(k - 1)[0] == '/');
        }
    }
}

} // verus!
