use crate::text::chars_of;
use vstd::prelude::*;
use vstd::string::*;

verus! {

/// The character that separates the segments of a path.
pub const SEPARATOR: char = '/';

/// A path is absolute when it starts at the root.
pub open spec fn is_absolute_path(p: Seq<char>) -> bool {
    p.len() > 0 && p[0] == SEPARATOR
}

/// `p` without the separators at its end.
pub open spec fn trim_separators(p: Seq<char>) -> Seq<char>
    decreases p.len(),
{
    if p.len() > 0 && p.last() == SEPARATOR {
        trim_separators(p.drop_last())
    } else {
        p
    }
}

/// The offset at which the last segment of `p` begins: just behind the last
/// separator of `p`, or 0 where `p` holds none.
pub open spec fn segment_start(p: Seq<char>) -> int
    decreases p.len(),
{
    if p.len() == 0 || p.last() == SEPARATOR {
        p.len() as int
    } else {
        segment_start(p.drop_last())
    }
}

/// The final segment of a path: the name of the file or directory that the
/// path leads to. Separators at the end are passed over, and so is a segment
/// `.` that follows another segment. There is none where nothing is left (the
/// empty path, the root, a lone `.`) and none where the path ends in `..`.
pub open spec fn final_segment_of(p: Seq<char>) -> Option<Seq<char>>
    decreases p.len(),
{
    let body = trim_separators(p);
    let start = segment_start(body);
    let segment = body.skip(start);
    if body.len() == 0 {
        None
    } else if segment == seq!['.'] {
        if 0 < start < body.len() <= p.len() {
            final_segment_of(body.take(start))
        } else {
            None
        }
    } else if segment == seq!['.', '.'] {
        None
    } else {
        Some(segment)
    }
}

/// The directory that holds what `p` leads to: `p` without its last segment
/// and the separators around it. For a path directly under the root, and for
/// the root itself, that is the root; for a single relative segment it is the
/// empty path.
pub open spec fn containing_dir_of(p: Seq<char>) -> Seq<char> {
    let body = trim_separators(p);
    let dir = trim_separators(body.take(segment_start(body)));
    if dir.len() == 0 && is_absolute_path(p) {
        seq![SEPARATOR]
    } else {
        dir
    }
}

/// `p` as seen from the directory `base`: an absolute `p` stands for itself,
/// any other is appended to `base`, behind one separator unless `base` is
/// empty or already ends in one.
pub open spec fn join_of(base: Seq<char>, p: Seq<char>) -> Seq<char> {
    if is_absolute_path(p) {
        p
    } else if base.len() == 0 || base.last() == SEPARATOR {
        base + p
    } else {
        base + seq![SEPARATOR] + p
    }
}

pub proof fn lemma_trim_separators(p: Seq<char>)
    ensures
        trim_separators(p).is_prefix_of(p),
        trim_separators(p).len() > 0 ==> trim_separators(p).last() != SEPARATOR,
        forall|j: int| trim_separators(p).len() <= j < p.len() ==> p[j] == SEPARATOR,
    decreases p.len(),
{
    if p.len() > 0 && p.last() == SEPARATOR {
        let q = p.drop_last();
        lemma_trim_separators(q);
        assert forall|j: int| trim_separators(p).len() <= j < p.len() implies p[j]
            == SEPARATOR by {
            if j < q.len() {
                assert(p[j] == q[j]);
            }
        }
    }
}

pub proof fn lemma_segment_start(p: Seq<char>)
    ensures
        0 <= segment_start(p) <= p.len(),
        segment_start(p) > 0 ==> p[segment_start(p) - 1] == SEPARATOR,
        forall|j: int| segment_start(p) <= j < p.len() ==> p[j] != SEPARATOR,
        p.len() > 0 && p.last() != SEPARATOR ==> segment_start(p) < p.len(),
    decreases p.len(),
{
    if !(p.len() == 0 || p.last() == SEPARATOR) {
        let q = p.drop_last();
        lemma_segment_start(q);
        assert forall|j: int| segment_start(p) <= j < p.len() implies p[j] != SEPARATOR by {
            if j < q.len() {
                assert(p[j] == q[j]);
            }
        }
    }
}

/// The root has no final segment: there is no name to take from it.
pub proof fn lemma_root_has_no_name()
    ensures
        final_segment_of(seq![SEPARATOR]) is None,
{
    let root = seq![SEPARATOR];
    assert(root.drop_last() =~= Seq::<char>::empty());
    assert(trim_separators(root) == trim_separators(root.drop_last()));
}

/// A prefix of `p` that is followed by separators only, and does not end in
/// one, is `p` without the separators at its end.
proof fn lemma_trim_is(p: Seq<char>, end: int)
    requires
        0 <= end <= p.len(),
        end > 0 ==> p[end - 1] != SEPARATOR,
        forall|j: int| end <= j < p.len() ==> p[j] == SEPARATOR,
    ensures
        trim_separators(p) == p.take(end),
    decreases p.len(),
{
    if p.len() > 0 && p.last() == SEPARATOR {
        lemma_trim_is(p.drop_last(), end);
        assert(p.drop_last().take(end) =~= p.take(end));
    } else {
        assert(p.take(end) =~= p);
    }
}

/// An offset that stands behind a separator (or at 0) and has no separator
/// behind it is where the last segment begins.
proof fn lemma_start_is(p: Seq<char>, start: int)
    requires
        0 <= start <= p.len(),
        start > 0 ==> p[start - 1] == SEPARATOR,
        forall|j: int| start <= j < p.len() ==> p[j] != SEPARATOR,
    ensures
        segment_start(p) == start,
    decreases p.len(),
{
    if !(p.len() == 0 || p.last() == SEPARATOR) {
        lemma_start_is(p.drop_last(), start);
    }
}

/// The length of `v[..end]` without the separators at its end.
fn trimmed_end(v: &Vec<char>, end: usize) -> (r: usize)
    requires
        end <= v.len(),
    ensures
        r <= end,
        trim_separators(v@.take(end as int)) == v@.take(r as int),
{
    let mut r: usize = end;
    while r > 0 && v[r - 1] == SEPARATOR
        invariant
            r <= end <= v.len(),
            forall|j: int| r <= j < end ==> v@[j] == SEPARATOR,
        decreases r,
    {
        r -= 1;
    }
    proof {
        lemma_trim_is(v@.take(end as int), r as int);
        assert(v@.take(end as int).take(r as int) =~= v@.take(r as int));
    }
    r
}

/// The offset at which the last segment of `v[..end]` begins.
fn last_segment_start(v: &Vec<char>, end: usize) -> (r: usize)
    requires
        end <= v.len(),
    ensures
        r <= end,
        r == segment_start(v@.take(end as int)),
{
    let mut r: usize = end;
    while r > 0 && v[r - 1] != SEPARATOR
        invariant
            r <= end <= v.len(),
            forall|j: int| r <= j < end ==> v@[j] != SEPARATOR,
        decreases r,
    {
        r -= 1;
    }
    proof {
        lemma_start_is(v@.take(end as int), r as int);
    }
    r
}

/// Whether `path` starts at the root.
pub fn is_absolute(path: &str) -> (r: bool)
    ensures
        r == is_absolute_path(path@),
{
    let v = chars_of(path);
    v.len() > 0 && v[0] == SEPARATOR
}

/// The final segment of `path`, if it has one.
pub fn final_segment(path: &str) -> (r: Option<String>)
    ensures
        match r {
            Some(name) => final_segment_of(path@) == Some(name@),
            None => final_segment_of(path@) is None,
        },
{
    let v = chars_of(path);
    let mut len: usize = v.len();
    assert(v@.take(len as int) =~= path@);
    loop
        invariant
            len <= v.len(),
            v@ == path@,
            final_segment_of(path@) == final_segment_of(v@.take(len as int)),
        decreases len,
    {
        let end = trimmed_end(&v, len);
        let start = last_segment_start(&v, end);
        let ghost body = v@.take(end as int);
        let ghost segment = body.skip(start as int);
        proof {
            assert(segment =~= v@.subrange(start as int, end as int));
            assert(body.len() == end);
            assert(segment.len() == end - start);
            if end > start {
                assert(segment[0] == v@[start as int]);
            }
            if end > start + 1 {
                assert(segment[1] == v@[start + 1]);
            }
        }
        if end == 0 {
            return None;
        }
        proof {
            lemma_trim_separators(v@.take(len as int));
            lemma_segment_start(body);
        }
        let dots: usize = if v[start] != '.' {
            0
        } else if end - start == 1 {
            1
        } else if end - start == 2 && v[start + 1] == '.' {
            2
        } else {
            0
        };
        proof {
            assert((dots == 1) == (segment =~= seq!['.']));
            assert((dots == 2) == (segment =~= seq!['.', '.']));
        }
        if dots == 2 {
            return None;
        }
        if dots == 0 {
            let name = path.substring_char(start, end).to_owned();
            return Some(name);
        }
        if start == 0 {
            return None;
        }
        proof {
            assert(body.take(start as int) =~= v@.take(start as int));
        }
        len = start;
    }
}

/// The directory that holds what `path` leads to.
pub fn containing_dir(path: &str) -> (r: String)
    ensures
        r@ == containing_dir_of(path@),
{
    let v = chars_of(path);
    assert(v@.take(v.len() as int) =~= path@);
    let end = trimmed_end(&v, v.len());
    let start = last_segment_start(&v, end);
    proof {
        assert(v@.take(end as int).take(start as int) =~= v@.take(start as int));
    }
    let stop = trimmed_end(&v, start);
    if stop == 0 && v.len() > 0 && v[0] == SEPARATOR {
        proof {
            reveal_strlit("/");
            assert("/"@ =~= seq![SEPARATOR]);
        }
        "/".to_owned()
    } else {
        assert(v@.take(stop as int) =~= path@.subrange(0, stop as int));
        path.substring_char(0, stop).to_owned()
    }
}

/// `path` as seen from the directory `base`.
pub fn join(base: &str, path: &str) -> (r: String)
    ensures
        r@ == join_of(base@, path@),
{
    if is_absolute(path) {
        return path.to_owned();
    }
    let b = chars_of(base);
    let mut r = base.to_owned();
    if b.len() > 0 && b[b.len() - 1] != SEPARATOR {
        proof {
            reveal_strlit("/");
            assert("/"@ =~= seq![SEPARATOR]);
        }
        r.append("/");
    }
    r.append(path);
    r
}

} // verus!
