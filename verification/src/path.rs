//! Paths as text: segments separated by `/`.

use vstd::prelude::*;
use vstd::string::*;
use crate::text::text_of;

verus! {

/// The characters of `path` behind its last separator: all of them if it has
/// none, none if it ends in one.
pub open spec fn last_segment(path: Seq<char>) -> Seq<char>
    decreases path.len(),
{
    if path.len() == 0 || path.last() == '/' {
        Seq::empty()
    } else {
        last_segment(path.drop_last()).push(path.last())
    }
}

/// The final segment of `path`, the name of the file or directory it leads to.
///
/// Separators at the end and segments that are a single `.` are passed over.
/// There is none if nothing is left then, or if what is left ends in `..`.
pub open spec fn final_segment(path: Seq<char>) -> Option<Seq<char>>
    decreases path.len(),
{
    if path.len() == 0 {
        None
    } else if path.last() == '/' {
        final_segment(path.drop_last())
    } else if last_segment(path) == seq!['.'] {
        final_segment(path.drop_last())
    } else if last_segment(path) == seq!['.', '.'] {
        None
    } else {
        Some(last_segment(path))
    }
}

/// Whether `name` can be the final segment of a path: it is not empty, holds
/// no separator, and is neither `.` nor `..`.
pub open spec fn is_segment(name: Seq<char>) -> bool {
    &&& name.len() > 0
    &&& !name.contains('/')
    &&& name != seq!['.']
    &&& name != seq!['.', '.']
}

/// `name` below the directory `dir`: the two with one separator between them,
/// unless `dir` is empty or brings its own.
pub open spec fn joined(dir: Seq<char>, name: Seq<char>) -> Seq<char> {
    if dir.len() == 0 || dir.last() == '/' {
        dir + name
    } else {
        dir + seq!['/'] + name
    }
}

/// A segment that reaches back to `start` is what lies between `start` and
/// the end, provided no separator lies there.
proof fn lemma_last_segment_from(path: Seq<char>, start: int)
    requires
        0 <= start <= path.len(),
        forall|i: int| start <= i < path.len() ==> path[i] != '/',
        start == 0 || path[start - 1] == '/',
    ensures
        last_segment(path) == path.subrange(start, path.len() as int),
    decreases path.len() - start,
{
    if start == path.len() {
        assert(path.subrange(start, path.len() as int) =~= Seq::empty());
    } else {
        let shorter = path.drop_last();
        lemma_last_segment_from(shorter, start);
        assert(shorter.subrange(start, shorter.len() as int).push(path.last())
            =~= path.subrange(start, path.len() as int));
    }
}

/// The last segment of a path holds no separator, and is not empty unless
/// the path is empty or ends in a separator.
proof fn lemma_last_segment(path: Seq<char>)
    ensures
        !last_segment(path).contains('/'),
        path.len() > 0 && path.last() != '/' ==> last_segment(path).len() > 0,
    decreases path.len(),
{
    if path.len() > 0 && path.last() != '/' {
        let front = last_segment(path.drop_last());
        lemma_last_segment(path.drop_last());
        assert forall|i: int| 0 <= i < front.push(path.last()).len() implies front.push(
            path.last(),
        )[i] != '/' by {
            if i < front.len() {
                assert(front[i] == front.push(path.last())[i]);
                assert(front.contains(front[i]));
            }
        }
    }
}

/// The final segment of a path is a segment.
pub proof fn lemma_final_segment_is_segment(path: Seq<char>)
    ensures
        final_segment(path) matches Some(name) ==> is_segment(name),
    decreases path.len(),
{
    if path.len() > 0 {
        lemma_final_segment_is_segment(path.drop_last());
        lemma_last_segment(path);
    }
}

/// A segment joined to a directory is the final segment of the path that
/// this makes: the name of what lies below a directory is found again.
pub proof fn lemma_final_segment_of_joined(dir: Seq<char>, name: Seq<char>)
    requires
        is_segment(name),
    ensures
        final_segment(joined(dir, name)) == Some(name),
{
    let path = joined(dir, name);
    let start = path.len() - name.len();
    assert forall|i: int| start <= i < path.len() implies path[i] != '/' by {
        assert(path[i] == name[i - start]);
        assert(name.contains(name[i - start]));
    }
    lemma_last_segment_from(path, start);
    assert(path.subrange(start, path.len() as int) =~= name);
}

/// The final segment of `path`, if it has one.
pub fn file_name(path: &str) -> (name: Option<String>)
    ensures
        text_of(name) == final_segment(path@),
{
    let mut end: usize = path.unicode_len();
    proof {
        assert(path@.take(end as int) =~= path@);
    }
    while end > 0
        invariant
            end <= path@.len(),
            final_segment(path@) == final_segment(path@.take(end as int)),
        decreases end,
    {
        let ghost head = path@.take(end as int);
        if path.get_char(end - 1) == '/' {
            proof {
                assert(head.drop_last() =~= path@.take(end - 1));
            }
            end = end - 1;
        } else {
            let mut start: usize = end - 1;
            while start > 0 && path.get_char(start - 1) != '/'
                invariant
                    start < end <= path@.len(),
                    forall|i: int| start <= i < end ==> path@[i] != '/',
                decreases start,
            {
                start = start - 1;
            }
            proof {
                lemma_last_segment_from(head, start as int);
                assert(head.subrange(start as int, head.len() as int) =~= path@.subrange(
                    start as int,
                    end as int,
                ));
            }
            let length: usize = end - start;
            let first_is_dot = path.get_char(start) == '.';
            if length == 1 && first_is_dot {
                proof {
                    assert(path@.subrange(start as int, end as int) =~= seq!['.']);
                    assert(head.drop_last() =~= path@.take(end - 1));
                }
                end = end - 1;
            } else if length == 2 && first_is_dot && path.get_char(start + 1) == '.' {
                proof {
                    assert(path@.subrange(start as int, end as int) =~= seq!['.', '.']);
                }
                return None;
            } else {
                proof {
                    let segment = path@.subrange(start as int, end as int);
                    assert(segment[0] == path@[start as int]);
                    if length == 2 {
                        assert(segment[1] == path@[start + 1]);
                    }
                    assert(segment != seq!['.']);
                    assert(segment != seq!['.', '.']);
                }
                return Some(String::from_str(path.substring_char(start, end)));
            }
        }
    }
    proof {
        assert(path@.take(0).len() == 0);
    }
    None
}

/// The name of the world stored at `path`: its final segment.
pub fn world_name_from_path(path: &str) -> (name: String)
    requires
        final_segment(path@) is Some,
    ensures
        Some(name@) == final_segment(path@),
{
    file_name(path).unwrap()
}

/// The path of `name` below the directory `dir`.
pub fn join(dir: &str, name: &str) -> (path: String)
    ensures
        path@ == joined(dir@, name@),
{
    let length: usize = dir.unicode_len();
    let mut path = String::from_str(dir);
    if length > 0 && dir.get_char(length - 1) != '/' {
        path.append("/");
        proof {
            reveal_strlit("/");
            assert("/"@ =~= seq!['/']);
        }
    }
    path.append(name);
    path
}

} // verus!
