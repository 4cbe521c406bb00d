//! The final name of a path, as `std::path::Path` finds it.

use vstd::prelude::*;

verus! {

/// The length of `s` once trailing separators and trailing `/.` components are dropped (the
/// way `Path::components` ignores them).
pub open spec fn path_end(s: Seq<char>) -> int
    decreases s.len(),
{
    if s.len() > 0 && s.last() == '/' {
        path_end(s.drop_last())
    } else if s.len() >= 2 && s.last() == '.' && s[s.len() - 2] == '/' {
        path_end(s.take(s.len() - 2))
    } else {
        s.len() as int
    }
}

/// The position just after the last `/` before `end` (0 when there is none).
pub open spec fn segment_start(s: Seq<char>, end: int) -> int
    decreases end,
{
    if end <= 0 {
        0
    } else if s[end - 1] == '/' {
        end
    } else {
        segment_start(s, end - 1)
    }
}

/// The final component of a path, if it is a name (as `Path::file_name`): not for an empty
/// path, the root, `.` or `..`.
pub open spec fn file_name(s: Seq<char>) -> Option<Seq<char>> {
    let end = path_end(s);
    let name = s.subrange(segment_start(s, end), end);
    if name.len() == 0 || name == seq!['.'] || name == seq!['.', '.'] {
        None
    } else {
        Some(name)
    }
}

pub proof fn lemma_path_end(s: Seq<char>)
    ensures
        0 <= path_end(s) <= s.len(),
    decreases s.len(),
{
    if s.len() > 0 && s.last() == '/' {
        lemma_path_end(s.drop_last());
    } else if s.len() >= 2 && s.last() == '.' && s[s.len() - 2] == '/' {
        lemma_path_end(s.take(s.len() - 2));
    }
}

pub proof fn lemma_segment_start(s: Seq<char>, end: int)
    requires
        0 <= end <= s.len(),
    ensures
        0 <= segment_start(s, end) <= end,
        forall|i: int| segment_start(s, end) <= i < end ==> s[i] != '/',
    decreases end,
{
    if end > 0 && s[end - 1] != '/' {
        lemma_segment_start(s, end - 1);
    }
}

proof fn lemma_file_name(s: Seq<char>, start: int, end: int)
    requires
        path_end(s) == end,
        segment_start(s, end) == start,
    ensures
        file_name(s) == (if s.subrange(start, end).len() == 0 || s.subrange(start, end) == seq![
            '.',
        ] || s.subrange(start, end) == seq!['.', '.'] {
            None
        } else {
            Some(s.subrange(start, end))
        }),
{
}

/// The range `(start, end)` of the final name of the path `v`, if there is one.
#[verifier::spinoff_prover]
pub fn file_name_range(v: &[char]) -> (r: Option<(usize, usize)>)
    ensures
        match file_name(v@) {
            Some(n) => r matches Some((a, b)) && a <= b <= v@.len() && v@.subrange(
                a as int,
                b as int,
            ) == n,
            None => r is None,
        },
{
    let mut end = v.len();
    proof {
        assert(v@.take(end as int) =~= v@);
    }
    loop
        invariant
            end <= v@.len(),
            path_end(v@) == path_end(v@.take(end as int)),
        ensures
            end <= v@.len(),
            path_end(v@) == end,
        decreases end,
    {
        if end > 0 && v[end - 1] == '/' {
            proof {
                assert(v@.take(end as int).drop_last() =~= v@.take(end - 1));
            }
            end -= 1;
        } else if end >= 2 && v[end - 1] == '.' && v[end - 2] == '/' {
            proof {
                assert(v@.take(end as int).take(end - 2) =~= v@.take(end - 2));
            }
            end -= 2;
        } else {
            proof {
                let t = v@.take(end as int);
                assert(t.len() == end);
                if end > 0 {
                    assert(t.last() == v@[end - 1]);
                }
                if end >= 2 {
                    assert(t[end - 2] == v@[end - 2]);
                }
                assert(path_end(t) == end);
            }
            break;
        }
    }
    let mut start = end;
    while start > 0 && v[start - 1] != '/'
        invariant
            start <= end,
            end == path_end(v@),
            end <= v@.len(),
            segment_start(v@, end as int) == segment_start(v@, start as int),
        decreases start,
    {
        start -= 1;
    }
    proof {
        lemma_segment_start(v@, end as int);
        assert(segment_start(v@, start as int) == start);
        lemma_file_name(v@, start as int, end as int);
    }
    let len = end - start;
    if len == 0 || (len == 1 && v[start] == '.') || (len == 2 && v[start] == '.' && v[start + 1]
        == '.') {
        proof {
            let name = v@.subrange(start as int, end as int);
            if len == 1 {
                assert(name =~= seq!['.']);
            }
            if len == 2 {
                assert(name =~= seq!['.', '.']);
            }
            assert(file_name(v@) is None);
        }
        None
    } else {
        proof {
            let name = v@.subrange(start as int, end as int);
            assert(name.len() == len);
            assert(name.len() != 0);
            assert(name != seq!['.']) by {
                if name == seq!['.'] {
                    assert(seq!['.'].len() == 1);
                    assert(name[0] == v@[start as int]);
                    assert(seq!['.'][0] == '.');
                }
            }
            assert(name != seq!['.', '.']) by {
                if name == seq!['.', '.'] {
                    assert(seq!['.', '.'].len() == 2);
                    assert(name[0] == v@[start as int]);
                    assert(name[1] == v@[start + 1]);
                    assert(seq!['.', '.'][0] == '.');
                    assert(seq!['.', '.'][1] == '.');
                }
            }
            assert(file_name(v@) == Some(name));
        }
        Some((start, end))
    }
}

} // verus!
