//! The final component of a `/`-separated path, as `std::path::Path::file_name`
//! reads it on Unix, and the choice of a history file.

use vstd::prelude::*;

verus! {

/// The characters after the last `/` of `p` (all of `p` when it has none).
pub open spec fn trailing_segment(p: Seq<char>) -> Seq<char>
    decreases p.len(),
{
    if p.len() == 0 || p.last() == '/' {
        Seq::empty()
    } else {
        trailing_segment(p.drop_last()).push(p.last())
    }
}

/// The last component of `p` that is neither empty nor `.`, if any.
pub open spec fn last_component(p: Seq<char>) -> Option<Seq<char>>
    decreases p.len(),
{
    if p.len() == 0 {
        None
    } else if p.last() == '/' {
        last_component(p.drop_last())
    } else if trailing_segment(p) == seq!['.'] {
        last_component(p.drop_last())
    } else {
        Some(trailing_segment(p))
    }
}

/// The final component of `p`, unless it is `..` or `p` has no component.
pub open spec fn file_name(p: Seq<char>) -> Option<Seq<char>> {
    match last_component(p) {
        Some(s) => if s == seq!['.', '.'] {
            None
        } else {
            Some(s)
        },
        None => None,
    }
}

/// The final component of `p`, or `p` itself when it has none.
pub open spec fn base_name(p: Seq<char>) -> Seq<char> {
    match file_name(p) {
        Some(s) => s,
        None => p,
    }
}


/// The characters of `p` from `start` up to `end`.
fn slice_chars(p: &Vec<char>, start: usize, end: usize) -> (r: Vec<char>)
    requires
        start <= end <= p@.len(),
    ensures
        r@ == p@.subrange(start as int, end as int),
{
    let mut r: Vec<char> = Vec::new();
    let mut i = start;
    while i < end
        invariant
            start <= i <= end <= p@.len(),
            r@ == p@.subrange(start as int, i as int),
        decreases end - i,
    {
        r.push(p[i]);
        i = i + 1;
    }
    r
}

/// The final component of the path `p`, as `Path::file_name` gives it.
pub fn file_name_of(p: &Vec<char>) -> (r: Option<Vec<char>>)
    ensures
        match r {
            Some(s) => file_name(p@) == Some(s@),
            None => file_name(p@) is None,
        },
{
    let mut end = p.len();
    assert(p@.take(end as int) == p@);
    loop
        invariant
            end <= p@.len(),
            last_component(p@.take(end as int)) == last_component(p@),
        decreases end,
    {
        if end == 0 {
            return None;
        }
        assert(p@.take(end as int).drop_last() == p@.take(end - 1));
        if p[end - 1] == '/' {
            end = end - 1;
        } else {
            let mut start = end;
            assert(p@.take(end as int).subrange(end as int, end as int) == Seq::<char>::empty());
            while start > 0 && p[start - 1] != '/'
                invariant
                    start <= end <= p@.len(),
                    trailing_segment(p@.take(end as int)) == trailing_segment(p@.take(start as int))
                        + p@.subrange(start as int, end as int),
                decreases start,
            {
                assert(p@.take(start as int).drop_last() == p@.take(start - 1));
                assert(p@.subrange(start - 1, end as int) == seq![p@[start - 1]] + p@.subrange(
                    start as int,
                    end as int,
                ));
                start = start - 1;
            }
            assert(trailing_segment(p@.take(start as int)) == Seq::<char>::empty());
            let segment = slice_chars(p, start, end);
            assert(trailing_segment(p@.take(end as int)) == segment@);
            if end - start == 1 && p[start] == '.' {
                assert(segment@ == seq!['.']);
                end = end - 1;
            } else {
                assert(segment@ != seq!['.']) by {
                    if segment@ == seq!['.'] {
                        assert(segment@.len() == 1);
                        assert(segment@[0] == p@[start as int]);
                    }
                }
                if end - start == 2 && p[start] == '.' && p[start + 1] == '.' {
                    assert(segment@ == seq!['.', '.']);
                    return None;
                }
                assert(segment@ != seq!['.', '.']) by {
                    if segment@ == seq!['.', '.'] {
                        assert(segment@.len() == 2);
                        assert(segment@[0] == p@[start as int]);
                        assert(segment@[1] == p@[start + 1]);
                    }
                }
                return Some(segment);
            }
        }
    }
}

/// `file` (a relative path) under the directory `directory`, as
/// `Path::join` puts them together on Unix: one `/` between them, unless
/// `directory` already ends with one.
pub open spec fn joined(directory: Seq<u8>, file: Seq<u8>) -> Seq<u8> {
    if directory.len() > 0 && directory.last() == 0x2f {
        directory + file
    } else {
        directory.push(0x2f) + file
    }
}

/// The history file an import reads: the path given, if any; else `file`
/// in the home directory `home`, where it is set and not empty; else none.
pub open spec fn chosen_history(explicit: Option<Seq<u8>>, home: Option<Seq<u8>>, file: Seq<u8>) -> Option<
    Seq<u8>,
> {
    match explicit {
        Some(path) => Some(path),
        None => match home {
            Some(h) => if h.len() > 0 {
                Some(joined(h, file))
            } else {
                None
            },
            None => None,
        },
    }
}

/// The bytes `v` holds, if any.
pub open spec fn bytes_of(v: Option<Vec<u8>>) -> Option<Seq<u8>> {
    match v {
        Some(b) => Some(b@),
        None => None,
    }
}

/// Chooses the history file an import reads, as `chosen_history` says.
pub fn history_path(explicit: Option<Vec<u8>>, home: Option<Vec<u8>>, file: &[u8]) -> (r: Option<Vec<u8>>)
    ensures
        bytes_of(r) == chosen_history(bytes_of(explicit), bytes_of(home), file@),
{
    match explicit {
        Some(path) => Some(path),
        None => match home {
            Some(mut h) => {
                if h.len() == 0 {
                    return None;
                }
                if h[h.len() - 1] != 0x2f {
                    h.push(0x2f);
                }
                crate::encoding::append_bytes(&mut h, file);
                Some(h)
            },
            None => None,
        },
    }
}

} // verus!
