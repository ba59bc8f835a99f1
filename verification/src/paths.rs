//! Path-string helpers: the base name of a slash-separated path, and
//! joining a directory with a child name.

use vstd::prelude::*;
use vstd::string::*;

verus! {

/// The base name of a slash-separated path: the suffix after the last `'/'`,
/// or the whole sequence when no `'/'` occurs.
pub open spec fn basename_spec(s: Seq<char>) -> Seq<char>
    decreases s.len(),
{
    if s.len() == 0 {
        s
    } else if s.last() == '/' {
        Seq::empty()
    } else {
        basename_spec(s.drop_last()).push(s.last())
    }
}

/// A base name never contains a separator.
pub proof fn lemma_basename_no_slash(s: Seq<char>)
    ensures
        forall|i: int| 0 <= i < basename_spec(s).len() ==> basename_spec(s)[i] != '/',
    decreases s.len(),
{
    if s.len() == 0 {
    } else if s.last() == '/' {
    } else {
        lemma_basename_no_slash(s.drop_last());
        let b = basename_spec(s.drop_last());
        assert forall|i: int| 0 <= i < basename_spec(s).len() implies basename_spec(s)[i]
            != '/' by {
            if i < b.len() {
                assert(basename_spec(s)[i] == b[i]);
            } else {
                assert(basename_spec(s)[i] == s.last());
            }
        }
    }
}

/// Computes the base name of `path`.
pub fn base_name(path: &str) -> (r: String)
    ensures
        r@ == basename_spec(path@),
{
    let len: usize = path.unicode_len();
    let mut cut: usize = 0;
    let mut i: usize = 0;
    while i < len
        invariant
            i <= len,
            cut <= i,
            len == path@.len(),
            basename_spec(path@.subrange(0, i as int)) == path@.subrange(cut as int, i as int),
        decreases len - i,
    {
        let c = path.get_char(i);
        proof {
            let pre = path@.subrange(0, i as int);
            let ext = path@.subrange(0, i as int + 1);
            assert(ext.drop_last() =~= pre);
            assert(ext.last() == path@[i as int]);
            if c == '/' {
                assert(basename_spec(ext) =~= path@.subrange(i as int + 1, i as int + 1));
            } else {
                assert(basename_spec(ext) == basename_spec(pre).push(c));
                assert(basename_spec(pre).push(c) =~= path@.subrange(
                    cut as int,
                    i as int + 1,
                ));
            }
        }
        if c == '/' {
            cut = i + 1;
        }
        i = i + 1;
    }
    proof {
        assert(path@.subrange(0, len as int) =~= path@);
    }
    let r = path.substring_char(cut, len);
    String::from_str(r)
}

/// Joins a directory path and a child name with a `'/'` separator.
pub fn join_path(dir: &str, name: &str) -> (r: String)
    ensures
        r@ == dir@ + seq!['/'] + name@,
{
    let mut s = dir.to_owned();
    s.append("/");
    s.append(name);
    proof {
        reveal_strlit("/");
        assert(s@ =~= dir@ + seq!['/'] + name@);
    }
    s
}

} // verus!
