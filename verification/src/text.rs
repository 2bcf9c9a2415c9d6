//! Character-level utilities shared by the parsing and rendering modules.
//!
//! The library manipulates text as vectors of characters, so that every
//! step is visible to the verifier; a single trusted conversion turns the
//! finished characters back into a `String`.

use vstd::prelude::*;
use vstd::string::StrSliceExecFns;

verus! {

/// Copies the characters of a string into a vector, one per character.
pub fn str_to_chars(s: &str) -> (r: Vec<char>)
    ensures
        r@ == s@,
{
    let n = s.unicode_len();
    let mut r: Vec<char> = Vec::new();
    let mut i: usize = 0;
    proof {
        assert(r@ =~= s@.take(0));
    }
    while i < n
        invariant
            i <= n,
            r@ == s@.take(i as int),
        decreases n - i,
    {
        r.push(s.get_char(i));
        i = i + 1;
        proof {
            assert(r@ =~= s@.take(i as int));
        }
    }
    proof {
        assert(s@.take(n as int) =~= s@);
    }
    r
}

/// Relies on `String`'s `FromIterator` over characters: the collected string
/// holds exactly the characters of the vector, in order.
#[verifier::external_body]
pub(crate) fn chars_to_string(v: &Vec<char>) -> (r: String)
    ensures
        r@ == v@,
{
    v.iter().collect()
}

/// Appends every character of `s` to `out`.
pub fn push_chars(out: &mut Vec<char>, s: &Vec<char>)
    ensures
        final(out)@ == old(out)@ + s@,
{
    let n = s.len();
    let mut i: usize = 0;
    proof {
        assert(out@ =~= old(out)@ + s@.take(0));
    }
    while i < n
        invariant
            i <= n,
            out@ == old(out)@ + s@.take(i as int),
        decreases n - i,
    {
        out.push(s[i]);
        i = i + 1;
        proof {
            assert(old(out)@ + s@.take(i as int) =~= (old(out)@ + s@.take(i - 1)).push(s@[i - 1]));
        }
    }
    proof {
        assert(s@.take(n as int) =~= s@);
    }
}

/// Appends every character of the string `s` to `out`.
pub fn push_str_chars(out: &mut Vec<char>, s: &str)
    ensures
        final(out)@ == old(out)@ + s@,
{
    let n = s.unicode_len();
    let mut i: usize = 0;
    proof {
        assert(out@ =~= old(out)@ + s@.take(0));
    }
    while i < n
        invariant
            i <= n,
            out@ == old(out)@ + s@.take(i as int),
        decreases n - i,
    {
        out.push(s.get_char(i));
        i = i + 1;
        proof {
            assert(old(out)@ + s@.take(i as int) =~= (old(out)@ + s@.take(i - 1)).push(s@[i - 1]));
        }
    }
    proof {
        assert(s@.take(n as int) =~= s@);
    }
}

/// Pushing one line extends the deep view by that line's characters.
pub(crate) proof fn lemma_lines_deep_push(pre: Seq<Vec<char>>, post: Vec<Vec<char>>)
    requires
        post@.len() == pre.len() + 1,
        post@ == pre.push(post@.last()),
    ensures
        post.deep_view() == Seq::new(pre.len(), |i: int| pre[i].deep_view()).push(
            post@.last().deep_view(),
        ),
{
    let predeep = Seq::new(pre.len(), |i: int| pre[i].deep_view());
    assert forall|j: int| 0 <= j < post@.len() implies post.deep_view()[j] == predeep.push(
        post@.last().deep_view(),
    )[j] by {
        if j < pre.len() {
            assert(post@[j] == pre[j]);
        }
    }
    assert(post.deep_view() =~= predeep.push(post@.last().deep_view()));
}

} // verus!
