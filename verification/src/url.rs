//! Fetching a page as a prompt: the part of that flow that computes.
//!
//! The download itself is plain I/O and happens outside the library; what is
//! verified here is the rule for completing a bare address with a scheme.

use vstd::prelude::*;
use vstd::string::StringExecFns;
use crate::chars::chars_to_string;
use crate::chars::str_to_chars;

verus! {

/// A scheme separator sits at position `i` of `s`.
pub open spec fn scheme_sep_at(s: Seq<char>, i: int) -> bool {
    &&& 0 <= i
    &&& i + 3 <= s.len()
    &&& s[i] == ':'
    &&& s[i + 1] == '/'
    &&& s[i + 2] == '/'
}

/// The address names a scheme somewhere.
pub open spec fn has_scheme(s: Seq<char>) -> bool {
    exists|i: int| scheme_sep_at(s, i)
}

fn contains_scheme_sep(cs: &Vec<char>) -> (r: bool)
    ensures
        r == has_scheme(cs@),
{
    if cs.len() < 3 {
        proof {
            assert forall|i: int| !scheme_sep_at(cs@, i) by {}
        }
        return false;
    }
    let mut i: usize = 0;
    while i < cs.len() - 2
        invariant
            cs@.len() >= 3,
            i <= cs@.len(),
            forall|j: int| 0 <= j < i ==> !scheme_sep_at(cs@, j),
        decreases cs@.len() - i,
    {
        if cs[i] == ':' && cs[i + 1] == '/' && cs[i + 2] == '/' {
            proof {
                assert(scheme_sep_at(cs@, i as int));
            }
            return true;
        }
        i = i + 1;
    }
    proof {
        assert forall|j: int| !scheme_sep_at(cs@, j) by {
            if 0 <= j && j + 3 <= cs@.len() {
                assert(j <= cs@.len() - 3);
                assert(j < i);
            }
        }
    }
    false
}

/// An address with a scheme is used as given; a bare one is completed with
/// the plain web scheme.
pub fn ensure_scheme(url: &str) -> (r: String)
    ensures
        has_scheme(url@) ==> r@ == url@,
        !has_scheme(url@) ==> r@ == "http://"@ + url@,
{
    let cs = str_to_chars(url);
    if contains_scheme_sep(&cs) {
        String::from_str(url)
    } else {
        let mut out = str_to_chars("http://");
        let mut rest = str_to_chars(url);
        out.append(&mut rest);
        chars_to_string(&out)
    }
}

} // verus!
