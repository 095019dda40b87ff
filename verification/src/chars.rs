//! Conversions between strings and character vectors.
//!
//! All text logic in this library is verified over `Seq<char>` views; these
//! helpers move between `&str`/`String` and `Vec<char>` so that the logic can
//! index and slice characters directly.

use vstd::prelude::*;
use vstd::std_specs::iter::IteratorSpec;

verus! {

broadcast use vstd::string::group_string_axioms;

/// Collects the characters of a string slice into a vector, in order.
pub fn str_to_chars(s: &str) -> (v: Vec<char>)
    ensures
        v@ == s@,
{
    let mut it = s.chars();
    let mut v: Vec<char> = Vec::new();
    loop
        invariant
            it.obeys_prophetic_iter_laws(),
            it.decrease() is Some,
            v@ + it.remaining() == s@,
        decreases it.decrease()->0,
    {
        match it.next() {
            Some(c) => {
                v.push(c);
            }
            None => {
                return v;
            }
        }
    }
}

/// Relies on `String`'s `FromIterator` implementation: collecting an iterator
/// of characters yields the string made of exactly those characters in order.
#[verifier::external_body]
pub fn chars_to_string(v: &Vec<char>) -> (s: String)
    ensures
        s@ == v@,
{
    v.iter().collect()
}

/// Relies on `core::str::from_utf8`: it accepts exactly the valid UTF-8 byte
/// sequences and returns the string whose byte encoding is the input.
#[verifier::external_body]
pub fn bytes_to_str(b: &[u8]) -> (r: Option<&str>)
    ensures
        r is Some <==> vstd::utf8::valid_utf8(b@),
        match r {
            Some(s) => vstd::utf8::encode_utf8(s@) == b@,
            None => true,
        },
{
    core::str::from_utf8(b).ok()
}

/// The characters of `cs` from position `from` on.
pub fn tail_chars(cs: &Vec<char>, from: usize) -> (out: Vec<char>)
    requires
        from <= cs@.len(),
    ensures
        out@ == cs@.skip(from as int),
{
    let mut out: Vec<char> = Vec::new();
    let mut i: usize = from;
    while i < cs.len()
        invariant
            from <= i <= cs@.len(),
            out@ == cs@.subrange(from as int, i as int),
        decreases cs@.len() - i,
    {
        proof {
            assert(cs@.subrange(from as int, i as int).push(cs@[i as int]) =~= cs@.subrange(
                from as int,
                i as int + 1,
            ));
        }
        let c = cs[i];
        out.push(c);
        i = i + 1;
    }
    proof {
        assert(cs@.subrange(from as int, cs@.len() as int) =~= cs@.skip(from as int));
    }
    out
}

} // verus!
