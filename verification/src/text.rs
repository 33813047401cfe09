//! Reading strings character by character.

use vstd::prelude::*;
use vstd::std_specs::iter::IteratorSpec;
use vstd::string::*;

verus! {

/// Whether `s` begins with `head`.
pub open spec fn begins_with_spec(s: Seq<char>, head: Seq<char>) -> bool {
    head.len() <= s.len() && s.take(head.len() as int) == head
}

/// The characters of `s`, one by one.
pub(crate) fn chars_of(s: &str) -> (v: Vec<char>)
    ensures
        v@ == s@,
{
    let mut v: Vec<char> = Vec::new();
    let mut it = s.chars();
    loop
        invariant
            v@ + it.remaining() == s@,
            it.obeys_prophetic_iter_laws(),
            it.decrease() is Some,
        ensures
            v@ == s@,
        decreases it.decrease()->0,
    {
        match it.next() {
            Some(c) => {
                v.push(c);
            },
            None => {
                break;
            },
        }
    }
    v
}

/// Whether `v` begins with the characters of `head`.
pub(crate) fn begins_with(v: &Vec<char>, head: &Vec<char>) -> (r: bool)
    ensures
        r == begins_with_spec(v@, head@),
{
    if head.len() > v.len() {
        return false;
    }
    let mut i: usize = 0;
    while i < head.len()
        invariant
            i <= head.len() <= v.len(),
            forall|j: int| 0 <= j < i ==> v@[j] == head@[j],
        decreases head.len() - i,
    {
        if v[i] != head[i] {
            assert(v@.take(head.len() as int)[i as int] != head@[i as int]);
            return false;
        }
        i += 1;
    }
    assert(v@.take(head.len() as int) =~= head@);
    true
}

/// Whether `v` holds the characters of `word` and no more.
pub(crate) fn spells(v: &Vec<char>, word: &str) -> (r: bool)
    ensures
        r == (v@ == word@),
{
    let w = chars_of(word);
    assert(v@.take(v.len() as int) =~= v@);
    v.len() == w.len() && begins_with(v, &w)
}

} // verus!
