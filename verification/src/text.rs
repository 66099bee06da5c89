//! Substring containment on the textual form of a path.

use vstd::prelude::*;

verus! {

/// `needle` stands in `hay` at position `at`, character for character.
pub open spec fn occurs_at(hay: Seq<char>, needle: Seq<char>, at: int) -> bool {
    &&& 0 <= at
    &&& at + needle.len() <= hay.len()
    &&& hay.subrange(at, at + needle.len()) == needle
}

/// `needle` is a contiguous run of characters of `hay`. The empty text is
/// contained in every text.
pub open spec fn contains(hay: Seq<char>, needle: Seq<char>) -> bool {
    exists|at: int| occurs_at(hay, needle, at)
}

/// The characters of a string slice, in order.
pub fn chars_of(s: &str) -> (out: Vec<char>)
    ensures
        out@ == s@,
{
    let mut out: Vec<char> = Vec::new();
    for c in it: s.chars()
        invariant
            out@ == it.seq().take(it.index()),
    {
        out.push(c);
    }
    out
}

/// Compares `needle` with the characters of `hay` that start at `at`.
fn matches_at(hay: &Vec<char>, needle: &Vec<char>, at: usize) -> (found: bool)
    requires
        at + needle.len() <= hay.len(),
    ensures
        found == occurs_at(hay@, needle@, at as int),
{
    let mut k: usize = 0;
    while k < needle.len()
        invariant
            k <= needle.len(),
            at + needle.len() <= hay.len(),
            forall|j: int| 0 <= j < k ==> hay@[at + j] == needle@[j],
        decreases needle.len() - k,
    {
        if hay[at + k] != needle[k] {
            return false;
        }
        k += 1;
    }
    assert(hay@.subrange(at as int, at + needle.len()) =~= needle@);
    true
}

/// Searches `hay` for `needle`, trying every position from the left.
pub fn contains_chars(hay: &Vec<char>, needle: &Vec<char>) -> (found: bool)
    ensures
        found == contains(hay@, needle@),
{
    if needle.len() > hay.len() {
        return false;
    }
    let last: usize = hay.len() - needle.len();
    let mut at: usize = 0;
    while at < last
        invariant
            at <= last,
            last + needle.len() == hay.len(),
            forall|j: int| 0 <= j < at ==> !occurs_at(hay@, needle@, j),
        decreases last - at,
    {
        if matches_at(hay, needle, at) {
            return true;
        }
        at += 1;
    }
    matches_at(hay, needle, last)
}

/// Whether the text `hay` contains the text `needle`.
pub fn str_contains(hay: &str, needle: &str) -> (found: bool)
    ensures
        found == contains(hay@, needle@),
{
    let h = chars_of(hay);
    let n = chars_of(needle);
    contains_chars(&h, &n)
}

/// The empty text occurs in every text, at its start.
pub proof fn lemma_contains_empty(hay: Seq<char>)
    ensures
        contains(hay, Seq::<char>::empty()),
{
    assert(hay.subrange(0, 0) =~= Seq::<char>::empty());
    assert(occurs_at(hay, Seq::<char>::empty(), 0));
}

} // verus!
