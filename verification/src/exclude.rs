//! The exclusion filter: drops every path whose text contains a pattern.

use crate::text::{chars_of, contains, contains_chars, lemma_contains_empty};
use vstd::prelude::*;

verus! {

/// A path is excluded when its text contains at least one of the patterns.
pub open spec fn excluded(path: Seq<char>, patterns: Seq<Seq<char>>) -> bool {
    exists|k: int| 0 <= k < patterns.len() && contains(path, #[trigger] patterns[k])
}

/// The test that a path passes to stay in the backup set.
pub open spec fn stays(patterns: Seq<Seq<char>>) -> spec_fn(Seq<char>) -> bool {
    |path: Seq<char>| !excluded(path, patterns)
}

/// The paths that no pattern excludes, in the order in which they came.
pub open spec fn retained(paths: Seq<Seq<char>>, patterns: Seq<Seq<char>>) -> Seq<Seq<char>> {
    paths.filter(stays(patterns))
}

/// The positions of `paths` whose path stays, in increasing order.
pub open spec fn retained_positions(paths: Seq<Seq<char>>, patterns: Seq<Seq<char>>) -> Seq<int>
    decreases paths.len(),
{
    if paths.len() == 0 {
        Seq::empty()
    } else if excluded(paths.last(), patterns) {
        retained_positions(paths.drop_last(), patterns)
    } else {
        retained_positions(paths.drop_last(), patterns).push(paths.len() - 1)
    }
}

/// The texts that rows of characters spell.
spec fn rows(v: Vec<Vec<char>>) -> Seq<Seq<char>> {
    Seq::new(v@.len(), |j: int| v@[j]@)
}

/// The characters of each pattern.
fn pattern_chars(patterns: &Vec<String>) -> (out: Vec<Vec<char>>)
    ensures
        rows(out) == patterns.deep_view(),
{
    let mut out: Vec<Vec<char>> = Vec::new();
    let mut k: usize = 0;
    while k < patterns.len()
        invariant
            k <= patterns.len(),
            out.len() == k,
            forall|j: int| 0 <= j < k ==> out@[j]@ == patterns@[j]@,
        decreases patterns.len() - k,
    {
        out.push(chars_of(patterns[k].as_str()));
        k += 1;
    }
    out
}

/// Tests one path, given as characters, against every pattern.
fn excluded_chars(path: &Vec<char>, patterns: &Vec<Vec<char>>) -> (hit: bool)
    ensures
        hit == excluded(path@, rows(*patterns)),
{
    let mut k: usize = 0;
    while k < patterns.len()
        invariant
            k <= patterns.len(),
            forall|j: int| 0 <= j < k ==> !contains(path@, #[trigger] rows(*patterns)[j]),
        decreases patterns.len() - k,
    {
        if contains_chars(path, &patterns[k]) {
            assert(contains(path@, rows(*patterns)[k as int]));
            return true;
        }
        k += 1;
    }
    false
}

/// Whether the text of `path` contains at least one of `patterns`.
pub fn is_excluded(path: &str, patterns: &Vec<String>) -> (hit: bool)
    ensures
        hit == excluded(path@, patterns.deep_view()),
{
    let pats = pattern_chars(patterns);
    let p = chars_of(path);
    excluded_chars(&p, &pats)
}

/// Removes from `paths` every path that a pattern excludes. What stays keeps
/// its order, and a path that occurs several times stays as often.
pub fn filter_paths(paths: &Vec<String>, patterns: &Vec<String>) -> (out: Vec<String>)
    ensures
        out.deep_view() == retained(paths.deep_view(), patterns.deep_view()),
{
    let pats = pattern_chars(patterns);
    let mut out: Vec<String> = Vec::new();
    let mut i: usize = 0;
    proof {
        reveal(Seq::filter);
    }
    while i < paths.len()
        invariant
            i <= paths.len(),
            rows(pats) == patterns.deep_view(),
            out.deep_view() == retained(paths.deep_view().take(i as int), patterns.deep_view()),
        decreases paths.len() - i,
    {
        let p = chars_of(paths[i].as_str());
        let ghost head = paths.deep_view().take(i as int);
        proof {
            assert(paths.deep_view().take(i + 1) =~= head.push(paths@[i as int]@));
            head.lemma_filter_push(paths@[i as int]@, stays(patterns.deep_view()));
        }
        if !excluded_chars(&p, &pats) {
            out.push(paths[i].clone());
        }
        i += 1;
    }
    assert(paths.deep_view().take(paths.len() as int) =~= paths.deep_view());
    out
}

/// Exclusion is sound and complete: no retained path contains a pattern, and
/// every path that contains none is retained.
pub proof fn lemma_retained_sound(paths: Seq<Seq<char>>, patterns: Seq<Seq<char>>)
    ensures
        forall|i: int, k: int|
            0 <= i < retained(paths, patterns).len() && 0 <= k < patterns.len() ==> !contains(
                #[trigger] retained(paths, patterns)[i],
                #[trigger] patterns[k],
            ),
        forall|j: int|
            0 <= j < paths.len() && !excluded(#[trigger] paths[j], patterns) ==> retained(
                paths,
                patterns,
            ).contains(paths[j]),
{
    let out = retained(paths, patterns);
    assert forall|i: int, k: int| 0 <= i < out.len() && 0 <= k < patterns.len() implies !contains(
        #[trigger] out[i],
        #[trigger] patterns[k],
    ) by {
        paths.lemma_filter_pred(stays(patterns), i);
    }
    assert forall|j: int| 0 <= j < paths.len() && !excluded(
        #[trigger] paths[j],
        patterns,
    ) implies out.contains(paths[j]) by {
        paths.lemma_filter_contains(stays(patterns), j);
    }
}

/// Filtering twice with the same patterns gives what filtering once gives.
pub proof fn lemma_retained_idempotent(paths: Seq<Seq<char>>, patterns: Seq<Seq<char>>)
    ensures
        retained(retained(paths, patterns), patterns) == retained(paths, patterns),
    decreases paths.len(),
{
    reveal(Seq::filter);
    if paths.len() > 0 {
        let head = paths.drop_last();
        lemma_retained_idempotent(head, patterns);
        if !excluded(paths.last(), patterns) {
            retained(head, patterns).lemma_filter_push(paths.last(), stays(patterns));
        }
    }
}

/// With no pattern, nothing is excluded.
pub proof fn lemma_retained_without_patterns(paths: Seq<Seq<char>>)
    ensures
        retained(paths, Seq::empty()) == paths,
    decreases paths.len(),
{
    reveal(Seq::filter);
    if paths.len() > 0 {
        lemma_retained_without_patterns(paths.drop_last());
    }
}

/// An empty pattern is contained in every path, so it excludes them all.
pub proof fn lemma_empty_pattern_excludes_all(paths: Seq<Seq<char>>, patterns: Seq<Seq<char>>)
    requires
        patterns.contains(Seq::<char>::empty()),
    ensures
        retained(paths, patterns).len() == 0,
    decreases paths.len(),
{
    reveal(Seq::filter);
    if paths.len() > 0 {
        lemma_empty_pattern_excludes_all(paths.drop_last(), patterns);
        lemma_contains_empty(paths.last());
    }
}

/// Filtering never reorders: the retained paths are the paths at the
/// positions that stay, taken in increasing order of position, and every
/// position whose path is not excluded is among them.
pub proof fn lemma_retained_keeps_order(paths: Seq<Seq<char>>, patterns: Seq<Seq<char>>)
    ensures
        retained_positions(paths, patterns).len() == retained(paths, patterns).len(),
        forall|k: int|
            0 <= k < retained(paths, patterns).len() ==> {
                let at = #[trigger] retained_positions(paths, patterns)[k];
                0 <= at < paths.len() && retained(paths, patterns)[k] == paths[at]
            },
        forall|a: int, b: int|
            0 <= a < b < retained(paths, patterns).len() ==> retained_positions(paths, patterns)[a]
                < retained_positions(paths, patterns)[b],
        forall|j: int|
            0 <= j < paths.len() ==> (retained_positions(paths, patterns).contains(j) <==> !excluded(
                #[trigger] paths[j],
                patterns,
            )),
    decreases paths.len(),
{
    reveal(Seq::filter);
    let ix = retained_positions(paths, patterns);
    let out = retained(paths, patterns);
    if paths.len() > 0 {
        let head = paths.drop_last();
        let hix = retained_positions(head, patterns);
        lemma_retained_keeps_order(head, patterns);
        assert forall|j: int| 0 <= j < paths.len() implies (ix.contains(j) <==> !excluded(
            #[trigger] paths[j],
            patterns,
        )) by {
            if j < head.len() {
                assert(head[j] == paths[j]);
                if hix.contains(j) {
                    let w = choose|w: int| 0 <= w < hix.len() && hix[w] == j;
                    assert(ix[w] == j);
                }
            } else if !excluded(paths.last(), patterns) {
                assert(ix[ix.len() - 1] == j);
            }
        }
    }
}

} // verus!
