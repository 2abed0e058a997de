//! Names of the catalog and the prefixes they are filtered by.

use crate::chars::{names_view, to_chars, word_view};
use vstd::prelude::*;

verus! {

/// A name fits a prefix if it starts with it; every name fits where no
/// prefix is given.
pub open spec fn fits(name: Seq<char>, prefix: Option<Seq<char>>) -> bool {
    match prefix {
        Some(p) => p.is_prefix_of(name),
        None => true,
    }
}

/// The test that `get_elements` keeps a name by.
pub open spec fn fitting(prefix: Option<Seq<char>>) -> spec_fn(Seq<char>) -> bool {
    |name: Seq<char>| fits(name, prefix)
}

/// The test that `get_property_names` keeps a name by: it is not empty, fits
/// the prefix and is not set yet.
pub open spec fn unset(taken: Seq<Seq<char>>, prefix: Option<Seq<char>>) -> spec_fn(
    Seq<char>,
) -> bool {
    |name: Seq<char>| name.len() > 0 && fits(name, prefix) && !taken.contains(name)
}

/// Filtering the first `k + 1` items is filtering the first `k` and then
/// judging the next one.
pub proof fn lemma_filter_step<A>(s: Seq<A>, keep: spec_fn(A) -> bool, k: int)
    requires
        0 <= k < s.len(),
    ensures
        s.subrange(0, k + 1).filter(keep) == if keep(s[k]) {
            s.subrange(0, k).filter(keep).push(s[k])
        } else {
            s.subrange(0, k).filter(keep)
        },
{
    reveal(Seq::filter);
    assert(s.subrange(0, k + 1).drop_last() =~= s.subrange(0, k));
}

/// Tells whether `name` starts with the characters of `prefix`.
pub fn starts_with(name: &str, prefix: &Vec<char>) -> (b: bool)
    ensures
        b == prefix@.is_prefix_of(name@),
{
    let text = to_chars(name);
    if prefix.len() > text.len() {
        return false;
    }
    let mut i: usize = 0;
    while i < prefix.len()
        invariant
            i <= prefix@.len() <= text@.len(),
            text@ == name@,
            forall|j: int| 0 <= j < i ==> prefix@[j] == text@[j],
        decreases prefix@.len() - i,
    {
        if prefix[i] != text[i] {
            assert(text@.subrange(0, prefix@.len() as int)[i as int] != prefix@[i as int]);
            return false;
        }
        i += 1;
    }
    assert(prefix@ =~= text@.subrange(0, prefix@.len() as int));
    true
}

/// The characters of an optional prefix.
pub fn prefix_chars(prefix: Option<&str>) -> (r: Option<Vec<char>>)
    ensures
        match r {
            Some(p) => word_view(prefix) == Some(p@),
            None => word_view(prefix) is None,
        },
{
    match prefix {
        Some(p) => Some(to_chars(p)),
        None => None,
    }
}

pub open spec fn chars_view(prefix: Option<Vec<char>>) -> Option<Seq<char>> {
    match prefix {
        Some(p) => Some(p@),
        None => None,
    }
}

/// Tells whether a name fits an optional prefix.
pub fn fits_prefix(name: &str, prefix: &Option<Vec<char>>) -> (b: bool)
    ensures
        b == fits(name@, chars_view(*prefix)),
{
    match prefix {
        Some(p) => starts_with(name, p),
        None => true,
    }
}

/// Tells whether `name` is one of `names`.
pub fn holds(names: &[String], name: &String) -> (b: bool)
    ensures
        b == names_view(names@).contains(name@),
{
    let mut k: usize = 0;
    while k < names.len()
        invariant
            k <= names@.len(),
            forall|j: int| 0 <= j < k ==> names_view(names@)[j] != name@,
        decreases names@.len() - k,
    {
        if names[k] == *name {
            assert(names_view(names@)[k as int] == name@);
            return true;
        }
        k += 1;
    }
    false
}

/// The names of the catalog that start with the prefix, in the catalog's
/// order; all of them where no prefix is given.
pub fn get_elements(names: &Vec<String>, prefix: Option<&str>) -> (out: Vec<String>)
    ensures
        names_view(out@) == names_view(names@).filter(fitting(word_view(prefix))),
{
    let wanted = prefix_chars(prefix);
    let ghost all = names_view(names@);
    let ghost keep = fitting(word_view(prefix));
    let mut out: Vec<String> = Vec::new();
    let mut k: usize = 0;
    proof {
        reveal(Seq::filter);
        assert(names_view(out@) =~= all.subrange(0, 0).filter(keep));
    }
    while k < names.len()
        invariant
            k <= names@.len(),
            all == names_view(names@),
            keep == fitting(word_view(prefix)),
            chars_view(wanted) == word_view(prefix),
            names_view(out@) == all.subrange(0, k as int).filter(keep),
        decreases names@.len() - k,
    {
        proof {
            lemma_filter_step(all, keep, k as int);
        }
        if fits_prefix(names[k].as_str(), &wanted) {
            let ghost before = names_view(out@);
            out.push(names[k].clone());
            assert(names_view(out@) =~= before.push(all[k as int]));
        }
        k += 1;
    }
    assert(all.subrange(0, k as int) =~= all);
    out
}

} // verus!
