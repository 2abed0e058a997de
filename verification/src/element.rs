//! An element type as the catalog describes it: its pads, its properties and
//! the element types that can follow it.

use crate::catalog::{
    chars_view, fits_prefix, holds, lemma_filter_step, prefix_chars, starts_with, unset,
};
use crate::chars::{names_view, run_end, scan, slice, to_chars, word_view, CharClass};
use crate::ranking::{consumers_view, ints, rank, ranked_names, Consumer};
use vstd::prelude::*;
use vstd::string::*;

verus! {

/// A pad that an element type declares.
#[derive(Clone, Debug, PartialEq, Eq)]
pub struct PadTemplate {
    /// The pad's name, or a pattern for it: what stands before the first `%`
    /// is fixed, the rest is filled in when a pad is made.
    pub name_template: String,
    /// The pad is an output.
    pub is_source: bool,
}

/// The part of a pad's name pattern that every pad made from it starts with.
pub open spec fn fixed_part(template: Seq<char>) -> Seq<char> {
    template.subrange(0, run_end(template, CharClass::Fixed, 0))
}

/// The pad is an output that the channel's name can stand for. Without a
/// channel every output is meant.
pub open spec fn feeds(pad: PadTemplate, channel: Option<Seq<char>>) -> bool {
    pad.is_source && match channel {
        Some(name) => fixed_part(pad.name_template@).is_prefix_of(name),
        None => true,
    }
}

pub open spec fn feeding(pads: Seq<PadTemplate>, channel: Option<Seq<char>>) -> spec_fn(int) -> bool {
    |j: int| feeds(pads[j], channel)
}

/// The numbers from 0 up to `n`.
pub open spec fn indices(n: nat) -> Seq<int> {
    Seq::new(n, |j: int| j)
}

fn pad_feeds(pad: &PadTemplate, channel: Option<&str>) -> (b: bool)
    ensures
        b == feeds(*pad, word_view(channel)),
{
    if !pad.is_source {
        return false;
    }
    match channel {
        None => true,
        Some(name) => {
            let template = to_chars(pad.name_template.as_str());
            let end = scan(&template, CharClass::Fixed, 0);
            let fixed = to_chars(slice(pad.name_template.as_str(), 0, end).as_str());
            starts_with(name, &fixed)
        },
    }
}

/// Picks the outputs of an element type that a channel's name stands for:
/// their places among the type's pads, in rising order. The formats of
/// these pads together are what the channel produces.
pub fn source_pads(pads: &Vec<PadTemplate>, channel: Option<&str>) -> (out: Vec<usize>)
    ensures
        ints(out@) == indices(pads@.len()).filter(feeding(pads@, word_view(channel))),
{
    let ghost all = indices(pads@.len());
    let ghost keep = feeding(pads@, word_view(channel));
    let mut out: Vec<usize> = Vec::new();
    let mut k: usize = 0;
    proof {
        reveal(Seq::filter);
        assert(ints(out@) =~= all.subrange(0, 0).filter(keep));
    }
    while k < pads.len()
        invariant
            k <= pads@.len(),
            all == indices(pads@.len()),
            keep == feeding(pads@, word_view(channel)),
            ints(out@) == all.subrange(0, k as int).filter(keep),
        decreases pads@.len() - k,
    {
        proof {
            lemma_filter_step(all, keep, k as int);
        }
        if pad_feeds(&pads[k], channel) {
            let ghost before = ints(out@);
            out.push(k);
            assert(ints(out@) =~= before.push(all[k as int]));
        }
        k += 1;
    }
    assert(all.subrange(0, k as int) =~= all);
    out
}

/// An element type that was looked up for a completion: what the catalog
/// says of its properties, and of every element type as a taker of the
/// output in question.
#[derive(Clone, Debug, PartialEq, Eq)]
pub struct BashGstElement {
    /// The names of its properties, in the catalog's order.
    pub properties: Vec<String>,
    /// Every element type of the catalog, in the catalog's order.
    pub consumers: Vec<Consumer>,
}

impl BashGstElement {
    /// The properties that can still be set: those with a name that fits the
    /// prefix and is not in `filter`, in the catalog's order. A property
    /// without a name is left out.
    pub fn get_property_names(&self, filter: &[String], prefix: Option<&str>) -> (out: Vec<String>)
        ensures
            names_view(out@) == names_view(self.properties@).filter(
                unset(names_view(filter@), word_view(prefix)),
            ),
    {
        let wanted = prefix_chars(prefix);
        let ghost all = names_view(self.properties@);
        let ghost keep = unset(names_view(filter@), word_view(prefix));
        let mut out: Vec<String> = Vec::new();
        let mut k: usize = 0;
        proof {
            reveal(Seq::filter);
            assert(names_view(out@) =~= all.subrange(0, 0).filter(keep));
        }
        while k < self.properties.len()
            invariant
                k <= self.properties@.len(),
                all == names_view(self.properties@),
                keep == unset(names_view(filter@), word_view(prefix)),
                chars_view(wanted) == word_view(prefix),
                names_view(out@) == all.subrange(0, k as int).filter(keep),
            decreases self.properties@.len() - k,
        {
            proof {
                lemma_filter_step(all, keep, k as int);
            }
            let name = &self.properties[k];
            if name.as_str().unicode_len() > 0 && fits_prefix(name.as_str(), &wanted) && !holds(
                filter,
                name,
            ) {
                let ghost before = names_view(out@);
                out.push(name.clone());
                assert(names_view(out@) =~= before.push(all[k as int]));
            }
            k += 1;
        }
        assert(all.subrange(0, k as int) =~= all);
        out
    }

    /// The element types that can take the output, best match first, with
    /// names that fit the prefix.
    pub fn get_compatible_elements(&self, prefix: Option<&str>) -> (out: Vec<String>)
        ensures
            names_view(out@) == ranked_names(consumers_view(self.consumers@), word_view(prefix)),
    {
        rank(&self.consumers, prefix)
    }
}

} // verus!
