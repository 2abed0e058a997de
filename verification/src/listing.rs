//! The listing that the inspection tool of the media framework prints: one
//! line for each element type, `plugin:  element: description`, and other
//! lines that name no element.

use crate::chars::{
    all_in, lemma_run_end, mark_spaces, names_view, run_end, scan, slice, spaces_of, to_chars,
    CharClass,
};
use vstd::prelude::*;

verus! {

/// The place at `i` holds white space. A place without a mark holds none.
pub open spec fn space_at(spaces: Seq<bool>, i: int) -> bool {
    0 <= i < spaces.len() && spaces[i]
}

/// The first place from `from` up to `to` that holds no white space; `to`
/// where there is none.
pub open spec fn trim_start(spaces: Seq<bool>, from: int, to: int) -> int
    decreases to - from,
{
    if from < to && space_at(spaces, from) {
        trim_start(spaces, from + 1, to)
    } else {
        from
    }
}

/// The place behind the last one from `from` up to `to` that holds no white
/// space; `from` where there is none.
pub open spec fn trim_end(spaces: Seq<bool>, from: int, to: int) -> int
    decreases to - from,
{
    if from < to && space_at(spaces, to - 1) {
        trim_end(spaces, from, to - 1)
    } else {
        to
    }
}

pub open spec fn least(a: int, b: int) -> int {
    if a < b {
        a
    } else {
        b
    }
}

/// The element that the line from `from` names, if it names one: the line has
/// a `:`, no space stands before it, and the name is what stands behind it up
/// to the next `:`, without the white space around it and cut at its first
/// space.
pub open spec fn line_name(s: Seq<char>, spaces: Seq<bool>, from: int) -> Option<Seq<char>> {
    let colon = run_end(s, CharClass::Field, from);
    let field_end = run_end(s, CharClass::Field, colon + 1);
    let start = trim_start(spaces, colon + 1, field_end);
    let end = trim_end(spaces, start, field_end);
    if colon < s.len() && s[colon] == ':' && all_in(s, CharClass::Unspaced, from, colon) {
        Some(s.subrange(start, least(run_end(s, CharClass::Unspaced, start), end)))
    } else {
        None
    }
}

/// The elements that the lines from `from` on name, in their order.
pub open spec fn names_from(s: Seq<char>, spaces: Seq<bool>, from: int) -> Seq<Seq<char>>
    decreases s.len() - from,
{
    let line_end = run_end(s, CharClass::Line, from);
    let found = match line_name(s, spaces, from) {
        Some(name) => seq![name],
        None => Seq::empty(),
    };
    if 0 <= from <= line_end < s.len() {
        found + names_from(s, spaces, line_end + 1)
    } else {
        found
    }
}

fn skip_spaces(spaces: &Vec<bool>, from: usize, to: usize) -> (r: usize)
    requires
        from <= to,
    ensures
        r == trim_start(spaces@, from as int, to as int),
        from <= r <= to,
{
    let mut i: usize = from;
    while i < to && i < spaces.len() && spaces[i]
        invariant
            from <= i <= to,
            trim_start(spaces@, from as int, to as int) == trim_start(spaces@, i as int, to as int),
        decreases to - i,
    {
        i += 1;
    }
    i
}

fn drop_spaces(spaces: &Vec<bool>, from: usize, to: usize) -> (r: usize)
    requires
        from <= to,
    ensures
        r == trim_end(spaces@, from as int, to as int),
        from <= r <= to,
{
    let mut i: usize = to;
    while from < i && i - 1 < spaces.len() && spaces[i - 1]
        invariant
            from <= i <= to,
            trim_end(spaces@, from as int, to as int) == trim_end(spaces@, from as int, i as int),
        decreases i - from,
    {
        i -= 1;
    }
    i
}

fn name_in_line(listing: &str, s: &Vec<char>, spaces: &Vec<bool>, from: usize) -> (r: Option<String>)
    requires
        listing@ == s@,
        from <= s@.len(),
    ensures
        match r {
            Some(name) => line_name(s@, spaces@, from as int) == Some(name@),
            None => line_name(s@, spaces@, from as int) is None,
        },
{
    let colon = scan(s, CharClass::Field, from);
    if colon >= s.len() || s[colon] != ':' {
        return None;
    }
    proof {
        lemma_run_end(s@, CharClass::Unspaced, from as int);
    }
    if scan(s, CharClass::Unspaced, from) < colon {
        return None;
    }
    let field_end = scan(s, CharClass::Field, colon + 1);
    let start = skip_spaces(spaces, colon + 1, field_end);
    let end = drop_spaces(spaces, start, field_end);
    let space = scan(s, CharClass::Unspaced, start);
    let name_end = if space < end { space } else { end };
    Some(slice(listing, start, name_end))
}

/// Reads the names of the element types out of a listing whose white space
/// is marked: `spaces[i]` tells whether the `i`-th character is white space.
///
/// Each line that has a `:` with no space before it names an element: the
/// name stands between that `:` and the next one, and is taken without the
/// white space around it and up to its first space. Other lines name none.
pub fn listed_names_marked(listing: &str, spaces: &Vec<bool>) -> (names: Vec<String>)
    ensures
        names_view(names@) == names_from(listing@, spaces@, 0),
{
    let s = to_chars(listing);
    let n = s.len();
    let mut names: Vec<String> = Vec::new();
    let mut from: usize = 0;
    let mut going = true;
    assert(names_view(names@) + names_from(s@, spaces@, 0) =~= names_from(s@, spaces@, 0));
    while going
        invariant
            listing@ == s@,
            n == s@.len(),
            from <= n,
            going ==> names_view(names@) + names_from(s@, spaces@, from as int) == names_from(
                s@,
                spaces@,
                0,
            ),
            !going ==> names_view(names@) == names_from(s@, spaces@, 0),
        decreases n - from + (if going { 1int } else { 0int }),
    {
        let ghost before = names_view(names@);
        let ghost found = match line_name(s@, spaces@, from as int) {
            Some(name) => seq![name],
            None => Seq::empty(),
        };
        match name_in_line(listing, &s, spaces, from) {
            Some(name) => {
                names.push(name);
            },
            None => {},
        }
        assert(names_view(names@) =~= before + found);
        let line_end = scan(&s, CharClass::Line, from);
        if line_end < n {
            proof {
                let rest = names_from(s@, spaces@, line_end + 1);
                assert((before + found) + rest =~= before + (found + rest));
            }
            from = line_end + 1;
        } else {
            going = false;
        }
    }
    names
}

/// Reads the names of the element types out of a listing. White space is
/// what the standard library takes for it; the rest is what
/// `listed_names_marked` does.
pub fn listed_names(listing: &str) -> (names: Vec<String>)
    ensures
        names_view(names@) == names_from(listing@, spaces_of(listing@), 0),
{
    let s = to_chars(listing);
    let spaces = mark_spaces(&s);
    listed_names_marked(listing, &spaces)
}

} // verus!
