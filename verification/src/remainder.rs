//! The judgement on the text that the grammar left unread.

use crate::chars::{
    all_ident, ident_end, lemma_ident_end, letters_of, mark_letters, run_end, scan, scan_ident, to_chars,
    CharClass,
};
use vstd::prelude::*;

verus! {

/// What the text left unread says about the place of the cursor.
#[derive(Clone, Copy, Debug, PartialEq, Eq)]
pub enum Verdict {
    /// A new stage may start here, or a single name is being typed.
    Sane,
    /// The value of an assignment is being typed: only file paths fit.
    CompletePath,
    /// Nothing can be suggested.
    Reject,
}

/// The text is a `!` and one or more blanks, and nothing else.
pub open spec fn fresh_stage(rem: Seq<char>) -> bool {
    rem.len() >= 2 && rem[0] == '!' && run_end(rem, CharClass::Blank, 1) == rem.len()
}

/// The text is a name and nothing else.
pub open spec fn single_name(rem: Seq<char>, letters: Seq<bool>) -> bool {
    ident_end(rem, letters, 0) == rem.len()
}

/// The text is a name, optional blanks, `=`, and anything behind it.
pub open spec fn open_assignment(rem: Seq<char>, letters: Seq<bool>) -> bool {
    let name_end = ident_end(rem, letters, 0);
    let eq = run_end(rem, CharClass::Blank, name_end);
    name_end > 0 && 0 <= eq < rem.len() && rem[eq] == '='
}

/// The verdict on a remainder, given the marks of its letters and digits.
pub open spec fn verdict(rem: Seq<char>, letters: Seq<bool>) -> Verdict {
    if rem.len() == 0 || fresh_stage(rem) || single_name(rem, letters) {
        Verdict::Sane
    } else if open_assignment(rem, letters) {
        Verdict::CompletePath
    } else {
        Verdict::Reject
    }
}

/// Judges the text that the grammar left unread, with its letters and digits
/// marked: `letters[i]` tells whether the `i`-th character is one. A
/// character without a mark counts as none.
pub fn classify_marked(remainder: &str, letters: &Vec<bool>) -> (v: Verdict)
    ensures
        v == verdict(remainder@, letters@),
{
    let s = to_chars(remainder);
    let n = s.len();
    if n == 0 {
        return Verdict::Sane;
    }
    if n >= 2 && s[0] == '!' && scan(&s, CharClass::Blank, 1) == n {
        return Verdict::Sane;
    }
    let name_end = scan_ident(&s, letters, 0);
    if name_end == n {
        return Verdict::Sane;
    }
    let eq = scan(&s, CharClass::Blank, name_end);
    if name_end > 0 && eq < n && s[eq] == '=' {
        Verdict::CompletePath
    } else {
        Verdict::Reject
    }
}

/// Judges the text that the grammar left unread. The verdict depends on the
/// text alone: its letters and digits are those that the standard library
/// takes for alphanumeric.
pub fn classify(remainder: &str) -> (v: Verdict)
    ensures
        v == verdict(remainder@, letters_of(remainder@)),
{
    let s = to_chars(remainder);
    let letters = mark_letters(&s);
    classify_marked(remainder, &letters)
}

/// A text that holds only name characters is a single name, and the other
/// way round.
pub proof fn lemma_single_name(rem: Seq<char>, letters: Seq<bool>)
    ensures
        single_name(rem, letters) <==> all_ident(rem, letters, 0, rem.len() as int),
{
    lemma_ident_end(rem, letters, 0);
}

} // verus!
