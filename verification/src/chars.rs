//! Characters and runs of characters: the classes that the grammar tells
//! apart, and the passage between strings and sequences of characters.

use vstd::prelude::*;
use vstd::string::*;

verus! {

/// What `char::is_alphanumeric` of the standard library answers for `c`.
pub uninterp spec fn alphanumeric(c: char) -> bool;

/// Calls `char::is_alphanumeric`, the Unicode test for letters and digits.
/// Nothing is proved of it: the contract gives its answer a name.
#[verifier::external_body]
fn is_alphanumeric(c: char) -> (b: bool)
    ensures
        b == alphanumeric(c),
{
    c.is_alphanumeric()
}

/// What `char::is_whitespace` of the standard library answers for `c`.
pub uninterp spec fn whitespace(c: char) -> bool;

/// Calls `char::is_whitespace`, the Unicode test for white space. Nothing is
/// proved of it: the contract gives its answer a name.
#[verifier::external_body]
fn is_whitespace(c: char) -> (b: bool)
    ensures
        b == whitespace(c),
{
    c.is_whitespace()
}

/// The texts of a list of strings.
pub open spec fn names_view(names: Seq<String>) -> Seq<Seq<char>> {
    Seq::new(names.len(), |i: int| names[i]@)
}

/// The text of an optional string slice.
pub open spec fn word_view(word: Option<&str>) -> Option<Seq<char>> {
    match word {
        Some(w) => Some(w@),
        None => None,
    }
}

/// The text of an optional string.
pub open spec fn text_of(s: Option<String>) -> Option<Seq<char>> {
    match s {
        Some(t) => Some(t@),
        None => None,
    }
}

/// The sets of characters that runs are taken of.
#[derive(Clone, Copy, Debug, PartialEq, Eq)]
pub enum CharClass {
    /// Space and tab.
    Blank,
    /// Everything but space and tab.
    Word,
    /// Everything but space, tab and `=`.
    Key,
    /// The two quote characters.
    Quote,
    /// Everything but the two quote characters.
    Quoted,
    /// Everything but space, tab, `=` and `.`.
    Source,
    /// Everything but `%`.
    Fixed,
    /// Everything but the line feed.
    Line,
    /// Everything but the line feed and `:`.
    Field,
    /// Everything but the space.
    Unspaced,
}

pub open spec fn blank(c: char) -> bool {
    c == ' ' || c == '\t'
}

pub open spec fn quote(c: char) -> bool {
    c == '\'' || c == '"'
}

/// Letters and digits, `-` and `_`: the characters of type and property names.
pub open spec fn ident(c: char) -> bool {
    alphanumeric(c) || c == '-' || c == '_'
}

/// For each character of a text, whether it is a letter or a digit.
pub open spec fn letters_of(s: Seq<char>) -> Seq<bool> {
    Seq::new(s.len(), |i: int| alphanumeric(s[i]))
}

/// The character at `i` may stand in a name, given for each place of the text
/// whether a letter or digit stands there. A place without a mark holds none.
pub open spec fn ident_at(s: Seq<char>, letters: Seq<bool>, i: int) -> bool {
    (0 <= i < letters.len() && letters[i]) || s[i] == '-' || s[i] == '_'
}

/// Every character of `s` from `from` up to `to` may stand in a name.
pub open spec fn all_ident(s: Seq<char>, letters: Seq<bool>, from: int, to: int) -> bool {
    forall|i: int| from <= i < to ==> #[trigger] ident_at(s, letters, i)
}

/// The end of the longest run of name characters that starts at `start`.
pub open spec fn ident_end(s: Seq<char>, letters: Seq<bool>, start: int) -> int
    decreases s.len() - start,
{
    if 0 <= start < s.len() && ident_at(s, letters, start) {
        ident_end(s, letters, start + 1)
    } else {
        start
    }
}

/// A run of name characters ends inside the text, holds only name
/// characters, and stops at the first character that is none.
pub proof fn lemma_ident_end(s: Seq<char>, letters: Seq<bool>, start: int)
    requires
        0 <= start <= s.len(),
    ensures
        start <= ident_end(s, letters, start) <= s.len(),
        all_ident(s, letters, start, ident_end(s, letters, start)),
        ident_end(s, letters, start) < s.len() ==> !ident_at(
            s,
            letters,
            ident_end(s, letters, start),
        ),
    decreases s.len() - start,
{
    if start < s.len() && ident_at(s, letters, start) {
        lemma_ident_end(s, letters, start + 1);
    }
}

/// Membership of `c` in a class.
pub open spec fn member(class: CharClass, c: char) -> bool {
    match class {
        CharClass::Blank => blank(c),
        CharClass::Word => !blank(c),
        CharClass::Key => !blank(c) && c != '=',
        CharClass::Quote => quote(c),
        CharClass::Quoted => !quote(c),
        CharClass::Source => !blank(c) && c != '=' && c != '.',
        CharClass::Fixed => c != '%',
        CharClass::Line => c != '\n',
        CharClass::Field => c != '\n' && c != ':',
        CharClass::Unspaced => c != ' ',
    }
}

/// The end of the longest run of characters of `class` that starts at `start`.
pub open spec fn run_end(s: Seq<char>, class: CharClass, start: int) -> int
    decreases s.len() - start,
{
    if 0 <= start < s.len() && member(class, s[start]) {
        run_end(s, class, start + 1)
    } else {
        start
    }
}

/// Every character of `s` from `from` up to `to` belongs to `class`.
pub open spec fn all_in(s: Seq<char>, class: CharClass, from: int, to: int) -> bool {
    forall|i: int| from <= i < to ==> member(class, #[trigger] s[i])
}

/// A run ends inside the text, holds only characters of its class, and stops
/// at the first character outside it.
pub proof fn lemma_run_end(s: Seq<char>, class: CharClass, start: int)
    requires
        0 <= start <= s.len(),
    ensures
        start <= run_end(s, class, start) <= s.len(),
        all_in(s, class, start, run_end(s, class, start)),
        run_end(s, class, start) < s.len() ==> !member(class, s[run_end(s, class, start)]),
    decreases s.len() - start,
{
    if start < s.len() && member(class, s[start]) {
        lemma_run_end(s, class, start + 1);
    }
}

pub fn is_blank(c: char) -> (b: bool)
    ensures
        b == blank(c),
{
    c == ' ' || c == '\t'
}

pub fn is_quote(c: char) -> (b: bool)
    ensures
        b == quote(c),
{
    c == '\'' || c == '"'
}

/// Marks the letters and digits of a text.
pub fn mark_letters(s: &Vec<char>) -> (letters: Vec<bool>)
    ensures
        letters@ == letters_of(s@),
{
    let mut letters: Vec<bool> = Vec::new();
    let mut i: usize = 0;
    while i < s.len()
        invariant
            i <= s@.len(),
            letters@.len() == i,
            forall|j: int| 0 <= j < i ==> letters@[j] == alphanumeric(s@[j]),
        decreases s@.len() - i,
    {
        letters.push(is_alphanumeric(s[i]));
        i += 1;
    }
    assert(letters@ =~= letters_of(s@));
    letters
}

/// For each character of a text, whether it is white space.
pub open spec fn spaces_of(s: Seq<char>) -> Seq<bool> {
    Seq::new(s.len(), |i: int| whitespace(s[i]))
}

/// Marks the white space of a text.
pub fn mark_spaces(s: &Vec<char>) -> (spaces: Vec<bool>)
    ensures
        spaces@ == spaces_of(s@),
{
    let mut spaces: Vec<bool> = Vec::new();
    let mut i: usize = 0;
    while i < s.len()
        invariant
            i <= s@.len(),
            spaces@.len() == i,
            forall|j: int| 0 <= j < i ==> spaces@[j] == whitespace(s@[j]),
        decreases s@.len() - i,
    {
        spaces.push(is_whitespace(s[i]));
        i += 1;
    }
    assert(spaces@ =~= spaces_of(s@));
    spaces
}

/// Tells whether the character at `i` may stand in a name.
pub fn is_ident_at(s: &Vec<char>, letters: &Vec<bool>, i: usize) -> (b: bool)
    requires
        i < s@.len(),
    ensures
        b == ident_at(s@, letters@, i as int),
{
    (i < letters.len() && letters[i]) || s[i] == '-' || s[i] == '_'
}

/// Walks over the longest run of name characters from `start`.
pub fn scan_ident(s: &Vec<char>, letters: &Vec<bool>, start: usize) -> (end: usize)
    requires
        start <= s@.len(),
    ensures
        end == ident_end(s@, letters@, start as int),
        start <= end <= s@.len(),
{
    let mut i: usize = start;
    while i < s.len() && is_ident_at(s, letters, i)
        invariant
            start <= i <= s@.len(),
            ident_end(s@, letters@, start as int) == ident_end(s@, letters@, i as int),
        decreases s@.len() - i,
    {
        i += 1;
    }
    i
}

/// Tells whether every character from `from` up to `to` may stand in a name.
pub fn is_all_ident(s: &Vec<char>, letters: &Vec<bool>, from: usize, to: usize) -> (b: bool)
    requires
        from <= to <= s@.len(),
    ensures
        b == all_ident(s@, letters@, from as int, to as int),
{
    proof {
        lemma_ident_end(s@, letters@, from as int);
    }
    scan_ident(s, letters, from) >= to
}

pub fn is_member(class: CharClass, c: char) -> (b: bool)
    ensures
        b == member(class, c),
{
    match class {
        CharClass::Blank => is_blank(c),
        CharClass::Word => !is_blank(c),
        CharClass::Key => !is_blank(c) && c != '=',
        CharClass::Quote => is_quote(c),
        CharClass::Quoted => !is_quote(c),
        CharClass::Source => !is_blank(c) && c != '=' && c != '.',
        CharClass::Fixed => c != '%',
        CharClass::Line => c != '\n',
        CharClass::Field => c != '\n' && c != ':',
        CharClass::Unspaced => c != ' ',
    }
}

/// Walks over the longest run of characters of `class` from `start`.
pub fn scan(s: &Vec<char>, class: CharClass, start: usize) -> (end: usize)
    requires
        start <= s@.len(),
    ensures
        end == run_end(s@, class, start as int),
        start <= end <= s@.len(),
{
    let mut i: usize = start;
    while i < s.len() && is_member(class, s[i])
        invariant
            start <= i <= s@.len(),
            run_end(s@, class, start as int) == run_end(s@, class, i as int),
        decreases s@.len() - i,
    {
        i += 1;
    }
    i
}

/// The characters of a string, one by one.
pub fn to_chars(text: &str) -> (s: Vec<char>)
    ensures
        s@ == text@,
{
    let n: usize = text.unicode_len();
    let mut s: Vec<char> = Vec::new();
    let mut i: usize = 0;
    while i < n
        invariant
            n == text@.len(),
            i <= n,
            s@ == text@.subrange(0, i as int),
        decreases n - i,
    {
        s.push(text.get_char(i));
        i += 1;
        assert(s@ =~= text@.subrange(0, i as int));
    }
    assert(text@.subrange(0, n as int) =~= text@);
    s
}

/// The part of `text` from `from` up to `to`, as a string of its own.
pub fn slice(text: &str, from: usize, to: usize) -> (out: String)
    requires
        from <= to <= text@.len(),
    ensures
        out@ == text@.subrange(from as int, to as int),
{
    text.substring_char(from, to).to_owned()
}

/// Tells whether two strings hold the same text.
pub fn same_text(a: &str, b: &str) -> (same: bool)
    ensures
        same == (a@ == b@),
{
    let x = a.to_owned();
    let y = b.to_owned();
    x == y
}

} // verus!
