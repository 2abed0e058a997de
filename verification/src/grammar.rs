//! The grammar of a partial pipeline description.
//!
//! A line is one or more stages. A stage is a `!`, one or more blanks, the
//! element type, and then assignments `name = value` and at most one link
//! `stage.pad`, each followed by blanks. Flags (a `-` and more characters up
//! to the next blank) may stand between any two of these and are skipped. The
//! spec functions below say where each of these parts ends; the executable
//! functions are proved to find the same places.

use crate::chars::{
    all_ident, all_in, blank, ident, ident_at, is_all_ident, lemma_run_end, letters_of, mark_letters,
    member, run_end, scan, slice, text_of, to_chars, CharClass,
};
use vstd::prelude::*;

verus! {

/// A reference to an output pad of an earlier stage: `name.pad`, either side
/// optional, never both absent.
#[derive(Clone, Debug, PartialEq, Eq)]
pub struct PadLink {
    pub source_stage_name: Option<String>,
    pub pad_name: Option<String>,
}

/// One stage of a pipeline description.
#[derive(Clone, Debug, PartialEq, Eq)]
pub struct Stage {
    pub element_type: String,
    /// The assignments in the order they were written; repeated names are kept.
    pub properties: Vec<(String, String)>,
    pub link: Option<PadLink>,
}

pub struct PadLinkView {
    pub source_stage_name: Option<Seq<char>>,
    pub pad_name: Option<Seq<char>>,
}

pub struct StageView {
    pub element_type: Seq<char>,
    pub properties: Seq<(Seq<char>, Seq<char>)>,
    pub link: Option<PadLinkView>,
}

pub open spec fn properties_view(props: Seq<(String, String)>) -> Seq<(Seq<char>, Seq<char>)> {
    Seq::new(props.len(), |i: int| (props[i].0@, props[i].1@))
}

impl View for PadLink {
    type V = PadLinkView;

    open spec fn view(&self) -> PadLinkView {
        PadLinkView {
            source_stage_name: text_of(self.source_stage_name),
            pad_name: text_of(self.pad_name),
        }
    }
}

impl View for Stage {
    type V = StageView;

    open spec fn view(&self) -> StageView {
        StageView {
            element_type: self.element_type@,
            properties: properties_view(self.properties@),
            link: match self.link {
                Some(l) => Some(l@),
                None => None,
            },
        }
    }
}

pub open spec fn stages_view(stages: Seq<Stage>) -> Seq<StageView> {
    Seq::new(stages.len(), |i: int| stages[i]@)
}

/// Why a line holds no stage at all.
#[derive(Clone, Copy, Debug, PartialEq, Eq)]
pub enum ParseErrorKind {
    /// The stage does not start with `!`.
    Separator,
    /// No space or tab follows the `!`.
    Whitespace,
    /// The line ends where the type name should stand.
    MissingTypeName,
    /// The word in the place of the type name holds a character that no name has.
    InvalidTypeName,
    /// The stage ends in a lone `.`.
    EmptyLink,
}

/// The first stage of the line could not be read.
#[derive(Clone, Debug, PartialEq, Eq)]
pub struct ParseError {
    /// 0 if the opening of the first stage was read, -1 if not.
    pub cursor_stage_index: i64,
    /// The text from the place of the fault to the end of the line.
    pub input: String,
    pub kind: ParseErrorKind,
}

/// What was read of a line.
#[derive(Clone, Debug, PartialEq, Eq)]
pub struct ParseOutcome {
    /// The index of the last stage whose opening was read.
    pub cursor_stage_index: i64,
    pub stages: Vec<Stage>,
    /// The text that was not read.
    pub remainder: String,
}

/// Where the flags that start at `p` end. A flag is a `-`, at least one more
/// character that is no blank, and the blanks behind it.
pub open spec fn flags_end(s: Seq<char>, p: int) -> int
    decreases s.len() - p,
{
    let word = run_end(s, CharClass::Word, p + 1);
    let next = run_end(s, CharClass::Blank, word);
    if 0 <= p < s.len() && s[p] == '-' && word > p + 1 && p < next <= s.len() {
        flags_end(s, next)
    } else {
        p
    }
}

/// A value in quotes at `p`: where its text starts and ends, and where what
/// follows it (a quote, blanks, flags) ends.
pub open spec fn quoted_value_at(s: Seq<char>, p: int) -> Option<(int, int, int)> {
    let open = run_end(s, CharClass::Quote, p);
    let close = run_end(s, CharClass::Quoted, open);
    let gap = run_end(s, CharClass::Blank, close + 1);
    if open > p && close > open && close < s.len() && gap > close + 1 {
        Some((open, close, flags_end(s, gap)))
    } else {
        None
    }
}

/// A value without quotes at `p`: a word with blanks behind it.
pub open spec fn plain_value_at(s: Seq<char>, p: int) -> Option<(int, int, int)> {
    let stop = run_end(s, CharClass::Word, p);
    let gap = run_end(s, CharClass::Blank, stop);
    if stop > p && gap > stop && all_in(s, CharClass::Quoted, p, stop) {
        Some((p, stop, flags_end(s, gap)))
    } else {
        None
    }
}

pub open spec fn value_at(s: Seq<char>, p: int) -> Option<(int, int, int)> {
    match quoted_value_at(s, p) {
        Some(v) => Some(v),
        None => plain_value_at(s, p),
    }
}

/// An assignment at `p`: the end of its name, the start and end of its value,
/// and where the next token starts.
pub open spec fn property_at(s: Seq<char>, w: Seq<bool>, p: int) -> Option<(int, int, int, int)> {
    let name_end = run_end(s, CharClass::Key, p);
    let eq = run_end(s, CharClass::Blank, name_end);
    let value = value_at(s, run_end(s, CharClass::Blank, eq + 1));
    if 0 <= p < s.len() && s[p] != '!' && name_end > p && all_ident(s, w, p, name_end)
        && eq < s.len() && s[eq] == '=' {
        match value {
            Some((from, to, end)) => Some((name_end, from, to, end)),
            None => None,
        }
    } else {
        None
    }
}

/// The assignments from `p` on, and where they end.
pub open spec fn properties_from(s: Seq<char>, w: Seq<bool>, p: int) -> (Seq<(Seq<char>, Seq<char>)>, int)
    decreases s.len() - p,
{
    match property_at(s, w, p) {
        Some((name_end, from, to, end)) => {
            if p < end <= s.len() {
                let rest = properties_from(s, w, end);
                (seq![(s.subrange(p, name_end), s.subrange(from, to))] + rest.0, rest.1)
            } else {
                (Seq::empty(), p)
            }
        },
        None => (Seq::empty(), p),
    }
}

/// A link at `p`: the end of the stage's name (the place of the `.`) and the
/// end of the pad's name.
pub open spec fn link_at(s: Seq<char>, p: int) -> Option<(int, int)> {
    let dot = run_end(s, CharClass::Source, p);
    if 0 <= p < s.len() && s[p] != '!' && dot < s.len() && s[dot] == '.' {
        Some((dot, run_end(s, CharClass::Word, dot + 1)))
    } else {
        None
    }
}

pub open spec fn optional_text(s: Seq<char>, from: int, to: int) -> Option<Seq<char>> {
    if from < to {
        Some(s.subrange(from, to))
    } else {
        None
    }
}

/// What reading one stage at `p` gives.
pub enum StageParse {
    /// A stage, and the place where the next one may start.
    Parsed { stage: StageView, end: int },
    /// No stage: the place and kind of the fault, and whether the stage's
    /// opening (the `!`, blanks, flags) had been read before it.
    Failed { at: int, kind: ParseErrorKind, opened: bool },
}

/// The grammar of one stage: `!`, blanks, flags, the type name, blanks,
/// flags, assignments, flags, an optional link, blanks.
pub open spec fn stage_at(s: Seq<char>, w: Seq<bool>, p: int) -> StageParse {
    let gap = run_end(s, CharClass::Blank, p + 1);
    let head = flags_end(s, gap);
    let name_end = run_end(s, CharClass::Word, head);
    let props = properties_from(s, w, flags_end(s, run_end(s, CharClass::Blank, name_end)));
    let tail = flags_end(s, props.1);
    if !(0 <= p < s.len() && s[p] == '!') {
        StageParse::Failed { at: p, kind: ParseErrorKind::Separator, opened: false }
    } else if gap == p + 1 {
        StageParse::Failed { at: p + 1, kind: ParseErrorKind::Whitespace, opened: false }
    } else if name_end == head {
        StageParse::Failed { at: head, kind: ParseErrorKind::MissingTypeName, opened: true }
    } else if !all_ident(s, w, head, name_end) {
        StageParse::Failed { at: head, kind: ParseErrorKind::InvalidTypeName, opened: true }
    } else {
        match link_at(s, tail) {
            None => StageParse::Parsed {
                stage: StageView {
                    element_type: s.subrange(head, name_end),
                    properties: props.0,
                    link: None,
                },
                end: run_end(s, CharClass::Blank, tail),
            },
            Some((dot, pad_end)) => {
                if dot == tail && pad_end == dot + 1 {
                    StageParse::Failed { at: tail, kind: ParseErrorKind::EmptyLink, opened: true }
                } else {
                    StageParse::Parsed {
                        stage: StageView {
                            element_type: s.subrange(head, name_end),
                            properties: props.0,
                            link: Some(
                                PadLinkView {
                                    source_stage_name: optional_text(s, tail, dot),
                                    pad_name: optional_text(s, dot + 1, pad_end),
                                },
                            ),
                        },
                        end: run_end(s, CharClass::Blank, pad_end),
                    }
                }
            },
        }
    }
}

/// What reading stages from `p` on gives: the stages, the place where reading
/// stopped, and the number of stage openings that were read on the way (one
/// more than the stages where the last stage failed after its opening).
pub open spec fn stages_from(s: Seq<char>, w: Seq<bool>, p: int) -> (Seq<StageView>, int, int)
    decreases s.len() - p,
{
    match stage_at(s, w, p) {
        StageParse::Parsed { stage, end } => {
            if p < end <= s.len() {
                let rest = stages_from(s, w, end);
                (seq![stage] + rest.0, rest.1, rest.2 + 1)
            } else {
                (Seq::empty(), p, 0)
            }
        },
        StageParse::Failed { at, kind, opened } => (Seq::empty(), p, if opened { 1int } else { 0int }),
    }
}

/// The flags end inside the text, at or behind their start.
pub proof fn lemma_flags_end(s: Seq<char>, p: int)
    requires
        0 <= p <= s.len(),
    ensures
        p <= flags_end(s, p) <= s.len(),
    decreases s.len() - p,
{
    if p < s.len() {
        let word = run_end(s, CharClass::Word, p + 1);
        lemma_run_end(s, CharClass::Word, p + 1);
        lemma_run_end(s, CharClass::Blank, word);
        let next = run_end(s, CharClass::Blank, word);
        if s[p] == '-' && word > p + 1 {
            lemma_flags_end(s, next);
        }
    }
}

/// The parts of a value lie in order inside the text.
pub proof fn lemma_value_at(s: Seq<char>, p: int)
    requires
        0 <= p <= s.len(),
    ensures
        match value_at(s, p) {
            Some((from, to, end)) => p <= from < to < end <= s.len(),
            None => true,
        },
{
    lemma_run_end(s, CharClass::Quote, p);
    let open = run_end(s, CharClass::Quote, p);
    lemma_run_end(s, CharClass::Quoted, open);
    let close = run_end(s, CharClass::Quoted, open);
    if close < s.len() {
        lemma_run_end(s, CharClass::Blank, close + 1);
        lemma_flags_end(s, run_end(s, CharClass::Blank, close + 1));
    }
    lemma_run_end(s, CharClass::Word, p);
    let stop = run_end(s, CharClass::Word, p);
    lemma_run_end(s, CharClass::Blank, stop);
    lemma_flags_end(s, run_end(s, CharClass::Blank, stop));
}

/// The parts of an assignment lie in order inside the text.
pub proof fn lemma_property_at(s: Seq<char>, w: Seq<bool>, p: int)
    requires
        0 <= p <= s.len(),
    ensures
        match property_at(s, w, p) {
            Some((name_end, from, to, end)) => p < name_end < from < to < end <= s.len(),
            None => true,
        },
{
    lemma_run_end(s, CharClass::Key, p);
    let name_end = run_end(s, CharClass::Key, p);
    lemma_run_end(s, CharClass::Blank, name_end);
    let eq = run_end(s, CharClass::Blank, name_end);
    if eq < s.len() {
        lemma_run_end(s, CharClass::Blank, eq + 1);
        lemma_value_at(s, run_end(s, CharClass::Blank, eq + 1));
    }
}

/// The assignments end inside the text, at or behind their start.
pub proof fn lemma_properties_from(s: Seq<char>, w: Seq<bool>, p: int)
    requires
        0 <= p <= s.len(),
    ensures
        p <= properties_from(s, w, p).1 <= s.len(),
    decreases s.len() - p,
{
    lemma_property_at(s, w, p);
    match property_at(s, w, p) {
        Some((name_end, from, to, end)) => {
            lemma_properties_from(s, w, end);
        },
        None => {},
    }
}

/// A stage takes at least three characters, and a fault lies inside the text.
pub proof fn lemma_stage_at(s: Seq<char>, w: Seq<bool>, p: int)
    requires
        0 <= p <= s.len(),
    ensures
        match stage_at(s, w, p) {
            StageParse::Parsed { stage, end } => p + 3 <= end <= s.len(),
            StageParse::Failed { at, kind, opened } => p <= at <= s.len() && (opened <==> opens_stage(
                s,
                p,
            )),
        },
{
    if p < s.len() && s[p] == '!' {
        lemma_run_end(s, CharClass::Blank, p + 1);
        let gap = run_end(s, CharClass::Blank, p + 1);
        lemma_flags_end(s, gap);
        let head = flags_end(s, gap);
        lemma_run_end(s, CharClass::Word, head);
        let name_end = run_end(s, CharClass::Word, head);
        lemma_run_end(s, CharClass::Blank, name_end);
        let after = run_end(s, CharClass::Blank, name_end);
        lemma_flags_end(s, after);
        lemma_properties_from(s, w, flags_end(s, after));
        let props = properties_from(s, w, flags_end(s, after));
        lemma_flags_end(s, props.1);
        let tail = flags_end(s, props.1);
        lemma_run_end(s, CharClass::Blank, tail);
        lemma_run_end(s, CharClass::Source, tail);
        let dot = run_end(s, CharClass::Source, tail);
        if dot < s.len() {
            lemma_run_end(s, CharClass::Word, dot + 1);
            lemma_run_end(s, CharClass::Blank, run_end(s, CharClass::Word, dot + 1));
        }
    }
}

/// A stage opens at `p`: a `!` with a blank behind it.
pub open spec fn opens_stage(s: Seq<char>, p: int) -> bool {
    0 <= p && p + 1 < s.len() && s[p] == '!' && blank(s[p + 1])
}

/// Reading stops inside the text. The openings read are as many as the
/// stages, and one more exactly where a stage opens at the place where
/// reading stopped.
pub proof fn lemma_stages_from(s: Seq<char>, w: Seq<bool>, p: int)
    requires
        0 <= p <= s.len(),
    ensures
        p <= stages_from(s, w, p).1 <= s.len(),
        stages_from(s, w, p).2 == stages_from(s, w, p).0.len() + (if opens_stage(
            s,
            stages_from(s, w, p).1,
        ) {
            1int
        } else {
            0int
        }),
        stages_from(s, w, p).0.len() > 0 <==> stage_at(s, w, p) is Parsed,
    decreases s.len() - p,
{
    lemma_stage_at(s, w, p);
    match stage_at(s, w, p) {
        StageParse::Parsed { stage, end } => {
            lemma_stages_from(s, w, end);
        },
        StageParse::Failed { at, kind, opened } => {},
    }
}

/// A name: one or more letters, digits, `-` and `_`.
pub open spec fn is_name(t: Seq<char>) -> bool {
    t.len() > 0 && forall|i: int| 0 <= i < t.len() ==> ident(#[trigger] t[i])
}

/// A value: one or more characters, none of them a quote.
pub open spec fn is_value(t: Seq<char>) -> bool {
    t.len() > 0 && all_in(t, CharClass::Quoted, 0, t.len() as int)
}

/// What holds of every stage that the grammar gives: its type and the names
/// of its properties are names, its values are values, and a link names a
/// stage or a pad, each with at least one character.
pub open spec fn well_formed(stage: StageView) -> bool {
    &&& is_name(stage.element_type)
    &&& forall|k: int|
        0 <= k < stage.properties.len() ==> is_name((#[trigger] stage.properties[k]).0)
            && is_value(stage.properties[k].1)
    &&& match stage.link {
        Some(link) => {
            &&& link.source_stage_name is Some || link.pad_name is Some
            &&& link.source_stage_name is Some ==> link.source_stage_name->0.len() > 0
            &&& link.pad_name is Some ==> link.pad_name->0.len() > 0
        },
        None => true,
    }
}

/// A part of the text whose characters all belong to a class is, taken by
/// itself, a text of that class.
pub proof fn lemma_all_in_part(s: Seq<char>, class: CharClass, from: int, to: int)
    requires
        0 <= from <= to <= s.len(),
        all_in(s, class, from, to),
    ensures
        all_in(s.subrange(from, to), class, 0, to - from),
{
    let t = s.subrange(from, to);
    assert forall|i: int| 0 <= i < to - from implies member(class, #[trigger] t[i]) by {
        assert(t[i] == s[from + i]);
    }
}

/// A part of the text that holds only name characters is a name.
pub proof fn lemma_name_part(s: Seq<char>, from: int, to: int)
    requires
        0 <= from < to <= s.len(),
        all_ident(s, letters_of(s), from, to),
    ensures
        is_name(s.subrange(from, to)),
{
    let t = s.subrange(from, to);
    assert forall|i: int| 0 <= i < t.len() implies ident(#[trigger] t[i]) by {
        assert(t[i] == s[from + i]);
        assert(ident_at(s, letters_of(s), from + i));
    }
}

/// Every assignment that the grammar reads has a name and a value.
pub proof fn lemma_properties_well_formed(s: Seq<char>, w: Seq<bool>, p: int)
    requires
        0 <= p <= s.len(),
        w == letters_of(s),
    ensures
        forall|k: int|
            0 <= k < properties_from(s, w, p).0.len() ==> is_name(
                (#[trigger] properties_from(s, w, p).0[k]).0,
            ) && is_value(properties_from(s, w, p).0[k].1),
    decreases s.len() - p,
{
    lemma_property_at(s, w, p);
    match property_at(s, w, p) {
        Some((name_end, from, to, end)) => {
            let rest = properties_from(s, w, end);
            let item = (s.subrange(p, name_end), s.subrange(from, to));
            lemma_properties_well_formed(s, w, end);
            lemma_name_part(s, p, name_end);
            let eq = run_end(s, CharClass::Blank, name_end);
            let start = run_end(s, CharClass::Blank, eq + 1);
            lemma_run_end(s, CharClass::Blank, name_end);
            lemma_run_end(s, CharClass::Blank, eq + 1);
            lemma_run_end(s, CharClass::Quote, start);
            lemma_run_end(s, CharClass::Quoted, run_end(s, CharClass::Quote, start));
            lemma_all_in_part(s, CharClass::Quoted, from, to);
            let all = properties_from(s, w, p).0;
            assert(all == seq![item] + rest.0);
            assert forall|k: int| 0 <= k < all.len() implies is_name((#[trigger] all[k]).0)
                && is_value(all[k].1) by {
                if k > 0 {
                    assert(all[k] == rest.0[k - 1]);
                }
            }
        },
        None => {},
    }
}

/// Every stage that the grammar reads is well formed.
pub proof fn lemma_stage_well_formed(s: Seq<char>, w: Seq<bool>, p: int)
    requires
        0 <= p <= s.len(),
        w == letters_of(s),
    ensures
        stage_at(s, w, p) is Parsed ==> well_formed(stage_at(s, w, p)->stage),
{
    lemma_stage_at(s, w, p);
    if stage_at(s, w, p) is Parsed {
        let gap = run_end(s, CharClass::Blank, p + 1);
        lemma_run_end(s, CharClass::Blank, p + 1);
        lemma_flags_end(s, gap);
        let head = flags_end(s, gap);
        lemma_run_end(s, CharClass::Word, head);
        let name_end = run_end(s, CharClass::Word, head);
        lemma_name_part(s, head, name_end);
        lemma_run_end(s, CharClass::Blank, name_end);
        let after = run_end(s, CharClass::Blank, name_end);
        lemma_flags_end(s, after);
        lemma_properties_from(s, w, flags_end(s, after));
        lemma_properties_well_formed(s, w, flags_end(s, after));
        let props = properties_from(s, w, flags_end(s, after));
        lemma_flags_end(s, props.1);
        let tail = flags_end(s, props.1);
        lemma_run_end(s, CharClass::Source, tail);
        let dot = run_end(s, CharClass::Source, tail);
        if dot < s.len() {
            lemma_run_end(s, CharClass::Word, dot + 1);
        }
    }
}

/// Every stage of a line that the grammar reads is well formed.
pub proof fn lemma_stages_well_formed(s: Seq<char>, w: Seq<bool>, p: int)
    requires
        0 <= p <= s.len(),
        w == letters_of(s),
    ensures
        forall|i: int|
            0 <= i < stages_from(s, w, p).0.len() ==> well_formed(#[trigger] stages_from(s, w, p).0[i]),
    decreases s.len() - p,
{
    lemma_stage_at(s, w, p);
    lemma_stage_well_formed(s, w, p);
    match stage_at(s, w, p) {
        StageParse::Parsed { stage, end } => {
            lemma_stages_well_formed(s, w, end);
            let rest = stages_from(s, w, end);
            let all = stages_from(s, w, p).0;
            assert(all == seq![stage] + rest.0);
            assert forall|i: int| 0 <= i < all.len() implies well_formed(#[trigger] all[i]) by {
                if i > 0 {
                    assert(all[i] == rest.0[i - 1]);
                }
            }
        },
        StageParse::Failed { at, kind, opened } => {},
    }
}

fn all_of(s: &Vec<char>, class: CharClass, from: usize, to: usize) -> (b: bool)
    requires
        from <= to <= s@.len(),
    ensures
        b == all_in(s@, class, from as int, to as int),
{
    proof {
        lemma_run_end(s@, class, from as int);
    }
    scan(s, class, from) >= to
}

fn skip_flags(s: &Vec<char>, start: usize) -> (end: usize)
    requires
        start <= s@.len(),
    ensures
        end == flags_end(s@, start as int),
        start <= end <= s@.len(),
{
    let mut p: usize = start;
    let mut going = true;
    while going
        invariant
            start <= p <= s@.len(),
            flags_end(s@, start as int) == flags_end(s@, p as int),
            !going ==> flags_end(s@, p as int) == p,
        decreases s@.len() - p + (if going { 1int } else { 0int }),
    {
        going = false;
        if p < s.len() && s[p] == '-' {
            let word = scan(s, CharClass::Word, p + 1);
            if word > p + 1 {
                p = scan(s, CharClass::Blank, word);
                going = true;
            }
        }
    }
    p
}

fn parse_value(s: &Vec<char>, p: usize) -> (r: Option<(usize, usize, usize)>)
    requires
        p <= s@.len(),
    ensures
        match r {
            Some((from, to, end)) => value_at(s@, p as int) == Some(
                (from as int, to as int, end as int),
            ),
            None => value_at(s@, p as int) is None,
        },
{
    let open = scan(s, CharClass::Quote, p);
    if open > p {
        let close = scan(s, CharClass::Quoted, open);
        if close > open && close < s.len() {
            let gap = scan(s, CharClass::Blank, close + 1);
            if gap > close + 1 {
                return Some((open, close, skip_flags(s, gap)));
            }
        }
    }
    let stop = scan(s, CharClass::Word, p);
    let gap = scan(s, CharClass::Blank, stop);
    if stop > p && gap > stop && all_of(s, CharClass::Quoted, p, stop) {
        Some((p, stop, skip_flags(s, gap)))
    } else {
        None
    }
}

fn parse_property(s: &Vec<char>, w: &Vec<bool>, p: usize) -> (r: Option<
    (usize, usize, usize, usize),
>)
    requires
        p <= s@.len(),
    ensures
        match r {
            Some((name_end, from, to, end)) => property_at(s@, w@, p as int) == Some(
                (name_end as int, from as int, to as int, end as int),
            ),
            None => property_at(s@, w@, p as int) is None,
        },
{
    if p >= s.len() || s[p] == '!' {
        return None;
    }
    let name_end = scan(s, CharClass::Key, p);
    if name_end == p || !is_all_ident(s, w, p, name_end) {
        return None;
    }
    let eq = scan(s, CharClass::Blank, name_end);
    if eq >= s.len() || s[eq] != '=' {
        return None;
    }
    let start = scan(s, CharClass::Blank, eq + 1);
    match parse_value(s, start) {
        Some((from, to, end)) => Some((name_end, from, to, end)),
        None => None,
    }
}

fn parse_properties(line: &str, s: &Vec<char>, w: &Vec<bool>, start: usize) -> (r: (
    Vec<(String, String)>,
    usize,
))
    requires
        line@ == s@,
        start <= s@.len(),
    ensures
        properties_view(r.0@) == properties_from(s@, w@, start as int).0,
        r.1 == properties_from(s@, w@, start as int).1,
        start <= r.1 <= s@.len(),
{
    let mut props: Vec<(String, String)> = Vec::new();
    let mut p: usize = start;
    let mut going = true;
    assert(properties_view(props@) + properties_from(s@, w@, p as int).0 =~= properties_from(s@, w@,
        start as int,
    ).0);
    while going
        invariant
            line@ == s@,
            start <= p <= s@.len(),
            going ==> properties_view(props@) + properties_from(s@, w@, p as int).0
                == properties_from(s@, w@, start as int).0,
            going ==> properties_from(s@, w@, p as int).1 == properties_from(s@, w@, start as int).1,
            !going ==> properties_view(props@) == properties_from(s@, w@, start as int).0,
            !going ==> p == properties_from(s@, w@, start as int).1,
        decreases s@.len() - p + (if going { 1int } else { 0int }),
    {
        proof {
            lemma_property_at(s@, w@, p as int);
        }
        match parse_property(s, w, p) {
            Some((name_end, from, to, end)) => {
                let ghost before = properties_view(props@);
                let name = slice(line, p, name_end);
                let value = slice(line, from, to);
                props.push((name, value));
                proof {
                    let item = (s@.subrange(p as int, name_end as int), s@.subrange(from as int, to as int));
                    let rest = properties_from(s@, w@, end as int);
                    assert(properties_view(props@) =~= before + seq![item]);
                    assert((before + seq![item]) + rest.0 =~= before + (seq![item] + rest.0));
                }
                p = end;
            },
            None => {
                going = false;
                assert(properties_view(props@) + Seq::<(Seq<char>, Seq<char>)>::empty()
                    =~= properties_view(props@));
            },
        }
    }
    (props, p)
}

fn parse_link(s: &Vec<char>, p: usize) -> (r: Option<(usize, usize)>)
    requires
        p <= s@.len(),
    ensures
        match r {
            Some((dot, pad_end)) => link_at(s@, p as int) == Some((dot as int, pad_end as int))
                && p <= dot < pad_end <= s@.len(),
            None => link_at(s@, p as int) is None,
        },
{
    if p >= s.len() || s[p] == '!' {
        return None;
    }
    let dot = scan(s, CharClass::Source, p);
    if dot < s.len() && s[dot] == '.' {
        Some((dot, scan(s, CharClass::Word, dot + 1)))
    } else {
        None
    }
}

fn optional_slice(line: &str, from: usize, to: usize) -> (r: Option<String>)
    requires
        from <= to <= line@.len(),
    ensures
        text_of(r) == optional_text(line@, from as int, to as int),
{
    if from < to {
        Some(slice(line, from, to))
    } else {
        None
    }
}

/// A fault found while reading a stage.
struct Fault {
    at: usize,
    kind: ParseErrorKind,
    opened: bool,
}

fn parse_stage(line: &str, s: &Vec<char>, w: &Vec<bool>, p: usize) -> (r: Result<
    (Stage, usize),
    Fault,
>)
    requires
        line@ == s@,
        p <= s@.len(),
    ensures
        match r {
            Ok((stage, end)) => stage_at(s@, w@, p as int) == (StageParse::Parsed {
                stage: stage@,
                end: end as int,
            }) && p + 3 <= end <= s@.len(),
            Err(f) => stage_at(s@, w@, p as int) == (StageParse::Failed {
                at: f.at as int,
                kind: f.kind,
                opened: f.opened,
            }) && p <= f.at <= s@.len(),
        },
{
    proof {
        lemma_stage_at(s@, w@, p as int);
    }
    if p >= s.len() || s[p] != '!' {
        return Err(Fault { at: p, kind: ParseErrorKind::Separator, opened: false });
    }
    let gap = scan(s, CharClass::Blank, p + 1);
    if gap == p + 1 {
        return Err(Fault { at: p + 1, kind: ParseErrorKind::Whitespace, opened: false });
    }
    let head = skip_flags(s, gap);
    let name_end = scan(s, CharClass::Word, head);
    if name_end == head {
        return Err(Fault { at: head, kind: ParseErrorKind::MissingTypeName, opened: true });
    }
    if !is_all_ident(s, w, head, name_end) {
        return Err(Fault { at: head, kind: ParseErrorKind::InvalidTypeName, opened: true });
    }
    let after = scan(s, CharClass::Blank, name_end);
    let first = skip_flags(s, after);
    let (properties, props_end) = parse_properties(line, s, w, first);
    let tail = skip_flags(s, props_end);
    match parse_link(s, tail) {
        None => {
            let end = scan(s, CharClass::Blank, tail);
            let stage = Stage { element_type: slice(line, head, name_end), properties, link: None };
            Ok((stage, end))
        },
        Some((dot, pad_end)) => {
            if dot == tail && pad_end == dot + 1 {
                Err(Fault { at: tail, kind: ParseErrorKind::EmptyLink, opened: true })
            } else {
                let end = scan(s, CharClass::Blank, pad_end);
                let link = PadLink {
                    source_stage_name: optional_slice(line, tail, dot),
                    pad_name: optional_slice(line, dot + 1, pad_end),
                };
                let stage = Stage {
                    element_type: slice(line, head, name_end),
                    properties,
                    link: Some(link),
                };
                Ok((stage, end))
            }
        },
    }
}

/// The text of `s` from `p` to its end.
pub open spec fn rest_of(s: Seq<char>, p: int) -> Seq<char> {
    s.subrange(p, s.len() as int)
}

/// The text opens a stage: it starts with `!` and a blank.
pub open spec fn opens(rem: Seq<char>) -> bool {
    opens_stage(rem, 0)
}

impl ParseOutcome {
    /// At least one stage was read, and the cursor's stage is the last one,
    /// or the one after it exactly where the remainder opens a further stage.
    pub open spec fn wf(&self) -> bool {
        &&& self.stages@.len() >= 1
        &&& self.cursor_stage_index == self.stages@.len() - 1 + (if opens(self.remainder@) {
            1int
        } else {
            0int
        })
    }
}

/// What `parse_marked` owes for a line and the marks of its letters.
pub open spec fn parse_result(
    line: Seq<char>,
    w: Seq<bool>,
    r: Result<ParseOutcome, ParseError>,
) -> bool {
    match r {
        Ok(o) => {
            &&& stage_at(line, w, 0) is Parsed
            &&& stages_view(o.stages@) == stages_from(line, w, 0).0
            &&& o.remainder@ == rest_of(line, stages_from(line, w, 0).1)
            &&& o.cursor_stage_index == stages_from(line, w, 0).2 - 1
            &&& o.wf()
        },
        Err(e) => {
            &&& stage_at(line, w, 0) is Failed
            &&& e.kind == stage_at(line, w, 0)->kind
            &&& e.input@ == rest_of(line, stage_at(line, w, 0)->at)
            &&& e.cursor_stage_index == (if stage_at(line, w, 0)->opened {
                0int
            } else {
                -1int
            })
        },
    }
}

/// Reads a partial pipeline description whose letters and digits are marked:
/// `letters[i]` tells whether the `i`-th character of the line is one. A
/// character without a mark counts as none.
///
/// The line is read as one or more stages. Reading stops at the first stage
/// that cannot be read, and what was not read is handed back as the
/// remainder. Where not even the first stage can be read the line is refused,
/// with the place and kind of the fault.
pub fn parse_marked(line: &str, letters: &Vec<bool>) -> (r: Result<ParseOutcome, ParseError>)
    ensures
        parse_result(line@, letters@, r),
{
    let s = to_chars(line);
    let w = letters;
    let n = s.len();
    proof {
        lemma_stages_from(s@, w@, 0);
    }
    match parse_stage(line, &s, w, 0) {
        Err(f) => {
            let index: i64 = if f.opened { 0 } else { -1 };
            Err(ParseError { cursor_stage_index: index, input: slice(line, f.at, n), kind: f.kind })
        },
        Ok((stage, end)) => {
            let mut stages: Vec<Stage> = Vec::new();
            stages.push(stage);
            let mut p: usize = end;
            let mut index: i64 = 0;
            let mut going = true;
            assert(stages_view(stages@) =~= seq![stage@]);
            while going
                invariant
                    line@ == s@,
                    n == s@.len(),
                    p <= n,
                    stages@.len() >= 1,
                    2 * stages@.len() <= p,
                    going ==> index == stages@.len() - 1,
                    going ==> stages_view(stages@) + stages_from(s@, w@, p as int).0
                        == stages_from(s@, w@, 0).0,
                    going ==> stages_from(s@, w@, p as int).1 == stages_from(s@, w@, 0).1,
                    going ==> stages@.len() + stages_from(s@, w@, p as int).2 == stages_from(
                        s@,
                        w@,
                        0,
                    ).2,
                    !going ==> stages_view(stages@) == stages_from(s@, w@, 0).0,
                    !going ==> p == stages_from(s@, w@, 0).1,
                    !going ==> index + 1 == stages_from(s@, w@, 0).2,
                decreases n - p + (if going { 1int } else { 0int }),
            {
                match parse_stage(line, &s, w, p) {
                    Ok((next, end)) => {
                        let ghost before = stages_view(stages@);
                        let ghost rest = stages_from(s@, w@, end as int);
                        stages.push(next);
                        proof {
                            assert(stages_view(stages@) =~= before + seq![next@]);
                            assert((before + seq![next@]) + rest.0 =~= before + (seq![next@]
                                + rest.0));
                        }
                        p = end;
                        index = index + 1;
                    },
                    Err(f) => {
                        going = false;
                        assert(stages_view(stages@) + Seq::<StageView>::empty() =~= stages_view(
                            stages@,
                        ));
                        if f.opened {
                            index = index + 1;
                        }
                    },
                }
            }
            let remainder = slice(line, p, n);
            proof {
                let rem = rest_of(s@, p as int);
                if p + 1 < n {
                    assert(rem[0] == s@[p as int]);
                    assert(rem[1] == s@[p + 1]);
                }
                assert(opens(rem) == opens_stage(s@, p as int));
            }
            Ok(ParseOutcome { cursor_stage_index: index, stages, remainder })
        },
    }
}

/// Reads a partial pipeline description. The letters and digits of the line
/// are those that the standard library takes for alphanumeric; the rest is
/// what `parse_marked` does. Every stage read is well formed.
pub fn parse(line: &str) -> (r: Result<ParseOutcome, ParseError>)
    ensures
        parse_result(line@, letters_of(line@), r),
        r is Ok ==> forall|i: int|
            0 <= i < r->Ok_0.stages@.len() ==> well_formed((#[trigger] r->Ok_0.stages@[i])@),
{
    let s = to_chars(line);
    let letters = mark_letters(&s);
    let r = parse_marked(line, &letters);
    proof {
        lemma_stages_well_formed(line@, letters@, 0);
        if r is Ok {
            let stages = r->Ok_0.stages@;
            assert forall|i: int| 0 <= i < stages.len() implies well_formed(
                (#[trigger] stages[i])@,
            ) by {
                assert(stages_view(stages)[i] == stages[i]@);
            }
        }
    }
    r
}

/// Where the remainder of a parsed line opens no further stage, the cursor's
/// stage is one of the stages read.
pub proof fn lemma_cursor_within_stages(line: Seq<char>, w: Seq<bool>)
    requires
        stage_at(line, w, 0) is Parsed,
        !opens(rest_of(line, stages_from(line, w, 0).1)),
    ensures
        0 <= stages_from(line, w, 0).2 - 1 < stages_from(line, w, 0).0.len(),
{
    lemma_stages_from(line, w, 0);
    let p = stages_from(line, w, 0).1;
    let rem = rest_of(line, p);
    if p + 1 < line.len() {
        assert(rem[0] == line[p]);
        assert(rem[1] == line[p + 1]);
    }
    assert(opens(rem) == opens_stage(line, p));
}

} // verus!
