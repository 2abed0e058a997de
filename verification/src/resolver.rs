//! From the stages read and the word under the cursor to the request that is
//! put to the catalog of element types.

use crate::chars::{letters_of, names_view, same_text, text_of, word_view};
use crate::grammar::{
    parse, rest_of, stage_at, stages_from, stages_view, ParseOutcome, Stage, StageView,
};
use crate::remainder::{classify, verdict, Verdict};
use vstd::prelude::*;

verus! {

/// What is to be looked up in the catalog of element types to answer a
/// completion request.
#[derive(Clone, Debug, PartialEq, Eq)]
pub enum SuggestionRequest {
    /// Nothing is suggested.
    Nothing,
    /// File paths are suggested; the catalog is not asked.
    Paths,
    /// The names of all element types that start with the prefix.
    ElementNames { prefix: Option<String> },
    /// The element types that can take what the given output of the source
    /// type produces, best match first.
    CompatibleElements { source_type: String, channel: Option<String>, prefix: Option<String> },
    /// The properties of the element type that are not set yet.
    PropertyNames { element_type: String, exclude: Vec<String>, prefix: Option<String> },
}

pub enum RequestView {
    Nothing,
    Paths,
    ElementNames { prefix: Option<Seq<char>> },
    CompatibleElements { source_type: Seq<char>, channel: Option<Seq<char>>, prefix: Option<Seq<char>> },
    PropertyNames { element_type: Seq<char>, exclude: Seq<Seq<char>>, prefix: Option<Seq<char>> },
}

impl View for SuggestionRequest {
    type V = RequestView;

    open spec fn view(&self) -> RequestView {
        match *self {
            SuggestionRequest::Nothing => RequestView::Nothing,
            SuggestionRequest::Paths => RequestView::Paths,
            SuggestionRequest::ElementNames { prefix } => RequestView::ElementNames {
                prefix: text_of(prefix),
            },
            SuggestionRequest::CompatibleElements {
                source_type,
                channel,
                prefix,
            } => RequestView::CompatibleElements {
                source_type: source_type@,
                channel: text_of(channel),
                prefix: text_of(prefix),
            },
            SuggestionRequest::PropertyNames {
                element_type,
                exclude,
                prefix,
            } => RequestView::PropertyNames {
                element_type: element_type@,
                exclude: names_view(exclude@),
                prefix: text_of(prefix),
            },
        }
    }
}

/// The stage has a property `name` with the given value.
pub open spec fn named(stage: StageView, name: Seq<char>) -> bool {
    stage.properties.contains(("name"@, name))
}

/// The first stage from `from` on that carries the given name.
pub open spec fn named_from(stages: Seq<StageView>, name: Seq<char>, from: int) -> Option<int>
    decreases stages.len() - from,
{
    if from < 0 || from >= stages.len() {
        None
    } else if named(stages[from], name) {
        Some(from)
    } else {
        named_from(stages, name, from + 1)
    }
}

/// The stage that a name leads to carries the name, and no stage in front of
/// it does; where the name leads nowhere, no stage from `from` on carries it.
pub proof fn lemma_named_from(stages: Seq<StageView>, name: Seq<char>, from: int)
    requires
        0 <= from,
    ensures
        match named_from(stages, name, from) {
            Some(j) => from <= j < stages.len() && named(stages[j], name) && forall|k: int|
                from <= k < j ==> !named(#[trigger] stages[k], name),
            None => forall|k: int| from <= k < stages.len() ==> !named(#[trigger] stages[k], name),
        },
    decreases stages.len() - from,
{
    if from < stages.len() && !named(stages[from], name) {
        lemma_named_from(stages, name, from + 1);
    }
}

/// The names of the properties that a stage sets, in their order.
pub open spec fn property_names(stage: StageView) -> Seq<Seq<char>> {
    Seq::new(stage.properties.len(), |k: int| stage.properties[k].0)
}

/// A new element is being named at stage `i`: the stage has not been read
/// yet, or it is a bare type name that equals the word under the cursor.
pub open spec fn naming_element(i: int, stages: Seq<StageView>, word: Option<Seq<char>>) -> bool {
    i == stages.len() || (stages[i].properties.len() == 0 && word == Some(stages[i].element_type))
}

/// The request for the element that follows stage `prev`.
pub open spec fn successor_request(
    stages: Seq<StageView>,
    prev: StageView,
    word: Option<Seq<char>>,
) -> RequestView {
    match prev.link {
        None => RequestView::CompatibleElements {
            source_type: prev.element_type,
            channel: None,
            prefix: word,
        },
        Some(link) => match link.source_stage_name {
            None => RequestView::CompatibleElements {
                source_type: prev.element_type,
                channel: link.pad_name,
                prefix: word,
            },
            Some(name) => match named_from(stages, name, 0) {
                Some(j) => RequestView::CompatibleElements {
                    source_type: stages[j].element_type,
                    channel: link.pad_name,
                    prefix: word,
                },
                None => RequestView::Nothing,
            },
        },
    }
}

/// The request that the cursor's place asks for.
pub open spec fn resolved(i: int, stages: Seq<StageView>, word: Option<Seq<char>>) -> RequestView {
    if i < 0 || i > stages.len() {
        RequestView::Nothing
    } else if naming_element(i, stages, word) {
        if i == 0 {
            RequestView::ElementNames { prefix: word }
        } else {
            successor_request(stages, stages[i - 1], word)
        }
    } else if stages[i].link is Some {
        RequestView::Nothing
    } else {
        RequestView::PropertyNames {
            element_type: stages[i].element_type,
            exclude: property_names(stages[i]),
            prefix: word,
        }
    }
}

fn owned_word(word: Option<&str>) -> (r: Option<String>)
    ensures
        text_of(r) == word_view(word),
{
    match word {
        Some(w) => Some(w.to_owned()),
        None => None,
    }
}

fn is_named(stage: &Stage, name: &str) -> (b: bool)
    ensures
        b == named(stage@, name@),
{
    let mut k: usize = 0;
    while k < stage.properties.len()
        invariant
            k <= stage.properties@.len(),
            forall|j: int| 0 <= j < k ==> stage@.properties[j] != ("name"@, name@),
        decreases stage.properties@.len() - k,
    {
        if same_text(stage.properties[k].0.as_str(), "name") && same_text(
            stage.properties[k].1.as_str(),
            name,
        ) {
            assert(stage@.properties[k as int] == ("name"@, name@));
            return true;
        }
        k += 1;
    }
    false
}

fn find_named(stages: &Vec<Stage>, name: &str) -> (r: Option<usize>)
    ensures
        match r {
            Some(j) => named_from(stages_view(stages@), name@, 0) == Some(j as int) && j
                < stages@.len(),
            None => named_from(stages_view(stages@), name@, 0) is None,
        },
{
    let mut j: usize = 0;
    while j < stages.len()
        invariant
            j <= stages@.len(),
            named_from(stages_view(stages@), name@, 0) == named_from(
                stages_view(stages@),
                name@,
                j as int,
            ),
        decreases stages@.len() - j,
    {
        if is_named(&stages[j], name) {
            return Some(j);
        }
        j += 1;
    }
    None
}

fn names_of(stage: &Stage) -> (names: Vec<String>)
    ensures
        names_view(names@) == property_names(stage@),
{
    let mut names: Vec<String> = Vec::new();
    let mut k: usize = 0;
    while k < stage.properties.len()
        invariant
            k <= stage.properties@.len(),
            names@.len() == k,
            forall|j: int| 0 <= j < k ==> names@[j]@ == stage.properties@[j].0@,
        decreases stage.properties@.len() - k,
    {
        names.push(stage.properties[k].0.clone());
        k += 1;
    }
    assert(names_view(names@) =~= property_names(stage@));
    names
}

fn successor(stages: &Vec<Stage>, prev: &Stage, current_word: Option<&str>) -> (r: SuggestionRequest)
    ensures
        r@ == successor_request(stages_view(stages@), prev@, word_view(current_word)),
{
    match &prev.link {
        None => SuggestionRequest::CompatibleElements {
            source_type: prev.element_type.clone(),
            channel: None,
            prefix: owned_word(current_word),
        },
        Some(link) => match &link.source_stage_name {
            None => SuggestionRequest::CompatibleElements {
                source_type: prev.element_type.clone(),
                channel: link.pad_name.clone(),
                prefix: owned_word(current_word),
            },
            Some(name) => match find_named(stages, name.as_str()) {
                Some(j) => SuggestionRequest::CompatibleElements {
                    source_type: stages[j].element_type.clone(),
                    channel: link.pad_name.clone(),
                    prefix: owned_word(current_word),
                },
                None => SuggestionRequest::Nothing,
            },
        },
    }
}

/// Decides from the stages read, the cursor's stage and the word under the
/// cursor what is to be suggested.
///
/// Past the last stage, or on a bare type name that equals the word, element
/// names are asked for: all of them at the first stage, else those that fit
/// the output of the stage before, which a link may redirect to the stage
/// that carries the link's name. Inside a stage its unset properties are
/// asked for, unless a link has closed the stage. A link to a name that no
/// stage carries, and an index outside the stages, give nothing.
pub fn resolve(outcome: &ParseOutcome, current_word: Option<&str>) -> (r: SuggestionRequest)
    ensures
        r@ == resolved(
            outcome.cursor_stage_index as int,
            stages_view(outcome.stages@),
            word_view(current_word),
        ),
{
    let n = outcome.stages.len();
    if outcome.cursor_stage_index < 0 || outcome.cursor_stage_index as u64 > n as u64 {
        return SuggestionRequest::Nothing;
    }
    let i: usize = outcome.cursor_stage_index as usize;
    let naming = if i == n {
        true
    } else {
        outcome.stages[i].properties.len() == 0 && match current_word {
            Some(w) => same_text(w, outcome.stages[i].element_type.as_str()),
            None => false,
        }
    };
    if naming {
        if i == 0 {
            SuggestionRequest::ElementNames { prefix: owned_word(current_word) }
        } else {
            successor(&outcome.stages, &outcome.stages[i - 1], current_word)
        }
    } else if outcome.stages[i].link.is_some() {
        SuggestionRequest::Nothing
    } else {
        SuggestionRequest::PropertyNames {
            element_type: outcome.stages[i].element_type.clone(),
            exclude: names_of(&outcome.stages[i]),
            prefix: owned_word(current_word),
        }
    }
}

/// The request that a line and the word under the cursor ask for.
pub open spec fn completion(line: Seq<char>, word: Option<Seq<char>>) -> RequestView {
    let read = stages_from(line, letters_of(line), 0);
    if !(stage_at(line, letters_of(line), 0) is Parsed) {
        RequestView::Nothing
    } else {
        match verdict(rest_of(line, read.1), letters_of(rest_of(line, read.1))) {
            Verdict::Reject => RequestView::Nothing,
            Verdict::CompletePath => RequestView::Paths,
            Verdict::Sane => resolved(read.2 - 1, read.0, word),
        }
    }
}

/// Answers one completion request: reads the line, judges what was left
/// unread, and decides what to suggest. A line without a stage and a
/// remainder that makes no sense give nothing.
pub fn complete(line: &str, current_word: Option<&str>) -> (r: SuggestionRequest)
    ensures
        r@ == completion(line@, word_view(current_word)),
{
    match parse(line) {
        Err(_) => SuggestionRequest::Nothing,
        Ok(outcome) => match classify(outcome.remainder.as_str()) {
            Verdict::Reject => SuggestionRequest::Nothing,
            Verdict::CompletePath => SuggestionRequest::Paths,
            Verdict::Sane => resolve(&outcome, current_word),
        },
    }
}

} // verus!
