use gst_completion::grammar::{parse, PadLink, ParseOutcome, Stage};
use gst_completion::resolver::{complete, resolve, SuggestionRequest};

fn text(s: &str) -> Option<String> {
    Some(s.to_string())
}

fn compatible(source: &str, channel: Option<&str>, prefix: Option<&str>) -> SuggestionRequest {
    SuggestionRequest::CompatibleElements {
        source_type: source.to_string(),
        channel: channel.map(|c| c.to_string()),
        prefix: prefix.map(|p| p.to_string()),
    }
}

fn bare(element_type: &str) -> Stage {
    Stage { element_type: element_type.to_string(), properties: vec![], link: None }
}

#[test]
fn first_stage_asks_for_all_element_names() {
    assert_eq!(complete("! filesrc ", None), SuggestionRequest::PropertyNames {
        element_type: "filesrc".to_string(),
        exclude: vec![],
        prefix: None,
    });
    assert_eq!(
        complete("! filesrc ", Some("filesrc")),
        SuggestionRequest::ElementNames { prefix: text("filesrc") }
    );
}

#[test]
fn single_stage_outcome_with_index_at_its_end_asks_for_element_names() {
    let outcome = ParseOutcome { cursor_stage_index: 0, stages: vec![], remainder: String::new() };
    assert_eq!(resolve(&outcome, None), SuggestionRequest::ElementNames { prefix: None });
    assert_eq!(resolve(&outcome, Some("fi")), SuggestionRequest::ElementNames { prefix: text("fi") });
}

#[test]
fn second_stage_is_ranked_against_the_first() {
    assert_eq!(complete("! filesrc ! ", None), compatible("filesrc", None, None));
    assert_eq!(
        complete("! filesrc ! fakesink ", Some("fakesink")),
        compatible("filesrc", None, Some("fakesink"))
    );
    let outcome = parse("! filesrc ! fakesink ").unwrap();
    assert_eq!(outcome.cursor_stage_index, 1);
    assert_eq!(resolve(&outcome, Some("fakesink")), compatible("filesrc", None, Some("fakesink")));
}

#[test]
fn open_assignment_asks_for_paths() {
    assert_eq!(complete("! filesrc ! fakesink name=abc test=", None), SuggestionRequest::Paths);
    assert_eq!(complete("! filesrc location=/tm", Some("location=/tm")), SuggestionRequest::Paths);
}

#[test]
fn link_by_name_is_followed_to_the_named_stage() {
    let line = "! filesrc name=fsrc location=/tmp/video.mp4 ! qtdemux name=qt qt.video_0 ! ";
    assert_eq!(complete(line, None), compatible("qtdemux", Some("video_0"), None));
    let line = "! filesrc name=fsrc location=/tmp/video.mp4 ! qtdemux name=qt fsrc.src ! de";
    assert_eq!(complete(line, Some("de")), compatible("filesrc", Some("src"), Some("de")));
    assert_eq!(complete(line, Some("d")), SuggestionRequest::PropertyNames {
        element_type: "de".to_string(),
        exclude: vec![],
        prefix: text("d"),
    });
}

#[test]
fn link_by_name_after_decoder_uses_the_stage_before_the_cursor() {
    let line = "! filesrc name=fsrc location=/tmp/video.mp4 ! qtdemux name=qt qt.video_0 ! decoder ! sink name=abc test=10";
    let outcome = parse(line).unwrap();
    assert_eq!(outcome.cursor_stage_index, 3);
    assert_eq!(outcome.remainder, "test=10");
    assert_eq!(complete(line, None), SuggestionRequest::Paths);
    let at_decoder = ParseOutcome {
        cursor_stage_index: 2,
        stages: outcome.stages[..3].to_vec(),
        remainder: String::new(),
    };
    assert_eq!(
        resolve(&at_decoder, Some("decoder")),
        compatible("qtdemux", Some("video_0"), Some("decoder"))
    );
}

#[test]
fn link_without_stage_name_uses_the_stage_itself() {
    assert_eq!(complete("! qtdemux .video_0 ! ", None), compatible("qtdemux", Some("video_0"), None));
}

#[test]
fn link_without_pad_has_no_channel() {
    assert_eq!(
        complete("! filesrc name=a ! qtdemux a. ! ", Some("x")),
        compatible("filesrc", None, Some("x"))
    );
}

#[test]
fn link_to_unknown_name_gives_nothing() {
    assert_eq!(complete("! filesrc name=a ! qtdemux b.src ! ", None), SuggestionRequest::Nothing);
}

#[test]
fn first_stage_with_the_name_wins() {
    assert_eq!(
        complete("! one name=x ! two name=x ! three x.src ! ", None),
        compatible("one", Some("src"), None)
    );
}

#[test]
fn name_is_matched_as_a_property_called_name() {
    assert_eq!(
        complete("! one label=x ! two name=y ! three x.src ! ", None),
        SuggestionRequest::Nothing
    );
}

#[test]
fn inside_a_stage_asks_for_unset_properties() {
    assert_eq!(
        complete("! filesrc ! fakesink name=abc sync=1 ", Some("du")),
        SuggestionRequest::PropertyNames {
            element_type: "fakesink".to_string(),
            exclude: vec!["name".to_string(), "sync".to_string()],
            prefix: text("du"),
        }
    );
    assert_eq!(
        complete("! filesrc ! fakesink name=abc du", Some("du")),
        SuggestionRequest::PropertyNames {
            element_type: "fakesink".to_string(),
            exclude: vec!["name".to_string()],
            prefix: text("du"),
        }
    );
}

#[test]
fn stage_closed_by_a_link_gives_nothing() {
    assert_eq!(complete("! filesrc name=a a.src ", None), SuggestionRequest::Nothing);
}

#[test]
fn bare_stage_with_link_and_equal_word_asks_for_elements() {
    let outcome = ParseOutcome {
        cursor_stage_index: 1,
        stages: vec![
            bare("filesrc"),
            Stage {
                element_type: "tee".to_string(),
                properties: vec![],
                link: Some(PadLink { source_stage_name: None, pad_name: text("src") }),
            },
        ],
        remainder: String::new(),
    };
    assert_eq!(resolve(&outcome, Some("tee")), compatible("filesrc", None, Some("tee")));
    assert_eq!(resolve(&outcome, Some("te")), SuggestionRequest::Nothing);
}

#[test]
fn index_outside_the_stages_gives_nothing() {
    let mut outcome =
        ParseOutcome { cursor_stage_index: -1, stages: vec![bare("a")], remainder: String::new() };
    assert_eq!(resolve(&outcome, None), SuggestionRequest::Nothing);
    outcome.cursor_stage_index = 2;
    assert_eq!(resolve(&outcome, None), SuggestionRequest::Nothing);
}

#[test]
fn unreadable_line_and_senseless_remainder_give_nothing() {
    assert_eq!(complete("", None), SuggestionRequest::Nothing);
    assert_eq!(complete("! ", None), SuggestionRequest::Nothing);
    assert_eq!(complete("! filesrc !", None), SuggestionRequest::Nothing);
    assert_eq!(complete("! filesrc a b", None), SuggestionRequest::Nothing);
}
