use gst_completion::grammar::{parse, PadLink, ParseError, ParseErrorKind, ParseOutcome, Stage};

fn stage(element_type: &str, props: &[(&str, &str)], link: Option<(Option<&str>, Option<&str>)>) -> Stage {
    Stage {
        element_type: element_type.to_string(),
        properties: props.iter().map(|(k, v)| (k.to_string(), v.to_string())).collect(),
        link: link.map(|(source, pad)| PadLink {
            source_stage_name: source.map(|s| s.to_string()),
            pad_name: pad.map(|s| s.to_string()),
        }),
    }
}

fn parsed(index: i64, remainder: &str, stages: Vec<Stage>) -> Result<ParseOutcome, ParseError> {
    Ok(ParseOutcome { cursor_stage_index: index, stages, remainder: remainder.to_string() })
}

fn refused(index: i64, input: &str, kind: ParseErrorKind) -> Result<ParseOutcome, ParseError> {
    Err(ParseError { cursor_stage_index: index, input: input.to_string(), kind })
}

#[test]
fn test0() {
    assert_eq!(parse("! "), refused(0, "", ParseErrorKind::MissingTypeName));
}

#[test]
fn test1() {
    assert_eq!(parse("! filesrc "), parsed(0, "", vec![stage("filesrc", &[], None)]));
}

#[test]
fn main_test2() {
    assert_eq!(
        parse("! filesrc ! fakesink "),
        parsed(1, "", vec![stage("filesrc", &[], None), stage("fakesink", &[], None)])
    );
}

#[test]
fn main_test3() {
    assert_eq!(
        parse("! filesrc ! fakesink ! "),
        parsed(2, "! ", vec![stage("filesrc", &[], None), stage("fakesink", &[], None)])
    );
}

#[test]
fn main_test4() {
    assert_eq!(
        parse("! filesrc ! fakesink !"),
        parsed(1, "!", vec![stage("filesrc", &[], None), stage("fakesink", &[], None)])
    );
}

#[test]
fn test5() {
    assert_eq!(
        parse("! filesrc ! fakesink name=abc test="),
        parsed(
            1,
            "test=",
            vec![stage("filesrc", &[], None), stage("fakesink", &[("name", "abc")], None)]
        )
    );
}

#[test]
fn test6() {
    assert_eq!(
        parse("! filesrc ! fakesink name=abc test =   "),
        parsed(
            1,
            "test =   ",
            vec![stage("filesrc", &[], None), stage("fakesink", &[("name", "abc")], None)]
        )
    );
}

#[test]
fn test7() {
    assert_eq!(
        parse("! filesrc ! fakesink name=abc test = \" random=  "),
        parsed(
            1,
            "test = \" random=  ",
            vec![stage("filesrc", &[], None), stage("fakesink", &[("name", "abc")], None)]
        )
    );
}

#[test]
fn test8() {
    assert_eq!(
        parse("! filesrc ! fakesink name=abc test =  random=  "),
        parsed(
            1,
            "",
            vec![
                stage("filesrc", &[], None),
                stage("fakesink", &[("name", "abc"), ("test", "random=")], None)
            ]
        )
    );
}

#[test]
fn test9() {
    assert_eq!(
        parse("! filesrc ! fakesink name=abc test =  random=  value"),
        parsed(
            1,
            "value",
            vec![
                stage("filesrc", &[], None),
                stage("fakesink", &[("name", "abc"), ("test", "random=")], None)
            ]
        )
    );
}

#[test]
fn test10() {
    assert_eq!(
        parse("! filesrc name=fsrc location= /tmp/video.mp4 prop=2 ! qtdemux name=qt qt.video_0 !  ffdec_mpeg4 ! videosink name=abc test = 10 "),
        parsed(
            3,
            "",
            vec![
                stage("filesrc", &[("name", "fsrc"), ("location", "/tmp/video.mp4"), ("prop", "2")], None),
                stage("qtdemux", &[("name", "qt")], Some((Some("qt"), Some("video_0")))),
                stage("ffdec_mpeg4", &[], None),
                stage("videosink", &[("name", "abc"), ("test", "10")], None)
            ]
        )
    );
}

#[test]
fn test11() {
    assert_eq!(
        parse("! filesrc name=fsrc location= \"/tmp/my video.mp4\" prop = 2 ! qtdemux name=qt qt. !  ffdec_mpeg4 ! videosink name=abc test = 10   "),
        parsed(
            3,
            "",
            vec![
                stage("filesrc", &[("name", "fsrc"), ("location", "/tmp/my video.mp4"), ("prop", "2")], None),
                stage("qtdemux", &[("name", "qt")], Some((Some("qt"), None))),
                stage("ffdec_mpeg4", &[], None),
                stage("videosink", &[("name", "abc"), ("test", "10")], None)
            ]
        )
    );
}

#[test]
fn test12() {
    assert_eq!(
        parse("! filesrc name=fsrc location= /tmp/video.mp4 prop=2 ! qtdemux name=qt .video_0 !  ffdec_mpeg4 ! videosink name=abc test = 10"),
        parsed(
            3,
            "test = 10",
            vec![
                stage("filesrc", &[("name", "fsrc"), ("location", "/tmp/video.mp4"), ("prop", "2")], None),
                stage("qtdemux", &[("name", "qt")], Some((None, Some("video_0")))),
                stage("ffdec_mpeg4", &[], None),
                stage("videosink", &[("name", "abc")], None)
            ]
        )
    );
}

#[test]
fn test13() {
    assert_eq!(
        parse("! filesrc name=fsrc location= /tmp/video.mp4 prop=2 ! qtdemux name=qt video_0 !  ffdec_mpeg4 ! videosink name=abc test = 10   "),
        parsed(
            1,
            "video_0 !  ffdec_mpeg4 ! videosink name=abc test = 10   ",
            vec![
                stage("filesrc", &[("name", "fsrc"), ("location", "/tmp/video.mp4"), ("prop", "2")], None),
                stage("qtdemux", &[("name", "qt")], None),
            ]
        )
    );
}

#[test]
fn empty_line_is_refused_at_the_separator() {
    assert_eq!(parse(""), refused(-1, "", ParseErrorKind::Separator));
    assert_eq!(parse("filesrc "), refused(-1, "filesrc ", ParseErrorKind::Separator));
}

#[test]
fn separator_without_blank_is_refused() {
    assert_eq!(parse("!"), refused(-1, "", ParseErrorKind::Whitespace));
    assert_eq!(parse("!filesrc"), refused(-1, "filesrc", ParseErrorKind::Whitespace));
}

#[test]
fn bad_character_in_first_type_name_is_refused() {
    assert_eq!(parse("! file$src "), refused(0, "file$src ", ParseErrorKind::InvalidTypeName));
    assert_eq!(parse("! a=b "), refused(0, "a=b ", ParseErrorKind::InvalidTypeName));
}

#[test]
fn bad_character_in_later_type_name_ends_the_stages() {
    assert_eq!(
        parse("! filesrc ! fake$ink "),
        parsed(1, "! fake$ink ", vec![stage("filesrc", &[], None)])
    );
}

#[test]
fn letters_beyond_ascii_are_name_characters() {
    assert_eq!(parse("! caf\u{e9}9_x-y "), parsed(0, "", vec![stage("caf\u{e9}9_x-y", &[], None)]));
    assert_eq!(parse("! a\u{2603} "), refused(0, "a\u{2603} ", ParseErrorKind::InvalidTypeName));
}

#[test]
fn lone_dot_in_first_stage_is_refused() {
    assert_eq!(parse("! filesrc . "), refused(0, ". ", ParseErrorKind::EmptyLink));
    assert_eq!(parse("! filesrc name=a ."), refused(0, ".", ParseErrorKind::EmptyLink));
}

#[test]
fn lone_dot_in_later_stage_ends_the_stages() {
    assert_eq!(
        parse("! filesrc ! qtdemux . ! x "),
        parsed(1, "! qtdemux . ! x ", vec![stage("filesrc", &[], None)])
    );
}

#[test]
fn flags_are_skipped_everywhere() {
    assert_eq!(
        parse("! -v --quiet filesrc -e name=a -x location=\"b c\" -y -z q.src -w "),
        parsed(
            0,
            "-w ",
            vec![stage("filesrc", &[("name", "a"), ("location", "b c")], Some((Some("q"), Some("src"))))]
        )
    );
    assert_eq!(
        parse("! filesrc name=a -x"),
        parsed(0, "", vec![stage("filesrc", &[("name", "a")], None)])
    );
}

#[test]
fn lone_dash_is_a_type_name() {
    assert_eq!(parse("! - "), parsed(0, "", vec![stage("-", &[], None)]));
}

#[test]
fn tabs_are_blanks() {
    assert_eq!(
        parse("!\tfilesrc\tname\t=\ta\t"),
        parsed(0, "", vec![stage("filesrc", &[("name", "a")], None)])
    );
}

#[test]
fn repeated_properties_are_all_kept() {
    assert_eq!(
        parse("! filesrc a=1 a=2 a=1 "),
        parsed(0, "", vec![stage("filesrc", &[("a", "1"), ("a", "2"), ("a", "1")], None)])
    );
}

#[test]
fn quoted_values() {
    assert_eq!(
        parse("! a b='x y' "),
        parsed(0, "", vec![stage("a", &[("b", "x y")], None)])
    );
    assert_eq!(
        parse("! a b=\"\"x' "),
        parsed(0, "", vec![stage("a", &[("b", "x")], None)])
    );
    assert_eq!(parse("! a b='x y'"), parsed(0, "b='x y'", vec![stage("a", &[], None)]));
    assert_eq!(parse("! a b='' "), parsed(0, "b='' ", vec![stage("a", &[], None)]));
    assert_eq!(parse("! a b=x'y "), parsed(0, "b=x'y ", vec![stage("a", &[], None)]));
}

#[test]
fn value_at_end_of_line_is_left_unread() {
    assert_eq!(parse("! a b=c"), parsed(0, "b=c", vec![stage("a", &[], None)]));
}

#[test]
fn property_name_with_a_bad_character_is_left_unread() {
    assert_eq!(parse("! a b/c=d "), parsed(0, "b/c=d ", vec![stage("a", &[], None)]));
}

#[test]
fn link_stands_before_the_next_stage() {
    assert_eq!(
        parse("! a .src ! b "),
        parsed(1, "", vec![stage("a", &[], Some((None, Some("src")))), stage("b", &[], None)])
    );
    assert_eq!(
        parse("! a q.! b "),
        parsed(0, "b ", vec![stage("a", &[], Some((Some("q"), Some("!"))))])
    );
}

#[test]
fn cursor_index_is_last_stage_or_the_one_being_opened() {
    for line in ["! a ", "! a ! b c=d ", "! a ! ", "! a !", "! a ! b . ", "! a ! -v ", "! a ! b$ "] {
        let o = parse(line).unwrap();
        let n = o.stages.len() as i64;
        let opens = o.remainder.starts_with("! ") || o.remainder.starts_with("!\t");
        assert!(n >= 1);
        assert_eq!(o.cursor_stage_index, if opens { n } else { n - 1 }, "{}", line);
    }
}
