use gst_completion::catalog::{get_elements, starts_with};
use gst_completion::element::{source_pads, BashGstElement, PadTemplate};
use gst_completion::ranking::{rank, Consumer};

fn names(items: &[&str]) -> Vec<String> {
    items.iter().map(|s| s.to_string()).collect()
}

fn pad(name_template: &str, is_source: bool) -> PadTemplate {
    PadTemplate { name_template: name_template.to_string(), is_source }
}

/// A catalog in which each type takes a set of formats, given as bits; a
/// type with `None` takes every format.
fn consumers(output: u32, types: &[(&str, Option<u32>)]) -> Vec<Consumer> {
    types
        .iter()
        .map(|(name, formats)| Consumer {
            name: name.to_string(),
            accepts_any: formats.is_none(),
            accepts_output: match formats {
                None => true,
                Some(f) => f & output != 0,
            },
            subset_of: types
                .iter()
                .map(|(_, other)| match (formats, other) {
                    (_, None) => true,
                    (None, Some(_)) => false,
                    (Some(a), Some(b)) => a & !b == 0,
                })
                .collect(),
        })
        .collect()
}

#[test]
fn gstreamer_test4() {
    let element = BashGstElement {
        properties: names(&["name", "parent", "sync", "dump", "silent"]),
        consumers: vec![],
    };
    for x in element.get_property_names(&[], None) {
        println!("-- {:?}", x);
    }
    assert_eq!(
        element.get_property_names(&[], None),
        names(&["name", "parent", "sync", "dump", "silent"])
    );
}

#[test]
fn prefix_test() {
    let p: Vec<char> = "file".chars().collect();
    assert!(starts_with("filesrc", &p));
    assert!(starts_with("file", &p));
    assert!(!starts_with("fil", &p));
    assert!(!starts_with("fakesink", &p));
    assert!(starts_with("anything", &Vec::new()));
}

#[test]
fn element_names_are_filtered_by_prefix_in_catalog_order() {
    let catalog = names(&["filesrc", "fakesink", "filesink", "qtdemux", "fakesrc"]);
    assert_eq!(get_elements(&catalog, None), catalog);
    assert_eq!(get_elements(&catalog, Some("fa")), names(&["fakesink", "fakesrc"]));
    assert_eq!(get_elements(&catalog, Some("file")), names(&["filesrc", "filesink"]));
    assert_eq!(get_elements(&catalog, Some("x")), names(&[]));
    assert_eq!(get_elements(&catalog, Some("")), catalog);
}

#[test]
fn property_names_leave_out_set_and_nameless_ones() {
    let element = BashGstElement {
        properties: names(&["name", "", "sync", "silent", "dump", "sync"]),
        consumers: vec![],
    };
    assert_eq!(
        element.get_property_names(&names(&["sync"]), None),
        names(&["name", "silent", "dump"])
    );
    assert_eq!(element.get_property_names(&[], Some("s")), names(&["sync", "silent", "sync"]));
    assert_eq!(element.get_property_names(&names(&["silent", "name"]), Some("s")), names(&["sync", "sync"]));
    assert_eq!(element.get_property_names(&[], Some("")), names(&["name", "sync", "silent", "dump", "sync"]));
}

#[test]
fn source_pads_match_the_fixed_part_of_the_pattern() {
    let pads = vec![
        pad("sink", false),
        pad("video_%u", true),
        pad("audio_%u", true),
        pad("src", true),
        pad("video_0", false),
        pad("%s", true),
    ];
    assert_eq!(source_pads(&pads, None), vec![1, 2, 3, 5]);
    assert_eq!(source_pads(&pads, Some("video_0")), vec![1, 5]);
    assert_eq!(source_pads(&pads, Some("audio_12")), vec![2, 5]);
    assert_eq!(source_pads(&pads, Some("src")), vec![3, 5]);
    assert_eq!(source_pads(&pads, Some("srcx")), vec![3, 5]);
    assert_eq!(source_pads(&pads, Some("sr")), vec![5]);
    assert_eq!(source_pads(&pads, Some("")), vec![5]);
    assert_eq!(source_pads(&vec![pad("src", false)], None), Vec::<usize>::new());
}

#[test]
fn ranking_keeps_exactly_the_types_that_take_the_output() {
    let catalog = consumers(0b0011, &[
        ("a", Some(0b0100)),
        ("b", Some(0b0001)),
        ("c", None),
        ("d", Some(0b1000)),
        ("e", Some(0b0110)),
    ]);
    let mut ranked = rank(&catalog, None);
    ranked.sort();
    assert_eq!(ranked, names(&["b", "c", "e"]));
}

#[test]
fn wildcard_types_come_last() {
    let catalog = consumers(0b0001, &[
        ("any1", None),
        ("x", Some(0b0011)),
        ("any2", None),
        ("y", Some(0b0101)),
    ]);
    assert_eq!(rank(&catalog, None), names(&["x", "y", "any1", "any2"]));
}

#[test]
fn narrower_types_come_first() {
    let catalog = consumers(0b0001, &[
        ("wide", Some(0b1111)),
        ("mid", Some(0b0111)),
        ("any", None),
        ("narrow", Some(0b0001)),
    ]);
    assert_eq!(rank(&catalog, None), names(&["narrow", "mid", "wide", "any"]));
}

#[test]
fn unrelated_and_equal_types_keep_the_catalog_order() {
    let catalog = consumers(0b0001, &[
        ("p", Some(0b0011)),
        ("q", Some(0b0101)),
        ("r", Some(0b0011)),
        ("s", Some(0b1001)),
    ]);
    assert_eq!(rank(&catalog, None), names(&["p", "q", "r", "s"]));
}

#[test]
fn narrower_type_passes_unrelated_ones_on_its_way() {
    let catalog = consumers(0b0001, &[
        ("wide", Some(0b0111)),
        ("other", Some(0b1001)),
        ("narrow", Some(0b0011)),
    ]);
    assert_eq!(rank(&catalog, None), names(&["narrow", "wide", "other"]));
}

#[test]
fn ranking_is_filtered_by_prefix() {
    let catalog = consumers(0b0001, &[
        ("fakesink", None),
        ("filesink", None),
        ("ffdec", Some(0b0001)),
        ("fdsink", Some(0b0011)),
        ("xdec", Some(0b0001)),
    ]);
    assert_eq!(rank(&catalog, Some("f")), names(&["ffdec", "fdsink", "fakesink", "filesink"]));
    assert_eq!(rank(&catalog, Some("fa")), names(&["fakesink"]));
    assert_eq!(rank(&catalog, Some("z")), names(&[]));
    let element = BashGstElement { properties: vec![], consumers: catalog };
    assert_eq!(element.get_compatible_elements(Some("x")), names(&["xdec"]));
}

#[test]
fn missing_table_entries_count_as_no_subset() {
    let mut catalog = consumers(0b0001, &[("wide", Some(0b0111)), ("narrow", Some(0b0001))]);
    assert_eq!(rank(&catalog, None), names(&["narrow", "wide"]));
    catalog[1].subset_of.clear();
    assert_eq!(rank(&catalog, None), names(&["wide", "narrow"]));
}

#[test]
fn empty_catalog_ranks_nothing() {
    assert_eq!(rank(&vec![], None), names(&[]));
}
