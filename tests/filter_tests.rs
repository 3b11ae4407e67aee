use pbf2json::filter::{char_is_space, chars_of, parse_tag_filter, split_on, trim_chars};
use pbf2json::osm::{OsmElement, OsmNode, Tags};

fn node(keys: &[&str]) -> OsmElement {
    let mut tags = Tags::new();
    for k in keys {
        tags.insert(k.to_string(), "v".to_string());
    }
    OsmElement::Node(OsmNode { id: 1, lat: 0, lon: 0, tags })
}

fn groups(spec: &[&[&str]]) -> Vec<Vec<String>> {
    spec.iter().map(|g| g.iter().map(|p| p.to_string()).collect()).collect()
}

#[test]
fn empty_filter_matches_untagged_element() {
    assert!(node(&[]).matches_filter(&[]));
    assert!(node(&["a"]).matches_filter(&[]));
}

#[test]
fn star_matches_exactly_tagged_elements() {
    assert!(node(&["x"]).matches_tag_pattern("*"));
    assert!(!node(&[]).matches_tag_pattern("*"));
}

#[test]
fn prefix_pattern_examples() {
    assert!(node(&["addr:street"]).matches_tag_pattern("addr*"));
    assert!(node(&["addr"]).matches_tag_pattern("addr*"));
    assert!(!node(&["add"]).matches_tag_pattern("addr*"));
    assert!(!node(&["name:addr"]).matches_tag_pattern("addr*"));
}

#[test]
fn suffix_and_interior_patterns() {
    assert!(node(&["name:en"]).matches_tag_pattern("*:en"));
    assert!(!node(&["name:en:x"]).matches_tag_pattern("*:en"));
    assert!(node(&["addr:street:en"]).matches_tag_pattern("addr:*:en"));
    assert!(node(&["a:b:c"]).matches_tag_pattern("a*b*c"));
    assert!(!node(&["a:b:c:d"]).matches_tag_pattern("a*b*c"));
    // the last fragment may be any suffix after the earlier fragments
    assert!(node(&["a:en:en"]).matches_tag_pattern("a*:en"));
    assert!(node(&["abab"]).matches_tag_pattern("a*b"));
    // but it may not overlap them
    assert!(!node(&["ab"]).matches_tag_pattern("ab*b"));
    assert!(node(&["abb"]).matches_tag_pattern("ab*b"));
    assert!(node(&["ab"]).matches_tag_pattern("a**b"));
    assert!(!node(&["ba"]).matches_tag_pattern("a*b"));
}

#[test]
fn exact_patterns_ignore_values() {
    assert!(node(&["highway"]).matches_tag_pattern("highway"));
    assert!(!node(&["highway"]).matches_tag_pattern("high"));
}

#[test]
fn and_or_composition() {
    let f = groups(&[&["a", "b"], &["c"]]);
    assert!(node(&["a", "b"]).matches_filter(&f));
    assert!(node(&["c"]).matches_filter(&f));
    assert!(!node(&["a"]).matches_filter(&f));
    assert!(!node(&["b", "d"]).matches_filter(&f));
}

#[test]
fn filter_text_is_parsed_into_groups() {
    assert_eq!(parse_tag_filter("amenity"), groups(&[&["amenity"]]));
    assert_eq!(parse_tag_filter("a+b,c"), groups(&[&["a", "b"], &["c"]]));
    assert_eq!(parse_tag_filter(" addr* + name , highway "), groups(&[&["addr*", "name"], &["highway"]]));
    assert_eq!(parse_tag_filter(""), groups(&[&[""]]));
    assert_eq!(parse_tag_filter("a,"), groups(&[&["a"], &[""]]));
}

#[test]
fn splitting_and_characters() {
    assert_eq!(chars_of("héllo"), vec!['h', 'é', 'l', 'l', 'o']);
    let parts = split_on(&chars_of("a*b**c"), '*');
    assert_eq!(parts, vec![vec!['a'], vec!['b'], vec![], vec!['c']]);
}

#[test]
fn whitespace_agrees_with_the_standard_library() {
    for c in (0u32..=0x10FFFF).filter_map(char::from_u32) {
        assert_eq!(char_is_space(c), c.is_whitespace(), "{:?}", c);
    }
}

#[test]
fn trimming_removes_outer_whitespace_only() {
    for text in ["", "   ", " a ", "\u{3000}x y\t\n", "ab", "\u{a0}\u{85}"] {
        let got: String = trim_chars(&chars_of(text)).into_iter().collect();
        assert_eq!(got, text.trim());
    }
}
