use pbf2json::osm::{OsmElement, OsmWay, Tags};

// A flat list of keys is an OR over those keys: one group per key.
#[test]
fn test_element_matches_filter() {
    let mut highway_tags = Tags::new();
    highway_tags.insert("highway".to_string(), "primary".to_string());

    let highway_element = OsmElement::Way(OsmWay {
        id: 1,
        node_refs: vec![1, 2, 3],
        tags: highway_tags,
    });

    let mut building_tags = Tags::new();
    building_tags.insert("building".to_string(), "yes".to_string());

    let building_element = OsmElement::Way(OsmWay {
        id: 2,
        node_refs: vec![4, 5, 6],
        tags: building_tags,
    });

    let highway_filter = vec![vec!["highway".to_string()]];
    assert!(highway_element.matches_filter(&highway_filter));
    assert!(!building_element.matches_filter(&highway_filter));

    let building_filter = vec![vec!["building".to_string()]];
    assert!(!highway_element.matches_filter(&building_filter));
    assert!(building_element.matches_filter(&building_filter));

    let multi_filter = vec![vec!["highway".to_string()], vec!["building".to_string()]];
    assert!(highway_element.matches_filter(&multi_filter));
    assert!(building_element.matches_filter(&multi_filter));

    let empty_filter: Vec<Vec<String>> = vec![];
    assert!(highway_element.matches_filter(&empty_filter));
    assert!(building_element.matches_filter(&empty_filter));
}
