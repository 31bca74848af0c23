use tagver::schedule::{reorder_outcomes, Outcome};
use tagver::select::{get_latest_similar_tag, TagError, TagListing};

fn tags(raw: &[&str]) -> Vec<String> {
    raw.iter().map(|t| String::from(*t)).collect()
}

#[test]
fn selector_end_to_end() {
    let all = tags(&["v1.2.0", "v1.3.0", "v1.9.9", "latest", "sha-abc123"]);
    let result = get_latest_similar_tag(Some("v1.2.0"), &all);
    assert_eq!(result, Ok(String::from("v1.9.9")));
}

#[test]
fn selector_no_match() {
    let all = tags(&["v1.0.0", "v2.0.0"]);
    let result = get_latest_similar_tag(Some("latest"), &all);
    assert_eq!(result, Err(TagError::NoSimilarTag));
}

#[test]
fn selector_missing_reference_tag() {
    let all = tags(&["v1.0.0"]);
    let result = get_latest_similar_tag(None, &all);
    assert_eq!(result, Err(TagError::ImageMissingTag));
}

#[test]
fn selector_ties_keep_last_seen() {
    let all = tags(&["v1.050", "v1.50"]);
    let result = get_latest_similar_tag(Some("v1.0"), &all);
    assert_eq!(result, Ok(String::from("v1.50")));
}

#[test]
fn selector_empty_tag_list() {
    let result = get_latest_similar_tag(Some("v1.0.0"), &Vec::new());
    assert_eq!(result, Err(TagError::NoSimilarTag));
}

/// A tag-listing stub that serves pages of size 2 from a fixed ordered list,
/// resuming after the cursor tag, until the list runs out.
fn stub_page(all: &[&str], cursor: Option<&String>) -> Vec<String> {
    let start = match cursor {
        None => 0,
        Some(last) => all.iter().position(|t| t == last).unwrap() + 1,
    };
    all[start..all.len().min(start + 2)]
        .iter()
        .map(|t| String::from(*t))
        .collect()
}

#[test]
fn pagination_exhaustion() {
    let registry = ["a1", "b2", "c3", "d4", "e5"];
    let mut listing = TagListing::new();
    let mut pages = 0;
    while !listing.is_done() {
        let page = stub_page(&registry, listing.cursor());
        listing.absorb_page(page);
        pages += 1;
    }
    assert_eq!(pages, 4, "three full or partial pages and one empty page");
    assert_eq!(listing.into_tags(), tags(&registry));
}

#[test]
fn pagination_empty_registry() {
    let mut listing = TagListing::new();
    assert_eq!(listing.cursor(), None);
    listing.absorb_page(Vec::new());
    assert!(listing.is_done());
    assert_eq!(listing.into_tags(), Vec::<String>::new());
}

#[test]
fn fanout_ordering() {
    let completed: Vec<(usize, Outcome)> = vec![
        (3, Ok(String::from("v4"))),
        (2, Err(TagError::NoSimilarTag)),
        (1, Ok(String::from("v2"))),
        (0, Ok(String::from("v1"))),
    ];
    let result = reorder_outcomes(completed, 4).unwrap();
    assert_eq!(
        result,
        vec![
            Ok(String::from("v1")),
            Ok(String::from("v2")),
            Err(TagError::NoSimilarTag),
            Ok(String::from("v4")),
        ]
    );
}

#[test]
fn fanout_rejects_incomplete_or_duplicate() {
    let missing: Vec<(usize, Outcome)> = vec![(0, Ok(String::from("v1")))];
    assert_eq!(reorder_outcomes(missing, 2), None);

    let duplicate: Vec<(usize, Outcome)> = vec![
        (0, Ok(String::from("v1"))),
        (0, Ok(String::from("v2"))),
    ];
    assert_eq!(reorder_outcomes(duplicate, 2), None);

    let out_of_range: Vec<(usize, Outcome)> = vec![(5, Ok(String::from("v1")))];
    assert_eq!(reorder_outcomes(out_of_range, 1), None);

    let empty: Vec<(usize, Outcome)> = Vec::new();
    assert_eq!(reorder_outcomes(empty, 0), Some(Vec::new()));
}

#[test]
fn error_messages() {
    assert_eq!(
        TagError::ImageMissingTag.message(),
        "image reference has no tag to match on"
    );
    assert_eq!(
        TagError::NoSimilarTag.message(),
        "no similar tag format found in registry"
    );
    assert_eq!(
        TagError::Registry(String::from("connection refused")).message(),
        "connection refused"
    );
}
