use doc_cli::tags::{is_release_tag, latest_tag, sort_tags, source_tags, tag_precedes};

fn names(list: &[&str]) -> Vec<String> {
    list.iter().map(|s| s.to_string()).collect()
}

#[test]
fn a_release_tag_has_the_prefix_and_a_digit_after_it() {
    assert!(is_release_tag("v0.1.5"));
    assert!(is_release_tag("v1"));
    assert!(is_release_tag("v-rc-2"));
    assert!(is_release_tag("vx9"));
    assert!(!is_release_tag(""));
    assert!(!is_release_tag("v"));
    assert!(!is_release_tag("versions.json"));
    assert!(!is_release_tag("1.0.0"));
    assert!(!is_release_tag("latest"));
    assert!(!is_release_tag("V1.0.0"));
    assert!(!is_release_tag(" v1.0.0"));
    assert!(!is_release_tag("v\u{0661}"));
}

#[test]
fn a_digit_in_the_place_of_the_prefix_does_not_count() {
    assert!(!is_release_tag("1v"));
    assert!(!is_release_tag("9"));
}

#[test]
fn releases_are_ordered_by_their_numbers() {
    assert!(tag_precedes("v1.9.0", "v1.10.0"));
    assert!(!tag_precedes("v1.10.0", "v1.9.0"));
    assert!(tag_precedes("v0.9.9", "v1.0.0"));
    assert!(tag_precedes("v1.0.0", "v1.0.1"));
    assert!(tag_precedes("v1.0.9", "v1.1.0"));
    assert!(tag_precedes("v2.0.0", "v10.0.0"));
    assert!(!tag_precedes("v10.0.0", "v2.0.0"));
    assert!(tag_precedes("1.2.3", "v1.2.4"));
}

#[test]
fn every_release_precedes_itself() {
    for tag in ["", "v", "v1.0.0", "v1.0.0-rc1", "nightly", "10.0"] {
        assert!(tag_precedes(tag, tag), "{:?}", tag);
    }
}

#[test]
fn releases_with_the_same_numbers_are_ordered_by_name() {
    assert!(tag_precedes("v1.0.0", "v1.0.0-rc1"));
    assert!(!tag_precedes("v1.0.0-rc1", "v1.0.0"));
    assert!(tag_precedes("1.0.0", "v1.0.0"));
    assert!(!tag_precedes("v1.0.0", "1.0.0"));
    assert!(tag_precedes("v1.0", "v1.0.0"));
    assert!(tag_precedes("alpha", "beta"));
    assert!(!tag_precedes("beta", "alpha"));
    assert!(tag_precedes("", "a"));
    assert!(!tag_precedes("a", ""));
}

#[test]
fn of_two_different_releases_exactly_one_precedes_the_other() {
    let tags = ["v1.0.0", "v1.0.0-rc1", "v0.9", "v1.10.0", "v1.9.0", "x", "", "1.0.0", "v01.0.0"];
    for a in tags {
        for b in tags {
            if a != b {
                assert_ne!(tag_precedes(a, b), tag_precedes(b, a), "{:?} {:?}", a, b);
            }
        }
    }
}

#[test]
fn latest_tag_is_the_greatest_by_version() {
    let orders = [
        ["v1.0.0", "v1.2.0", "v1.1.0"],
        ["v1.0.0", "v1.1.0", "v1.2.0"],
        ["v1.1.0", "v1.0.0", "v1.2.0"],
        ["v1.1.0", "v1.2.0", "v1.0.0"],
        ["v1.2.0", "v1.0.0", "v1.1.0"],
        ["v1.2.0", "v1.1.0", "v1.0.0"],
    ];
    for order in orders {
        assert_eq!(latest_tag(&names(&order)), Some("v1.2.0".to_string()), "{:?}", order);
    }
}

#[test]
fn latest_tag_is_not_the_greatest_by_spelling() {
    assert_eq!(latest_tag(&names(&["v1.9.0", "v1.10.0", "v1.2.0"])), Some("v1.10.0".to_string()));
    assert_eq!(latest_tag(&names(&["v1.10.0", "v1.9.0"])), Some("v1.10.0".to_string()));
    assert_eq!(latest_tag(&names(&["v9.0.0", "v10.0.0", "v2.0.0"])), Some("v10.0.0".to_string()));
}

#[test]
fn latest_tag_of_nothing_is_nothing() {
    assert_eq!(latest_tag(&Vec::new()), None);
}

#[test]
fn latest_tag_of_one_tag_is_that_tag() {
    assert_eq!(latest_tag(&names(&["v0.0.1"])), Some("v0.0.1".to_string()));
    assert_eq!(latest_tag(&names(&["v1.0.0", "v1.0.0"])), Some("v1.0.0".to_string()));
}

#[test]
fn sort_tags_puts_releases_in_ascending_order() {
    assert_eq!(
        sort_tags(&names(&["v1.10.0", "v1.2.0", "v1.9.0", "v0.1.0"])),
        names(&["v0.1.0", "v1.2.0", "v1.9.0", "v1.10.0"])
    );
    assert_eq!(sort_tags(&Vec::new()), Vec::<String>::new());
    assert_eq!(sort_tags(&names(&["v1"])), names(&["v1"]));
}

#[test]
fn sort_tags_keeps_every_tag_as_often_as_it_came() {
    assert_eq!(
        sort_tags(&names(&["v2.0.0", "v1.0.0", "v2.0.0", "v1.0.0", "v1.0.0"])),
        names(&["v1.0.0", "v1.0.0", "v1.0.0", "v2.0.0", "v2.0.0"])
    );
}

#[test]
fn sort_tags_puts_names_with_the_same_numbers_in_dictionary_order() {
    assert_eq!(
        sort_tags(&names(&["v1.0.0-rc2", "v1.0.0", "v1.0.0-rc1", "v0.9.0"])),
        names(&["v0.9.0", "v1.0.0", "v1.0.0-rc1", "v1.0.0-rc2"])
    );
}

#[test]
fn sort_tags_ends_with_the_latest_tag() {
    let tags = names(&["v0.3.0", "v0.20.0", "v0.100.0", "v0.4.0"]);
    let sorted = sort_tags(&tags);
    assert_eq!(sorted.last().cloned(), latest_tag(&tags));
    assert_eq!(sorted.last().cloned(), Some("v0.100.0".to_string()));
}

#[test]
fn source_tags_are_the_lines_of_the_listing_in_ascending_order() {
    assert_eq!(
        source_tags("v0.1.0\nv0.2.0\nv0.10.0\n"),
        names(&["v0.1.0", "v0.2.0", "v0.10.0"])
    );
    assert_eq!(
        source_tags("v0.10.0\nv0.2.0\nv0.1.0"),
        names(&["v0.1.0", "v0.2.0", "v0.10.0"])
    );
}

#[test]
fn source_tags_leave_out_empty_lines() {
    assert_eq!(source_tags(""), Vec::<String>::new());
    assert_eq!(source_tags("\n\n"), Vec::<String>::new());
    assert_eq!(source_tags("\nv1.0.0\n\n\nv0.5.0\n"), names(&["v0.5.0", "v1.0.0"]));
}

#[test]
fn source_tags_take_every_name_as_it_stands() {
    assert_eq!(source_tags("nightly\n v2 \nv1\n"), names(&[" v2 ", "nightly", "v1"]));
}
