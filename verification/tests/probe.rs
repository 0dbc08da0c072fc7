use doc_cli::deploy::Deployer;
use doc_cli::probe::{add_missing, contains_tag, tags_in_listing};

fn names(list: &[&str]) -> Vec<String> {
    list.iter().map(|s| s.to_string()).collect()
}

fn scan_with_std(json_content: &str) -> Vec<String> {
    let mut versions = Vec::new();
    for line in json_content.lines() {
        for pattern in &[r#""version":"#, r#"{"version":"#, r#""name":"#, r#""id":"#] {
            if let Some(pos) = line.find(pattern) {
                let after = line[pos + pattern.len()..].trim_start();
                let value = after.strip_prefix('"').unwrap_or(after);
                if let Some(end) = value.find('"') {
                    let version = value[..end].trim();
                    if version.starts_with('v')
                        || version.chars().next().unwrap_or('x').is_digit(10)
                    {
                        versions.push(version.to_string());
                    }
                }
            }
        }
    }
    versions
}

#[test]
fn tags_in_listing_are_the_entries_that_look_like_tags() {
    let listing = "v0.1.0\nlatest\nversions.json\nindex.html\nv0.2.0\n.nojekyll\n";
    assert_eq!(tags_in_listing(listing), names(&["v0.1.0", "v0.2.0"]));
}

#[test]
fn tags_in_listing_ignore_white_space_around_an_entry() {
    assert_eq!(tags_in_listing("  v0.1.0  \r\n\tv0.2.0\n"), names(&["v0.1.0", "v0.2.0"]));
}

#[test]
fn tags_in_listing_keep_the_order_and_repetitions_of_the_listing() {
    assert_eq!(tags_in_listing("v2\nv1\nv2\n"), names(&["v2", "v1", "v2"]));
}

#[test]
fn tags_in_listing_take_any_entry_with_the_prefix_and_a_digit() {
    assert_eq!(tags_in_listing("view2\nv\nvx\n1.0\nV1\nv1-beta\n"), names(&["view2", "v1-beta"]));
}

#[test]
fn tags_in_listing_of_an_empty_listing_are_none() {
    assert_eq!(tags_in_listing(""), Vec::<String>::new());
    assert_eq!(tags_in_listing("\n\n"), Vec::<String>::new());
    assert_eq!(tags_in_listing("latest\nstable\n"), Vec::<String>::new());
}

#[test]
fn parse_versions_json_finds_a_quoted_version() {
    let text = "{\"version\": \"v0.1.0\", \"title\": \"v0.1.0\", \"aliases\": []}";
    assert_eq!(Deployer::parse_versions_json(text), names(&["v0.1.0", "v0.1.0"]));
    assert_eq!(Deployer::parse_versions_json("\"id\":\"v1\""), names(&["v1"]));
    assert_eq!(Deployer::parse_versions_json("\"name\" : \"v1\""), Vec::<String>::new());
    assert_eq!(Deployer::parse_versions_json("  \"name\":\t\"1.0.0\","), names(&["1.0.0"]));
    assert_eq!(Deployer::parse_versions_json("\"version\":\" v2 \""), names(&["v2"]));
}

#[test]
fn parse_versions_json_finds_the_versions_of_a_metadata_file() {
    let text = "[\n  {\"version\": \"v0.2.0\", \"title\": \"v0.2.0\", \"aliases\": [\"latest\"]},\n  \
                {\"version\": \"v0.1.0\", \"title\": \"v0.1.0\", \"aliases\": []}\n]\n";
    assert_eq!(
        Deployer::parse_versions_json(text),
        names(&["v0.2.0", "v0.2.0", "v0.1.0", "v0.1.0"])
    );
    let one_line = "[{\"version\": \"1.0\", \"title\": \"1.0\", \"aliases\": [\"latest\"]}]";
    assert_eq!(Deployer::parse_versions_json(one_line), names(&["1.0", "1.0"]));
}

#[test]
fn parse_versions_json_skips_one_opening_quote_only() {
    assert_eq!(Deployer::parse_versions_json("{\"version\":\"\"}"), Vec::<String>::new());
    assert_eq!(Deployer::parse_versions_json("\"name\":\"\"v1\""), Vec::<String>::new());
    assert_eq!(Deployer::parse_versions_json("\"name\": \" \"v1\""), Vec::<String>::new());
}

#[test]
fn parse_versions_json_takes_what_stands_between_a_key_and_the_next_quote() {
    assert_eq!(Deployer::parse_versions_json("\"name\": v2.3 \""), names(&["v2.3"]));
    assert_eq!(Deployer::parse_versions_json("\"id\":42\""), names(&["42"]));
    assert_eq!(Deployer::parse_versions_json("x \"version\":v1.0.0\" y"), names(&["v1.0.0"]));
}

#[test]
fn parse_versions_json_searches_every_key_in_turn() {
    assert_eq!(
        Deployer::parse_versions_json("{\"version\":1.0,\"title\":\"1.0\"}"),
        names(&["1.0,", "1.0,"])
    );
    assert_eq!(
        Deployer::parse_versions_json("\"id\":7\" \"name\":v7\" \"version\":7.0\""),
        names(&["7.0", "v7", "7"])
    );
}

#[test]
fn parse_versions_json_uses_the_first_occurrence_of_a_key_only() {
    assert_eq!(
        Deployer::parse_versions_json("\"name\":v1\" \"name\":v2\""),
        names(&["v1"])
    );
}

#[test]
fn parse_versions_json_goes_line_by_line() {
    let text = "\"name\":v1\"\n\"name\":\nv2\"\n\"name\":v3\"\r\n\"id\":4\"";
    assert_eq!(Deployer::parse_versions_json(text), names(&["v1", "v3", "4"]));
}

#[test]
fn parse_versions_json_drops_what_does_not_begin_like_a_version() {
    assert_eq!(Deployer::parse_versions_json("\"name\":latest\""), Vec::<String>::new());
    assert_eq!(Deployer::parse_versions_json("\"name\":  \""), Vec::<String>::new());
    assert_eq!(Deployer::parse_versions_json("\"name\":V1\""), Vec::<String>::new());
    assert_eq!(Deployer::parse_versions_json("\"name\":v1"), Vec::<String>::new());
    assert_eq!(Deployer::parse_versions_json(""), Vec::<String>::new());
    assert_eq!(Deployer::parse_versions_json("no keys here"), Vec::<String>::new());
}

#[test]
fn parse_versions_json_agrees_with_std() {
    let samples = [
        "",
        "\n",
        "\"version\":",
        "\"version\":\"",
        "\"version\":1\"",
        "{\"version\":v1.2.3\"}",
        "  {\"version\": v1.2.3 \", \"name\": 1.2 \", \"id\":x\"}",
        "\"id\":é1\" \"name\":1é\"",
        "é\"name\":v1é\"é",
        "\"name\":v1\"\r\n\"name\":v2\"\r",
        "\"name\":v1\r\"",
        "\"version\":\"version\":2\"",
        "\"id\":\"id\":\"id\":3\"",
        "[{\"version\": \"0.1\", \"title\": \"0.1\", \"aliases\": []}, {\"version\":0.2\"}]",
        "{\"version\": \"v0.1.0\", \"title\": \"v0.1.0\", \"aliases\": []}",
        "\"id\":\"v1\"",
        "\"id\": \"v1",
        "\"id\":\"",
        "\"id\":  ",
        "\"name\":\u{a0}\"\u{a0}v9\u{a0}\"",
        "\"name\":\"\"\"",
        "{\"version\":\"1.0\",\"name\":\"v1\",\"id\":\"x\"}",
        "\"name\":\u{a0}v9\u{a0}\"",
    ];
    for s in samples {
        assert_eq!(Deployer::parse_versions_json(s), scan_with_std(s), "{:?}", s);
    }
}

#[test]
fn get_versions_from_json_gives_nothing_without_metadata() {
    assert_eq!(Deployer::get_versions_from_json(None), Vec::<String>::new());
    assert_eq!(Deployer::get_versions_from_json(Some("")), Vec::<String>::new());
    assert_eq!(Deployer::get_versions_from_json(Some("\"name\":v1\"")), names(&["v1"]));
}

#[test]
fn get_deployed_versions_joins_listing_and_metadata() {
    assert_eq!(
        Deployer::get_deployed_versions(
            Some("v0.1.0\nlatest\nv0.2.0\n"),
            Some("\"name\":v0.2.0\"\n\"name\":v0.3.0\"\n\"id\":v0.3.0\"\n")
        ),
        names(&["v0.1.0", "v0.2.0", "v0.3.0"])
    );
}

#[test]
fn get_deployed_versions_uses_what_can_be_had() {
    assert_eq!(Deployer::get_deployed_versions(None, None), Vec::<String>::new());
    assert_eq!(Deployer::get_deployed_versions(Some("v1\nv2\n"), None), names(&["v1", "v2"]));
    assert_eq!(
        Deployer::get_deployed_versions(None, Some("\"id\":7\" \"name\":7\"")),
        names(&["7"])
    );
}

#[test]
fn get_deployed_versions_with_a_listing_only_is_the_listing() {
    assert_eq!(
        Deployer::get_deployed_versions(Some("v0.1.0\n"), Some("")),
        names(&["v0.1.0"])
    );
    assert_eq!(
        Deployer::get_deployed_versions(Some("v2\nv1\nv2\n"), None),
        names(&["v2", "v1", "v2"])
    );
}

#[test]
fn contains_tag_finds_a_tag_by_its_name() {
    let tags = names(&["v0.1.0", "v0.2.0"]);
    assert!(contains_tag(&tags, &"v0.1.0".to_string()));
    assert!(contains_tag(&tags, &"v0.2.0".to_string()));
    assert!(!contains_tag(&tags, &"v0.3.0".to_string()));
    assert!(!contains_tag(&tags, &"v0.1".to_string()));
    assert!(!contains_tag(&Vec::new(), &"v0.1.0".to_string()));
}

#[test]
fn add_missing_adds_what_was_not_found_yet() {
    assert_eq!(
        add_missing(names(&["v0.1.0", "v0.2.0"]), &names(&["v0.2.0", "v0.3.0"])),
        names(&["v0.1.0", "v0.2.0", "v0.3.0"])
    );
    assert_eq!(add_missing(Vec::new(), &names(&["b", "a"])), names(&["b", "a"]));
    assert_eq!(add_missing(names(&["a"]), &Vec::new()), names(&["a"]));
}

#[test]
fn add_missing_adds_each_tag_once() {
    assert_eq!(
        add_missing(names(&["v1"]), &names(&["v2", "v2", "v1", "v3", "v2"])),
        names(&["v1", "v2", "v3"])
    );
}

#[test]
fn add_missing_leaves_what_was_found_as_it_was() {
    assert_eq!(add_missing(names(&["v1", "v1"]), &names(&["v1"])), names(&["v1", "v1"]));
}
