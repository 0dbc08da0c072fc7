use doc_cli::plan::{plan, Mode};

fn names(list: &[&str]) -> Vec<String> {
    list.iter().map(|s| s.to_string()).collect()
}

#[test]
fn smart_mode_deploys_only_what_is_missing() {
    let source = names(&["v0.1.0", "v0.2.0"]);
    let published = names(&["v0.1.0"]);
    let p = plan(&source, &published, Mode::Smart);
    assert_eq!(p.to_deploy, names(&["v0.2.0"]));
    assert_eq!(p.to_skip, names(&["v0.1.0"]));
}

#[test]
fn smart_mode_keeps_the_order_of_the_source_tags() {
    let source = names(&["v1", "v2", "v3", "v4", "v5", "v6"]);
    let published = names(&["v5", "v2", "v9", "v3"]);
    let p = plan(&source, &published, Mode::Smart);
    assert_eq!(p.to_deploy, names(&["v1", "v4", "v6"]));
    assert_eq!(p.to_skip, names(&["v2", "v3", "v5"]));
}

#[test]
fn smart_mode_deploys_everything_where_nothing_is_published() {
    let source = names(&["v1", "v2"]);
    let p = plan(&source, &Vec::new(), Mode::Smart);
    assert_eq!(p.to_deploy, source);
    assert_eq!(p.to_skip, Vec::<String>::new());
}

#[test]
fn smart_mode_ignores_published_tags_that_are_no_source_tags() {
    let source = names(&["v1"]);
    let p = plan(&source, &names(&["v0", "latest", "v1.0"]), Mode::Smart);
    assert_eq!(p.to_deploy, names(&["v1"]));
    assert_eq!(p.to_skip, Vec::<String>::new());
}

#[test]
fn force_mode_deploys_every_source_tag() {
    let source = names(&["v0.1.0", "v0.2.0", "v0.3.0"]);
    for published in [Vec::new(), names(&["v0.1.0"]), source.clone(), names(&["other"])] {
        let p = plan(&source, &published, Mode::Force);
        assert_eq!(p.to_deploy, source);
        assert_eq!(p.to_skip, Vec::<String>::new());
    }
}

#[test]
fn a_second_smart_run_deploys_nothing() {
    let source = names(&["v0.1.0", "v0.2.0", "v0.3.0"]);
    let mut published = names(&["v0.2.0"]);
    let first = plan(&source, &published, Mode::Smart);
    assert_eq!(first.to_deploy, names(&["v0.1.0", "v0.3.0"]));
    published.extend(first.to_deploy);
    let second = plan(&source, &published, Mode::Smart);
    assert_eq!(second.to_deploy, Vec::<String>::new());
    assert_eq!(second.to_skip, source);
}

#[test]
fn without_source_tags_the_plan_is_empty() {
    for mode in [Mode::Smart, Mode::Force] {
        for published in [Vec::new(), names(&["v0.1.0"])] {
            let p = plan(&Vec::new(), &published, mode);
            assert_eq!(p.to_deploy, Vec::<String>::new());
            assert_eq!(p.to_skip, Vec::<String>::new());
        }
    }
}

#[test]
fn a_source_tag_that_comes_twice_is_planned_twice() {
    let source = names(&["v1", "v1", "v2"]);
    let p = plan(&source, &names(&["v2"]), Mode::Smart);
    assert_eq!(p.to_deploy, names(&["v1", "v1"]));
    assert_eq!(p.to_skip, names(&["v2"]));
}

#[test]
fn every_source_tag_is_either_deployed_or_skipped() {
    let source = names(&["a", "b", "c", "d", "e"]);
    let published = names(&["b", "e", "x"]);
    for mode in [Mode::Smart, Mode::Force] {
        let p = plan(&source, &published, mode);
        assert_eq!(p.to_deploy.len() + p.to_skip.len(), source.len());
        for tag in &source {
            assert_ne!(p.to_deploy.contains(tag), p.to_skip.contains(tag));
        }
    }
}
