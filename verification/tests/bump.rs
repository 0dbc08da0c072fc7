use doc_cli::bump::{all_steps_succeeded, next_step, PublishStep};
use doc_cli::version::VersionBumper;

#[test]
fn prompt_bump_type_takes_one_two_or_three() {
    assert_eq!(VersionBumper::prompt_bump_type("1\n"), Some(1));
    assert_eq!(VersionBumper::prompt_bump_type("2\n"), Some(2));
    assert_eq!(VersionBumper::prompt_bump_type("3\n"), Some(3));
    assert_eq!(VersionBumper::prompt_bump_type("  3\t\r\n"), Some(3));
}

#[test]
fn prompt_bump_type_asks_again_for_anything_else() {
    for answer in ["", "\n", "0", "4", "11", "1.0", "+1", "one", "major", "1 2", "１"] {
        assert_eq!(VersionBumper::prompt_bump_type(answer), None, "{:?}", answer);
    }
}

#[test]
fn prompt_deployment_takes_one_two_or_three() {
    assert_eq!(VersionBumper::prompt_deployment("1\n"), Some(1));
    assert_eq!(VersionBumper::prompt_deployment(" 2 "), Some(2));
    assert_eq!(VersionBumper::prompt_deployment("3"), Some(3));
    assert_eq!(VersionBumper::prompt_deployment("yes"), None);
    assert_eq!(VersionBumper::prompt_deployment(""), None);
}

#[test]
fn confirm_version_takes_a_yes_in_either_case() {
    assert!(VersionBumper::confirm_version("y\n"));
    assert!(VersionBumper::confirm_version("Y\n"));
    assert!(VersionBumper::confirm_version("  y  "));
}

#[test]
fn confirm_version_takes_nothing_else_for_a_yes() {
    for answer in ["", "\n", "n", "N", "yes", "Yes", "yy", "y.", "ｙ", "ý"] {
        assert!(!VersionBumper::confirm_version(answer), "{:?}", answer);
    }
}

#[test]
fn confirm_version_agrees_with_an_ascii_comparison() {
    for answer in ["y", "Y", " y", "Y ", "yes", "n", "", "ｙ", "\u{a0}y\u{a0}", "K", "\u{212a}"] {
        assert_eq!(
            VersionBumper::confirm_version(answer),
            answer.trim().eq_ignore_ascii_case("y"),
            "{:?}",
            answer
        );
    }
}

#[test]
fn create_git_tag_names_the_tag_after_the_version() {
    assert_eq!(
        VersionBumper::create_git_tag("1.2.3"),
        ("v1.2.3".to_string(), "Version 1.2.3".to_string())
    );
    assert_eq!(VersionBumper::create_git_tag(""), ("v".to_string(), "Version ".to_string()));
}

#[test]
fn the_first_choice_publishes_and_pushes_in_one_step() {
    assert_eq!(
        VersionBumper::handle_deployment("1.2.3", 1),
        vec![PublishStep::DeployAndPush("v1.2.3".to_string())]
    );
}

#[test]
fn the_second_choice_publishes_as_the_latest_release() {
    assert_eq!(
        VersionBumper::handle_deployment("2.0.0", 2),
        vec![
            PublishStep::Deploy("v2.0.0".to_string()),
            PublishStep::PointAlias("v2.0.0".to_string()),
            PublishStep::SetDefault,
            PublishStep::Push,
        ]
    );
}

#[test]
fn any_other_choice_publishes_nothing() {
    for choice in [0u8, 3, 4, 255] {
        assert_eq!(VersionBumper::handle_deployment("1.0.0", choice), Vec::<PublishStep>::new());
    }
}

#[test]
fn the_steps_are_taken_one_after_the_other() {
    assert_eq!(next_step(4, &vec![]), Some(0));
    assert_eq!(next_step(4, &vec![true]), Some(1));
    assert_eq!(next_step(4, &vec![true, true]), Some(2));
    assert_eq!(next_step(4, &vec![true, true, true]), Some(3));
    assert_eq!(next_step(4, &vec![true, true, true, true]), None);
    assert_eq!(next_step(1, &vec![]), Some(0));
    assert_eq!(next_step(1, &vec![true]), None);
    assert_eq!(next_step(0, &vec![]), None);
}

#[test]
fn the_first_failure_ends_the_steps() {
    assert_eq!(next_step(4, &vec![false]), None);
    assert_eq!(next_step(4, &vec![true, false]), None);
    assert_eq!(next_step(4, &vec![true, true, false]), None);
    assert_eq!(next_step(4, &vec![false, true]), None);
    assert_eq!(next_step(1, &vec![false]), None);
}

#[test]
fn the_steps_succeeded_if_each_was_taken_and_succeeded() {
    assert!(all_steps_succeeded(0, &vec![]));
    assert!(all_steps_succeeded(1, &vec![true]));
    assert!(all_steps_succeeded(4, &vec![true, true, true, true]));
    assert!(!all_steps_succeeded(4, &vec![true, true, true]));
    assert!(!all_steps_succeeded(4, &vec![true, false]));
    assert!(!all_steps_succeeded(4, &vec![true, true, true, false]));
    assert!(!all_steps_succeeded(1, &vec![]));
    assert!(!all_steps_succeeded(1, &vec![true, true]));
}
