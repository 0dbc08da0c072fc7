//! Tagging a new version: what the answers to the prompts mean, how the tag
//! is named, and which steps publish it.

use crate::text::{same_text, trim, trimmed};
use crate::version::VersionBumper;
use vstd::prelude::*;
use vstd::string::StringExecFns;

verus! {

/// The choice that an answer makes among three numbered options. White space
/// around the answer does not count; anything but `1`, `2` or `3` is no
/// choice.
pub open spec fn choice_of(answer: Seq<char>) -> Option<u8> {
    let choice = trim(answer);
    if choice == "1"@ {
        Some(1u8)
    } else if choice == "2"@ {
        Some(2u8)
    } else if choice == "3"@ {
        Some(3u8)
    } else {
        None
    }
}

/// An answer that agrees: `y` or `Y`, with or without white space around it.
pub open spec fn agrees(answer: Seq<char>) -> bool {
    trim(answer) == "y"@ || trim(answer) == "Y"@
}

/// The name of the tag of a version: the version with a `v` before it.
pub open spec fn tag_name_of(version: Seq<char>) -> Seq<char> {
    "v"@ + version
}

/// The message of the tag of a version.
pub open spec fn tag_message_of(version: Seq<char>) -> Seq<char> {
    "Version "@ + version
}

/// A step that publishes a new version.
#[derive(Debug, PartialEq, Eq)]
pub enum PublishStep {
    /// Publish the named release and push the publish branch at once.
    DeployAndPush(String),
    /// Publish the named release.
    Deploy(String),
    /// Publish the named release under the alias of the latest release.
    PointAlias(String),
    /// Make the alias of the latest release the default.
    SetDefault,
    /// Push the publish branch upstream.
    Push,
}

/// `PublishStep`, with names as character sequences.
pub enum PublishStepView {
    DeployAndPush(Seq<char>),
    Deploy(Seq<char>),
    PointAlias(Seq<char>),
    SetDefault,
    Push,
}

impl DeepView for PublishStep {
    type V = PublishStepView;

    open spec fn deep_view(&self) -> PublishStepView {
        match *self {
            PublishStep::DeployAndPush(tag) => PublishStepView::DeployAndPush(tag@),
            PublishStep::Deploy(tag) => PublishStepView::Deploy(tag@),
            PublishStep::PointAlias(tag) => PublishStepView::PointAlias(tag@),
            PublishStep::SetDefault => PublishStepView::SetDefault,
            PublishStep::Push => PublishStepView::Push,
        }
    }
}

/// The steps that publish `version` as the answer to the deployment prompt
/// chose: with 1 the release is published and pushed in one step; with 2 it
/// is published, the alias of the latest release is moved to it and made the
/// default, and the publish branch is pushed; with anything else nothing is
/// published.
pub open spec fn deployment_steps(version: Seq<char>, choice: u8) -> Seq<PublishStepView> {
    let tag = tag_name_of(version);
    if choice == 1 {
        seq![PublishStepView::DeployAndPush(tag)]
    } else if choice == 2 {
        seq![
            PublishStepView::Deploy(tag),
            PublishStepView::PointAlias(tag),
            PublishStepView::SetDefault,
            PublishStepView::Push,
        ]
    } else {
        Seq::empty()
    }
}

/// The index of the step to take after the steps whose outcomes are
/// `outcomes`: the next one, as long as every step so far succeeded and one
/// is left. The first failure ends the sequence.
pub open spec fn step_after(steps: nat, outcomes: Seq<bool>) -> Option<nat> {
    if outcomes.len() < steps && forall|i: int| 0 <= i < outcomes.len() ==> outcomes[i] {
        Some(outcomes.len())
    } else {
        None
    }
}

fn choice(answer: &str) -> (r: Option<u8>)
    ensures
        r == choice_of(answer@),
{
    let text: &str = trimmed(answer);
    if same_text(text, "1") {
        Some(1)
    } else if same_text(text, "2") {
        Some(2)
    } else if same_text(text, "3") {
        Some(3)
    } else {
        None
    }
}

impl VersionBumper {
    /// The kind of release that an answer chooses: 1 for a major, 2 for a
    /// minor, 3 for a patch release. `None` asks again.
    pub fn prompt_bump_type(answer: &str) -> (r: Option<u8>)
        ensures
            r == choice_of(answer@),
    {
        choice(answer)
    }

    /// Whether an answer confirms the new version.
    pub fn confirm_version(answer: &str) -> (r: bool)
        ensures
            r == agrees(answer@),
    {
        let text: &str = trimmed(answer);
        same_text(text, "y") || same_text(text, "Y")
    }

    /// Name and message of the tag of `new_version`.
    pub fn create_git_tag(new_version: &str) -> (r: (String, String))
        ensures
            r.0@ == tag_name_of(new_version@),
            r.1@ == tag_message_of(new_version@),
    {
        let mut name = "v".to_owned();
        name.append(new_version);
        let mut message = "Version ".to_owned();
        message.append(new_version);
        (name, message)
    }

    /// How the new version is to be published, as an answer chooses: 1 to
    /// publish it, 2 to publish it as the latest release, 3 not to publish
    /// it. `None` asks again.
    pub fn prompt_deployment(answer: &str) -> (r: Option<u8>)
        ensures
            r == choice_of(answer@),
    {
        choice(answer)
    }

    /// The steps that publish `new_version` as `deploy_choice` asks.
    pub fn handle_deployment(new_version: &str, deploy_choice: u8) -> (steps: Vec<PublishStep>)
        ensures
            steps.deep_view() == deployment_steps(new_version@, deploy_choice),
    {
        let mut steps: Vec<PublishStep> = Vec::new();
        if deploy_choice == 1 {
            let (tag, _) = VersionBumper::create_git_tag(new_version);
            steps.push(PublishStep::DeployAndPush(tag));
        } else if deploy_choice == 2 {
            let (tag, _) = VersionBumper::create_git_tag(new_version);
            let alias = tag.clone();
            steps.push(PublishStep::Deploy(tag));
            steps.push(PublishStep::PointAlias(alias));
            steps.push(PublishStep::SetDefault);
            steps.push(PublishStep::Push);
        }
        assert(steps.deep_view() == deployment_steps(new_version@, deploy_choice));
        steps
    }
}

/// The index of the step to take next, given how the steps so far went.
/// `None` ends the sequence: a step failed, or none is left.
pub fn next_step(steps: usize, outcomes: &Vec<bool>) -> (r: Option<usize>)
    ensures
        match r {
            Some(i) => step_after(steps as nat, outcomes@) == Some(i as nat),
            None => step_after(steps as nat, outcomes@) is None,
        },
{
    let n: usize = outcomes.len();
    if n >= steps {
        return None;
    }
    let mut i: usize = 0;
    while i < n
        invariant
            i <= n,
            n == outcomes.len(),
            forall|j: int| 0 <= j < i ==> outcomes@[j],
        decreases n - i,
    {
        if !outcomes[i] {
            return None;
        }
        i += 1;
    }
    Some(n)
}

/// Whether every one of the steps was taken and succeeded.
pub fn all_steps_succeeded(steps: usize, outcomes: &Vec<bool>) -> (r: bool)
    ensures
        r == (outcomes@.len() == steps && forall|i: int| 0 <= i < outcomes@.len() ==> outcomes@[i]),
{
    let n: usize = outcomes.len();
    if n != steps {
        return false;
    }
    let mut i: usize = 0;
    while i < n
        invariant
            i <= n,
            n == outcomes.len(),
            forall|j: int| 0 <= j < i ==> outcomes@[j],
        decreases n - i,
    {
        if !outcomes[i] {
            return false;
        }
        i += 1;
    }
    true
}

} // verus!
