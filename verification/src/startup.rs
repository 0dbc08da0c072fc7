//! Starting the development environment: the draft version on the command
//! line, the answer about a busy port, and how the documentation is served.

use crate::text::{same_text, trim, trimmed};
use vstd::prelude::*;

verus! {

/// The index of the first `--draft-version` at or after `from` that has an
/// argument after it.
pub open spec fn draft_flag_from(args: Seq<Seq<char>>, from: int) -> Option<int>
    decreases args.len() - from,
{
    if from < 0 || from + 1 >= args.len() {
        None
    } else if args[from] == "--draft-version"@ {
        Some(from)
    } else {
        draft_flag_from(args, from + 1)
    }
}

/// The flag that is found has an argument after it, and no flag before it
/// has one; where none is found, no `--draft-version` at or after `from` has
/// an argument after it.
pub proof fn lemma_draft_flag_from(args: Seq<Seq<char>>, from: int)
    requires
        0 <= from,
    ensures
        match draft_flag_from(args, from) {
            Some(at) => {
                &&& from <= at
                &&& at + 1 < args.len()
                &&& args[at] == "--draft-version"@
                &&& forall|i: int| from <= i < at ==> #[trigger] args[i] != "--draft-version"@
            },
            None => forall|i: int|
                from <= i && i + 1 < args.len() ==> #[trigger] args[i] != "--draft-version"@,
        },
    decreases args.len() - from,
{
    if from + 1 < args.len() && args[from] != "--draft-version"@ {
        lemma_draft_flag_from(args, from + 1);
    }
}

/// The draft version that a command line names, the program's name first:
/// the argument after the first `--draft-version` that has one.
pub open spec fn draft_version_of(args: Seq<Seq<char>>) -> Option<Seq<char>> {
    match draft_flag_from(args, 1) {
        Some(at) => Some(args[at + 1]),
        None => None,
    }
}

/// The draft version that the command line names.
pub fn draft_version_from_args(args: &Vec<String>) -> (r: Option<String>)
    ensures
        match r {
            Some(version) => draft_version_of(args.deep_view()) == Some(version@),
            None => draft_version_of(args.deep_view()) is None,
        },
{
    let n: usize = args.len();
    let ghost all = args.deep_view();
    let mut i: usize = 1;
    while i < n && i + 1 < n
        invariant
            1 <= i,
            n == args.len(),
            all == args.deep_view(),
            draft_flag_from(all, 1) == draft_flag_from(all, i as int),
        decreases n - i,
    {
        if same_text(args[i].as_str(), "--draft-version") {
            return Some(args[i + 1].clone());
        }
        i += 1;
    }
    None
}

/// An answer that asks to end the process that holds the port: `y` or `Y`,
/// with or without white space around it.
pub open spec fn asks_to_kill(answer: Seq<char>) -> bool {
    trim(answer) == "y"@ || trim(answer) == "Y"@
}

/// The process to end, as the listing of the port's holder names it: what
/// the listing printed, without the white space around it. An empty listing
/// names no process.
pub open spec fn process_named(listing: Seq<char>) -> Option<Seq<char>> {
    if listing.len() == 0 {
        None
    } else {
        Some(trim(listing))
    }
}

/// How the documentation is served.
#[derive(Clone, Copy, Debug, PartialEq, Eq, Structural)]
pub enum Serving {
    /// Build the site, then serve what was built.
    BuiltSite,
    /// Serve from the sources, rebuilding on change.
    Live,
}

/// A step that brings the documentation up.
#[derive(Clone, Copy, Debug, PartialEq, Eq, Structural)]
pub enum ServeStep {
    /// Build the site.
    BuildSite,
    /// Serve the site that was built.
    ServeBuiltSite,
    /// Serve from the sources.
    ServeLive,
}

/// The steps that bring the documentation up: for a draft version the site
/// is built first and then served as built; without one it is served live.
pub open spec fn serve_steps_of(draft: Option<Seq<char>>) -> Seq<ServeStep> {
    if draft is Some {
        seq![ServeStep::BuildSite, ServeStep::ServeBuiltSite]
    } else {
        seq![ServeStep::ServeLive]
    }
}

/// The status with which bringing the documentation up ends, given how the
/// steps went that were taken: one as soon as a step has failed, zero once
/// every step was taken and succeeded, and none while a step is left.
pub open spec fn status_after(steps: nat, outcomes: Seq<bool>) -> Option<u8> {
    if exists|i: int| 0 <= i < outcomes.len() && !outcomes[i] {
        Some(1u8)
    } else if outcomes.len() >= steps {
        Some(0u8)
    } else {
        None
    }
}

/// The status with which bringing the documentation up ends, if it is over.
pub fn serve_status(steps: usize, outcomes: &Vec<bool>) -> (r: Option<u8>)
    ensures
        r == status_after(steps as nat, outcomes@),
{
    let n: usize = outcomes.len();
    let mut i: usize = 0;
    while i < n
        invariant
            i <= n,
            n == outcomes.len(),
            forall|j: int| 0 <= j < i ==> outcomes@[j],
        decreases n - i,
    {
        if !outcomes[i] {
            return Some(1);
        }
        i += 1;
    }
    if n >= steps {
        Some(0)
    } else {
        None
    }
}

/// The start of the development environment.
pub struct Startup {
    draft_version: Option<String>,
}

impl Startup {
    /// The draft version to show, if any.
    pub closed spec fn draft(&self) -> Option<Seq<char>> {
        match self.draft_version {
            Some(version) => Some(version@),
            None => None,
        }
    }

    /// A start that shows `draft_version`, if one is given.
    pub fn new(draft_version: Option<String>) -> (startup: Startup)
        ensures
            startup.draft() == match draft_version {
                Some(version) => Some(version@),
                None => None,
            },
    {
        Startup { draft_version }
    }

    /// Whether an answer asks to end the process that holds the port.
    pub fn check_port_and_kill_if_needed(answer: &str) -> (r: bool)
        ensures
            r == asks_to_kill(answer@),
    {
        let text: &str = trimmed(answer);
        same_text(text, "y") || same_text(text, "Y")
    }

    /// The process to end, if the listing of the port's holder names one.
    pub fn kill_process_on_port(listing: &str) -> (r: Option<String>)
        ensures
            match r {
                Some(id) => process_named(listing@) == Some(id@),
                None => process_named(listing@) is None,
            },
    {
        if listing.unicode_len() == 0 {
            None
        } else {
            Some(trimmed(listing).to_owned())
        }
    }

    /// How the documentation is served: a draft version is built and served
    /// as built, anything else is served live.
    pub fn start_documentation_server(&self) -> (r: Serving)
        ensures
            r == if self.draft() is Some {
                Serving::BuiltSite
            } else {
                Serving::Live
            },
    {
        match &self.draft_version {
            Some(_) => Serving::BuiltSite,
            None => Serving::Live,
        }
    }

    /// The steps that bring the documentation up, in their order.
    pub fn serve_steps(&self) -> (steps: Vec<ServeStep>)
        ensures
            steps@ == serve_steps_of(self.draft()),
    {
        let mut steps: Vec<ServeStep> = Vec::new();
        match self.start_documentation_server() {
            Serving::BuiltSite => {
                steps.push(ServeStep::BuildSite);
                steps.push(ServeStep::ServeBuiltSite);
            },
            Serving::Live => {
                steps.push(ServeStep::ServeLive);
            },
        }
        assert(steps@ == serve_steps_of(self.draft()));
        steps
    }

    /// The draft version to show, if any.
    pub fn draft_version(&self) -> (r: &Option<String>)
        ensures
            self.draft() == match *r {
                Some(version) => Some(version@),
                None => None,
            },
    {
        &self.draft_version
    }
}

} // verus!
