//! The command line of the tools: which tool a command names, and which
//! options a tool was given.

use crate::plan::Mode;
use crate::text::{same_text, trim, trimmed};
use vstd::prelude::*;

verus! {

/// A tool of the documentation command line.
#[derive(Clone, Copy, Debug, PartialEq, Eq, Structural)]
pub enum Command {
    /// Start the development environment.
    Startup,
    /// Tag a new version.
    BumpVersion,
    /// Deploy all versions.
    Deploy,
    /// Show the help text.
    Help,
}

/// The tool that a command names, if it names one.
pub open spec fn command_named(name: Seq<char>) -> Option<Command> {
    if name == "startup"@ {
        Some(Command::Startup)
    } else if name == "bump-version"@ {
        Some(Command::BumpVersion)
    } else if name == "deploy"@ || name == "deploy-all-versions"@ {
        Some(Command::Deploy)
    } else if name == "help"@ || name == "--help"@ || name == "-h"@ {
        Some(Command::Help)
    } else {
        None
    }
}

/// The tool that an answer to the menu chooses, by its number or by its name.
/// White space around the answer does not count.
pub open spec fn command_chosen(answer: Seq<char>) -> Option<Command> {
    let choice = trim(answer);
    if choice == "1"@ || choice == "startup"@ {
        Some(Command::Startup)
    } else if choice == "2"@ || choice == "bump-version"@ {
        Some(Command::BumpVersion)
    } else if choice == "3"@ || choice == "deploy"@ {
        Some(Command::Deploy)
    } else if choice == "h"@ || choice == "help"@ {
        Some(Command::Help)
    } else {
        None
    }
}

/// What the command line asks for.
#[derive(Debug, PartialEq, Eq)]
pub enum Dispatch {
    /// No command was given: show the menu and ask.
    Menu,
    /// Run this tool.
    Run(Command),
    /// The command names no tool.
    Unknown(String),
}

/// `Dispatch`, with the command as a character sequence.
pub enum DispatchView {
    Menu,
    Run(Command),
    Unknown(Seq<char>),
}

impl View for Dispatch {
    type V = DispatchView;

    open spec fn view(&self) -> DispatchView {
        match *self {
            Dispatch::Menu => DispatchView::Menu,
            Dispatch::Run(command) => DispatchView::Run(command),
            Dispatch::Unknown(name) => DispatchView::Unknown(name@),
        }
    }
}

/// What a command line asks for: the menu where nothing follows the
/// program's name, else the tool that the first argument names.
pub open spec fn dispatch_of(args: Seq<Seq<char>>) -> DispatchView {
    if args.len() <= 1 {
        DispatchView::Menu
    } else {
        match command_named(args[1]) {
            Some(command) => DispatchView::Run(command),
            None => DispatchView::Unknown(args[1]),
        }
    }
}

/// The arguments from index `from` on.
pub open spec fn arguments_from(args: Seq<Seq<char>>, from: int) -> Seq<Seq<char>> {
    if 0 <= from <= args.len() {
        args.skip(from)
    } else {
        Seq::empty()
    }
}

/// What is handed to the start-up tool: the draft version, and the other
/// arguments in their order. Reading goes from left to right, starting at
/// index `at`; `--draft-version` takes the argument after it as its value,
/// and a later one overrides an earlier one; without an argument after it, it
/// is an argument like any other.
pub open spec fn startup_arguments_from(
    args: Seq<Seq<char>>,
    at: int,
    draft: Option<Seq<char>>,
    rest: Seq<Seq<char>>,
) -> (Option<Seq<char>>, Seq<Seq<char>>)
    decreases args.len() - at,
{
    if at < 0 || at >= args.len() {
        (draft, rest)
    } else if args[at] == "--draft-version"@ && at + 1 < args.len() {
        startup_arguments_from(args, at + 2, Some(args[at + 1]), rest)
    } else {
        startup_arguments_from(args, at + 1, draft, rest.push(args[at]))
    }
}

/// What is handed to the start-up tool, read from what follows the program's
/// name and the command.
pub open spec fn startup_arguments(args: Seq<Seq<char>>) -> (Option<Seq<char>>, Seq<Seq<char>>) {
    startup_arguments_from(args, 2, None, Seq::empty())
}

/// Reading goes on unchanged over arguments that are no flag with a value:
/// each of them joins the other arguments.
proof fn lemma_startup_arguments_plain(
    args: Seq<Seq<char>>,
    at: int,
    upto: int,
    draft: Option<Seq<char>>,
    rest: Seq<Seq<char>>,
)
    requires
        0 <= at <= upto <= args.len(),
        forall|i: int|
            at <= i < upto ==> #[trigger] args[i] != "--draft-version"@ || i + 1 >= args.len(),
    ensures
        startup_arguments_from(args, at, draft, rest) == startup_arguments_from(
            args,
            upto,
            draft,
            rest + args.subrange(at, upto),
        ),
    decreases upto - at,
{
    if at == upto {
        assert(rest + args.subrange(at, upto) == rest);
    } else {
        lemma_startup_arguments_plain(args, at + 1, upto, draft, rest.push(args[at]));
        assert(rest.push(args[at]) + args.subrange(at + 1, upto) == rest + args.subrange(
            at,
            upto,
        ));
    }
}

/// Where exactly one of the arguments is `--draft-version` and an argument
/// follows it, that argument is the draft version, and all the others are
/// handed on in their order.
pub proof fn lemma_startup_arguments_with_draft(args: Seq<Seq<char>>, at: int)
    requires
        2 <= at,
        at + 1 < args.len(),
        args[at] == "--draft-version"@,
        forall|i: int| 2 <= i < args.len() && i != at ==> #[trigger] args[i] != "--draft-version"@,
    ensures
        startup_arguments(args) == (
            Some(args[at + 1]),
            args.subrange(2, at) + args.subrange(at + 2, args.len() as int),
        ),
{
    let none: Option<Seq<char>> = None;
    let draft = Some(args[at + 1]);
    let before = args.subrange(2, at);
    lemma_startup_arguments_plain(args, 2, at, none, Seq::empty());
    assert(Seq::<Seq<char>>::empty() + before == before);
    lemma_startup_arguments_plain(args, at + 2, args.len() as int, draft, before);
}

/// Where no `--draft-version` has an argument after it, there is no draft
/// version, and every argument is handed on; a `--draft-version` that stands
/// last is an argument like any other.
pub proof fn lemma_startup_arguments_without_draft(args: Seq<Seq<char>>)
    requires
        forall|i: int| 2 <= i < args.len() - 1 ==> #[trigger] args[i] != "--draft-version"@,
    ensures
        startup_arguments(args) == (None::<Seq<char>>, arguments_from(args, 2)),
{
    if args.len() > 2 {
        let none: Option<Seq<char>> = None;
        lemma_startup_arguments_plain(args, 2, args.len() as int, none, Seq::empty());
        assert(Seq::<Seq<char>>::empty() + args.subrange(2, args.len() as int) == args.skip(2));
    } else if args.len() == 2 {
        assert(args.skip(2) == Seq::<Seq<char>>::empty());
    }
}

/// The documentation command line.
pub struct DocCli {
    args: Vec<String>,
}

impl View for DocCli {
    type V = Seq<Seq<char>>;

    closed spec fn view(&self) -> Seq<Seq<char>> {
        self.args.deep_view()
    }
}

impl DocCli {
    /// The command line with the given arguments, the program's name first.
    pub fn new(args: Vec<String>) -> (cli: DocCli)
        ensures
            cli@ == args.deep_view(),
    {
        DocCli { args }
    }

    /// What the command line asks for.
    pub fn run(&self) -> (r: Dispatch)
        ensures
            r@ == dispatch_of(self@),
    {
        if self.args.len() <= 1 {
            Dispatch::Menu
        } else {
            match DocCli::handle_command(self.args[1].as_str()) {
                Some(command) => Dispatch::Run(command),
                None => Dispatch::Unknown(self.args[1].clone()),
            }
        }
    }

    /// The tool that an answer to the menu chooses. `None` asks again.
    pub fn handle_user_choice(answer: &str) -> (r: Option<Command>)
        ensures
            r == command_chosen(answer@),
    {
        let choice: &str = trimmed(answer);
        if same_text(choice, "1") || same_text(choice, "startup") {
            Some(Command::Startup)
        } else if same_text(choice, "2") || same_text(choice, "bump-version") {
            Some(Command::BumpVersion)
        } else if same_text(choice, "3") || same_text(choice, "deploy") {
            Some(Command::Deploy)
        } else if same_text(choice, "h") || same_text(choice, "help") {
            Some(Command::Help)
        } else {
            None
        }
    }

    /// The tool that a command names.
    pub fn handle_command(command: &str) -> (r: Option<Command>)
        ensures
            r == command_named(command@),
    {
        if same_text(command, "startup") {
            Some(Command::Startup)
        } else if same_text(command, "bump-version") {
            Some(Command::BumpVersion)
        } else if same_text(command, "deploy") || same_text(command, "deploy-all-versions") {
            Some(Command::Deploy)
        } else if same_text(command, "help") || same_text(command, "--help") || same_text(
            command,
            "-h",
        ) {
            Some(Command::Help)
        } else {
            None
        }
    }

    /// What is handed to the start-up tool: the draft version, if one is
    /// given, and the other arguments.
    pub fn run_startup(&self) -> (r: (Option<String>, Vec<String>))
        ensures
            (
                match r.0 {
                    Some(version) => Some(version@),
                    None => None,
                },
                r.1.deep_view(),
            ) == startup_arguments(self@),
    {
        let n: usize = self.args.len();
        let ghost all = self.args.deep_view();
        let mut draft: Option<String> = None;
        let mut rest: Vec<String> = Vec::new();
        let mut i: usize = 2;
        assert(rest.deep_view() == Seq::<Seq<char>>::empty());
        while i < n
            invariant
                2 <= i,
                n == self.args.len(),
                all == self.args.deep_view(),
                startup_arguments(all) == startup_arguments_from(
                    all,
                    i as int,
                    match draft {
                        Some(version) => Some(version@),
                        None => None,
                    },
                    rest.deep_view(),
                ),
            decreases n - i,
        {
            if same_text(self.args[i].as_str(), "--draft-version") && i + 1 < n {
                draft = Some(self.args[i + 1].clone());
                i += 2;
            } else {
                let ghost before = rest.deep_view();
                rest.push(self.args[i].clone());
                assert(rest.deep_view() == before.push(all[i as int]));
                i += 1;
            }
        }
        (draft, rest)
    }

    /// What is handed to the deployment tool: all that follows the program's
    /// name and the command.
    pub fn run_deploy_all_versions(&self) -> (r: Vec<String>)
        ensures
            r.deep_view() == arguments_from(self@, 2),
    {
        let n: usize = self.args.len();
        let ghost all = self.args.deep_view();
        let mut rest: Vec<String> = Vec::new();
        if n <= 2 {
            assert(rest.deep_view() == arguments_from(all, 2));
            return rest;
        }
        let mut i: usize = 2;
        assert(rest.deep_view() == all.subrange(2, 2));
        while i < n
            invariant
                2 <= i <= n,
                n == self.args.len(),
                all == self.args.deep_view(),
                rest.deep_view() == all.subrange(2, i as int),
            decreases n - i,
        {
            let ghost before = rest.deep_view();
            rest.push(self.args[i].clone());
            assert(rest.deep_view() == before.push(all[i as int]));
            i += 1;
        }
        assert(all.subrange(2, n as int) == all.skip(2));
        rest
    }
}

/// The options of the deployment tool.
#[derive(Clone, Copy, Debug, PartialEq, Eq, Structural)]
pub struct DeployOptions {
    /// Deploy everything again.
    pub force: bool,
    /// Ask for the mode before the run.
    pub interactive: bool,
}

/// An option that asks for force mode.
pub open spec fn is_force_option(arg: Seq<char>) -> bool {
    arg == "-f"@ || arg == "--force"@
}

/// An option that forbids to ask.
pub open spec fn is_quiet_option(arg: Seq<char>) -> bool {
    arg == "-n"@ || arg == "--non-interactive"@
}

/// The options that `options`, the arguments after the program's name, ask
/// for, or the first of them that is no option. Either kind of option
/// forbids to ask for the mode.
pub open spec fn deploy_options_of(options: Seq<Seq<char>>) -> Result<DeployOptions, Seq<char>>
    decreases options.len(),
{
    if options.len() == 0 {
        Ok(DeployOptions { force: false, interactive: true })
    } else {
        match deploy_options_of(options.drop_last()) {
            Err(unknown) => Err(unknown),
            Ok(before) => if is_force_option(options.last()) {
                Ok(DeployOptions { force: true, interactive: false })
            } else if is_quiet_option(options.last()) {
                Ok(DeployOptions { force: before.force, interactive: false })
            } else {
                Err(options.last())
            },
        }
    }
}

/// An option of the deployment tool.
pub open spec fn is_option(arg: Seq<char>) -> bool {
    is_force_option(arg) || is_quiet_option(arg)
}

/// What the options ask for, said at once: an argument that is no option is
/// an error, and the first such is reported. Else force mode is asked for if
/// any of the options asks for it, and the mode may be asked for only where
/// there is no option at all.
pub proof fn lemma_deploy_options(options: Seq<Seq<char>>)
    ensures
        match deploy_options_of(options) {
            Ok(found) => {
                &&& forall|i: int| 0 <= i < options.len() ==> is_option(#[trigger] options[i])
                &&& found.force <==> exists|i: int|
                    0 <= i < options.len() && is_force_option(#[trigger] options[i])
                &&& found.interactive <==> options.len() == 0
            },
            Err(unknown) => exists|i: int|
                {
                    &&& 0 <= i < options.len()
                    &&& #[trigger] options[i] == unknown
                    &&& !is_option(unknown)
                    &&& forall|j: int| 0 <= j < i ==> is_option(#[trigger] options[j])
                },
        },
    decreases options.len(),
{
    if options.len() > 0 {
        let init = options.drop_last();
        let last = options.last();
        lemma_deploy_options(init);
        match deploy_options_of(init) {
            Ok(before) => {
                assert forall|i: int| 0 <= i < init.len() implies options[i] == init[i] by {}
                if is_option(last) {
                    assert(options[options.len() - 1] == last);
                    if before.force {
                        let i = choose|i: int|
                            0 <= i < init.len() && is_force_option(#[trigger] init[i]);
                        assert(is_force_option(options[i]));
                    }
                    if !is_force_option(last) && exists|i: int|
                        0 <= i < options.len() && is_force_option(#[trigger] options[i]) {
                        let i = choose|i: int|
                            0 <= i < options.len() && is_force_option(#[trigger] options[i]);
                        assert(is_force_option(init[i]));
                    }
                } else {
                    assert(options[options.len() - 1] == last);
                    assert forall|j: int| 0 <= j < options.len() - 1 implies is_option(
                        #[trigger] options[j],
                    ) by {
                        assert(is_option(init[j]));
                    }
                }
            },
            Err(unknown) => {
                let i = choose|i: int|
                    {
                        &&& 0 <= i < init.len()
                        &&& #[trigger] init[i] == unknown
                        &&& !is_option(unknown)
                        &&& forall|j: int| 0 <= j < i ==> is_option(#[trigger] init[j])
                    };
                assert(options[i] == unknown);
                assert forall|j: int| 0 <= j < i implies is_option(#[trigger] options[j]) by {
                    assert(is_option(init[j]));
                }
            },
        }
    }
}

/// Reads the options of the deployment tool from its command line, the
/// program's name first. An argument that is no option is handed back.
pub fn parse_deploy_args(args: &Vec<String>) -> (r: Result<DeployOptions, String>)
    ensures
        match r {
            Ok(options) => deploy_options_of(arguments_from(args.deep_view(), 1)) == Ok::<
                DeployOptions,
                Seq<char>,
            >(options),
            Err(unknown) => deploy_options_of(arguments_from(args.deep_view(), 1)) == Err::<
                DeployOptions,
                Seq<char>,
            >(unknown@),
        },
{
    let n: usize = args.len();
    let ghost options = arguments_from(args.deep_view(), 1);
    let mut force = false;
    let mut interactive = true;
    if n <= 1 {
        assert(options.len() == 0);
        return Ok(DeployOptions { force, interactive });
    }
    let mut i: usize = 1;
    assert(options.take(0) == Seq::<Seq<char>>::empty());
    while i < n
        invariant
            1 <= i <= n,
            n == args.len(),
            options == args.deep_view().skip(1),
            options == arguments_from(args.deep_view(), 1),
            deploy_options_of(options.take(i - 1)) == Ok::<DeployOptions, Seq<char>>(
                DeployOptions { force, interactive },
            ),
        decreases n - i,
    {
        let arg: &str = args[i].as_str();
        proof {
            assert(options.take(i as int).drop_last() == options.take(i - 1));
            assert(options.take(i as int).last() == arg@);
        }
        if same_text(arg, "-f") || same_text(arg, "--force") {
            force = true;
            interactive = false;
        } else if same_text(arg, "-n") || same_text(arg, "--non-interactive") {
            interactive = false;
        } else {
            proof {
                lemma_unknown_option_stays(options, i as int);
            }
            return Err(args[i].clone());
        }
        i += 1;
    }
    assert(options.take(n - 1) == options);
    Ok(DeployOptions { force, interactive })
}

/// An argument that is no option is still the answer when more arguments
/// follow it.
proof fn lemma_unknown_option_stays(options: Seq<Seq<char>>, k: int)
    requires
        0 <= k <= options.len(),
        deploy_options_of(options.take(k)) is Err,
    ensures
        deploy_options_of(options) == deploy_options_of(options.take(k)),
    decreases options.len() - k,
{
    if k == options.len() {
        assert(options.take(k) == options);
    } else {
        assert(options.take(k + 1).drop_last() == options.take(k));
        lemma_unknown_option_stays(options, k + 1);
    }
}

/// What an answer to the prompt for the mode amounts to.
#[derive(Clone, Copy, Debug, PartialEq, Eq, Structural)]
pub enum ModeAnswer {
    /// The first choice: smart mode.
    Smart,
    /// The second choice: force mode.
    Force,
    /// Neither choice.
    Invalid,
    /// No answer could be read.
    Unreadable,
}

/// What an answer to the prompt amounts to. White space around the answer
/// does not count.
pub open spec fn mode_answer(answer: Option<Seq<char>>) -> ModeAnswer {
    match answer {
        Some(text) => if trim(text) == "1"@ {
            ModeAnswer::Smart
        } else if trim(text) == "2"@ {
            ModeAnswer::Force
        } else {
            ModeAnswer::Invalid
        },
        None => ModeAnswer::Unreadable,
    }
}

/// The mode that an answer to the prompt chooses: force mode for the second
/// choice, smart mode for everything else, and where no answer could be
/// read.
pub open spec fn mode_chosen(answer: Option<Seq<char>>) -> Mode {
    if mode_answer(answer) == ModeAnswer::Force {
        Mode::Force
    } else {
        Mode::Smart
    }
}

/// What an answer to the prompt for the mode amounts to.
pub fn read_mode_answer(answer: Option<&str>) -> (r: ModeAnswer)
    ensures
        r == mode_answer(
            match answer {
                Some(text) => Some(text@),
                None => None,
            },
        ),
{
    match answer {
        Some(text) => {
            let choice: &str = trimmed(text);
            if same_text(choice, "1") {
                ModeAnswer::Smart
            } else if same_text(choice, "2") {
                ModeAnswer::Force
            } else {
                ModeAnswer::Invalid
            }
        },
        None => ModeAnswer::Unreadable,
    }
}

/// Whether the answer to the prompt chooses force mode.
pub fn select_deployment_mode(answer: Option<&str>) -> (force: bool)
    ensures
        force == (mode_chosen(
            match answer {
                Some(text) => Some(text@),
                None => None,
            },
        ) == Mode::Force),
{
    match read_mode_answer(answer) {
        ModeAnswer::Force => true,
        _ => false,
    }
}

/// The mode of a run: the one that the options fix or, where they allow to
/// ask, the one that the answer to the prompt chooses.
pub open spec fn mode_of(options: DeployOptions, answer: Option<Seq<char>>) -> Mode {
    if options.interactive {
        mode_chosen(answer)
    } else if options.force {
        Mode::Force
    } else {
        Mode::Smart
    }
}

/// The mode of a run, given its options and, where they allow to ask, the
/// answer to the prompt.
pub fn deployment_mode(options: DeployOptions, answer: Option<&str>) -> (mode: Mode)
    ensures
        mode == mode_of(
            options,
            match answer {
                Some(text) => Some(text@),
                None => None,
            },
        ),
{
    let force = if options.interactive {
        select_deployment_mode(answer)
    } else {
        options.force
    };
    if force {
        Mode::Force
    } else {
        Mode::Smart
    }
}

} // verus!
