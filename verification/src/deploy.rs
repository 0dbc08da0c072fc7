//! A deployment run.
//!
//! A run fetches, reads the source tags from the canonical branch, finds out
//! what is published, deploys what is missing and moves the alias of the
//! latest release. Every one of these steps is work outside this crate, so a
//! run is a machine that is driven from outside: `next_action` says what to
//! do, the driver does it and hands the reply to `advance`. What the machine
//! does is stated over `RunState`, its model.

use crate::plan::{
    lemma_empty_source_empty_plan, lemma_nothing_left, lemma_plan_keeps_order,
    lemma_plan_membership, lemma_second_run_deploys_nothing, plan, tags_to_deploy, tags_to_skip,
    Mode,
};
use crate::probe::{
    add_missing, lemma_published_is_union, listed_tags, published_from, scraped_versions,
    versions_in_metadata, with_missing,
};
use crate::tags::{
    ascending, latest, latest_tag, lemma_latest_of_ascending, lemma_sorted_tags, sorted_tags,
    source_names, source_tags,
};
use crate::text::{trim, trimmed};
use vstd::prelude::*;

verus! {

/// Why a run cannot go on. Each of these leaves the working tree on a branch
/// that the run cannot vouch for.
#[derive(Clone, Copy, Debug, PartialEq, Eq, Structural)]
pub enum FatalError {
    /// The branch that the run started on is not known.
    UnknownBranch,
    /// The canonical branch could not be switched to.
    NoCanonicalBranch,
    /// The branch that the run started on could not be switched back to.
    BranchNotRestored,
}

/// The step of a run whose reply is awaited.
#[derive(Clone, Copy, Debug, PartialEq, Eq, Structural)]
pub enum Phase {
    FetchTags,
    FetchPublishBranch,
    EnterCanonicalBranch,
    ListTags,
    RestoreBranch,
    VerifyPublishBranch,
    ListPublished,
    ReadMetadata,
    Deploy,
    PointAlias,
    SetDefault,
    Push,
    Done,
    Failed(FatalError),
}

/// What the driver of a run is asked to do.
#[derive(Debug, PartialEq, Eq)]
pub enum Action {
    /// Fetch all tags from upstream.
    FetchTags,
    /// Fetch the publish branch from upstream.
    FetchPublishBranch,
    /// Switch to the canonical branch.
    EnterCanonicalBranch,
    /// List the tags, one per line.
    ListTags,
    /// Switch to the named branch, the one that the run started on.
    RestoreBranch(String),
    /// Check that the publish branch exists.
    VerifyPublishBranch,
    /// List the top-level entries of the publish branch, one per line.
    ListPublished,
    /// Read the version metadata from the publish branch.
    ReadMetadata,
    /// Publish the named release.
    Deploy(String),
    /// Publish the named release under the alias of the latest release.
    PointAlias(String),
    /// Make the alias of the latest release the default.
    SetDefault,
    /// Push the publish branch upstream.
    Push,
    /// Nothing is left to do.
    Finish,
    /// Give up.
    Abort(FatalError),
}

/// `Action`, with names as character sequences.
pub enum ActionView {
    FetchTags,
    FetchPublishBranch,
    EnterCanonicalBranch,
    ListTags,
    RestoreBranch(Seq<char>),
    VerifyPublishBranch,
    ListPublished,
    ReadMetadata,
    Deploy(Seq<char>),
    PointAlias(Seq<char>),
    SetDefault,
    Push,
    Finish,
    Abort(FatalError),
}

impl View for Action {
    type V = ActionView;

    open spec fn view(&self) -> ActionView {
        match *self {
            Action::FetchTags => ActionView::FetchTags,
            Action::FetchPublishBranch => ActionView::FetchPublishBranch,
            Action::EnterCanonicalBranch => ActionView::EnterCanonicalBranch,
            Action::ListTags => ActionView::ListTags,
            Action::RestoreBranch(branch) => ActionView::RestoreBranch(branch@),
            Action::VerifyPublishBranch => ActionView::VerifyPublishBranch,
            Action::ListPublished => ActionView::ListPublished,
            Action::ReadMetadata => ActionView::ReadMetadata,
            Action::Deploy(tag) => ActionView::Deploy(tag@),
            Action::PointAlias(tag) => ActionView::PointAlias(tag@),
            Action::SetDefault => ActionView::SetDefault,
            Action::Push => ActionView::Push,
            Action::Finish => ActionView::Finish,
            Action::Abort(error) => ActionView::Abort(error),
        }
    }
}

/// How an action ended: whether it succeeded, and what it printed.
pub struct Reply {
    pub success: bool,
    pub output: String,
}

/// `Reply`, with the output as a character sequence.
pub struct ReplyView {
    pub success: bool,
    pub output: Seq<char>,
}

impl View for Reply {
    type V = ReplyView;

    open spec fn view(&self) -> ReplyView {
        ReplyView { success: self.success, output: self.output@ }
    }
}

impl ReplyView {
    /// What the action printed, if it succeeded.
    pub open spec fn heard(self) -> Option<Seq<char>> {
        if self.success {
            Some(self.output)
        } else {
            None
        }
    }
}

impl Reply {
    /// What the action printed, if it succeeded.
    pub fn heard(&self) -> (r: Option<&str>)
        ensures
            match r {
                Some(text) => self@.heard() == Some(text@),
                None => self@.heard() is None,
            },
    {
        if self.success {
            Some(self.output.as_str())
        } else {
            None
        }
    }
}

/// The model of a run.
pub struct RunState {
    pub mode: Mode,
    /// The branch that the run started on.
    pub branch: Seq<char>,
    pub phase: Phase,
    /// The source tags, in ascending order.
    pub tags: Seq<Seq<char>>,
    /// The tags that were found published.
    pub published: Seq<Seq<char>>,
    /// How the deployments went that were attempted, in the order of the tags
    /// to deploy.
    pub results: Seq<bool>,
    /// The alias points to the latest release.
    pub alias_set: bool,
    /// The alias is the default.
    pub default_set: bool,
    /// The publish branch was pushed.
    pub pushed: bool,
}

impl RunState {
    /// The tags that this run deploys.
    pub open spec fn to_deploy(self) -> Seq<Seq<char>> {
        tags_to_deploy(self.tags, self.published, self.mode)
    }

    /// The tags that this run skips.
    pub open spec fn to_skip(self) -> Seq<Seq<char>> {
        tags_to_skip(self.tags, self.published, self.mode)
    }

    /// What follows the deployments that were attempted: the next one; the
    /// alias, once all were attempted, however they went; or nothing, where
    /// there is no source tag at all.
    pub open spec fn after_attempts(self) -> Phase {
        if self.results.len() < self.to_deploy().len() {
            Phase::Deploy
        } else if self.tags.len() == 0 {
            Phase::Done
        } else {
            Phase::PointAlias
        }
    }

    /// The run as it goes on once `published` is what was found.
    pub open spec fn planned(self, published: Seq<Seq<char>>) -> RunState {
        let found = RunState { published, ..self };
        RunState { phase: found.after_attempts(), ..found }
    }

    /// What holds of every run, whatever the replies were: the source tags
    /// ascend; the attempts made fit the phase; the alias is moved before the
    /// default is set and before anything is pushed, and never without a
    /// source tag; nothing counts as published before the publish branch is
    /// listed; a forced run probes nothing and has nothing published; and a
    /// run without a branch to return to has failed.
    pub open spec fn wf(self) -> bool {
        &&& ascending(self.tags)
        &&& match self.phase {
            Phase::Deploy => self.results.len() < self.to_deploy().len(),
            Phase::PointAlias | Phase::SetDefault | Phase::Push => {
                &&& self.tags.len() > 0
                &&& self.results.len() == self.to_deploy().len()
            },
            Phase::Done => self.results.len() == self.to_deploy().len(),
            Phase::Failed(error) => {
                &&& self.results.len() == 0
                &&& self.published.len() == 0
                &&& error != FatalError::BranchNotRestored ==> self.tags.len() == 0
            },
            Phase::FetchTags | Phase::FetchPublishBranch | Phase::EnterCanonicalBranch
            | Phase::ListTags => {
                &&& self.results.len() == 0
                &&& self.tags.len() == 0
                &&& self.published.len() == 0
            },
            Phase::RestoreBranch | Phase::VerifyPublishBranch | Phase::ListPublished => {
                &&& self.results.len() == 0
                &&& self.published.len() == 0
            },
            Phase::ReadMetadata => self.results.len() == 0,
        }
        &&& self.branch.len() == 0 <==> self.phase == Phase::Failed(FatalError::UnknownBranch)
        &&& self.alias_set ==> self.phase == Phase::SetDefault || self.phase == Phase::Push
            || self.phase == Phase::Done
        &&& self.phase == Phase::SetDefault || self.phase == Phase::Push ==> self.alias_set
        &&& self.default_set ==> self.alias_set && (self.phase == Phase::Push || self.phase
            == Phase::Done)
        &&& self.pushed ==> self.alias_set && self.phase == Phase::Done
        &&& self.tags.len() == 0 ==> !self.alias_set
        &&& self.mode == Mode::Force ==> {
            &&& self.published.len() == 0
            &&& self.phase != Phase::VerifyPublishBranch
            &&& self.phase != Phase::ListPublished
            &&& self.phase != Phase::ReadMetadata
        }
    }
}

/// A run at its start. Without a branch to return to it has failed already.
pub open spec fn initial(mode: Mode, branch: Seq<char>) -> RunState {
    RunState {
        mode,
        branch,
        phase: if branch.len() == 0 {
            Phase::Failed(FatalError::UnknownBranch)
        } else {
            Phase::FetchTags
        },
        tags: Seq::empty(),
        published: Seq::empty(),
        results: Seq::empty(),
        alias_set: false,
        default_set: false,
        pushed: false,
    }
}

/// What the run asks for in state `s`.
pub open spec fn pending(s: RunState) -> ActionView {
    match s.phase {
        Phase::FetchTags => ActionView::FetchTags,
        Phase::FetchPublishBranch => ActionView::FetchPublishBranch,
        Phase::EnterCanonicalBranch => ActionView::EnterCanonicalBranch,
        Phase::ListTags => ActionView::ListTags,
        Phase::RestoreBranch => ActionView::RestoreBranch(s.branch),
        Phase::VerifyPublishBranch => ActionView::VerifyPublishBranch,
        Phase::ListPublished => ActionView::ListPublished,
        Phase::ReadMetadata => ActionView::ReadMetadata,
        Phase::Deploy => ActionView::Deploy(s.to_deploy()[s.results.len() as int]),
        Phase::PointAlias => ActionView::PointAlias(latest(s.tags)->0),
        Phase::SetDefault => ActionView::SetDefault,
        Phase::Push => ActionView::Push,
        Phase::Done => ActionView::Finish,
        Phase::Failed(error) => ActionView::Abort(error),
    }
}

/// The state that follows `s` when the pending action ended with `reply`.
///
/// Fetching may fail: what is there locally is used. The canonical branch
/// must be entered and the first branch restored, or the run fails. The tags
/// are those that the listing names, in ascending order. In force mode
/// nothing is probed. A publish branch that does not exist has nothing
/// published; a listing or metadata that cannot be had adds nothing. Every
/// tag to deploy is attempted once, whether or not the one before succeeded.
/// With at least one source tag the alias is moved then; if that fails
/// nothing is pushed, else the default is set and the branch is pushed,
/// whether or not setting the default succeeded.
pub open spec fn step(s: RunState, reply: ReplyView) -> RunState {
    match s.phase {
        Phase::FetchTags => RunState { phase: Phase::FetchPublishBranch, ..s },
        Phase::FetchPublishBranch => RunState { phase: Phase::EnterCanonicalBranch, ..s },
        Phase::EnterCanonicalBranch => if reply.success {
            RunState { phase: Phase::ListTags, ..s }
        } else {
            RunState { phase: Phase::Failed(FatalError::NoCanonicalBranch), ..s }
        },
        Phase::ListTags => RunState {
            phase: Phase::RestoreBranch,
            tags: sorted_tags(source_names(reply.output)),
            ..s
        },
        Phase::RestoreBranch => if !reply.success {
            RunState { phase: Phase::Failed(FatalError::BranchNotRestored), ..s }
        } else if s.mode == Mode::Force {
            s.planned(Seq::empty())
        } else {
            RunState { phase: Phase::VerifyPublishBranch, ..s }
        },
        Phase::VerifyPublishBranch => if reply.success {
            RunState { phase: Phase::ListPublished, ..s }
        } else {
            s.planned(Seq::empty())
        },
        Phase::ListPublished => RunState {
            phase: Phase::ReadMetadata,
            published: published_from(reply.heard(), None),
            ..s
        },
        Phase::ReadMetadata => s.planned(
            with_missing(s.published, versions_in_metadata(reply.heard())),
        ),
        Phase::Deploy => {
            let attempted = RunState { results: s.results.push(reply.success), ..s };
            RunState { phase: attempted.after_attempts(), ..attempted }
        },
        Phase::PointAlias => if reply.success {
            RunState { phase: Phase::SetDefault, alias_set: true, ..s }
        } else {
            RunState { phase: Phase::Done, ..s }
        },
        Phase::SetDefault => RunState { phase: Phase::Push, default_set: reply.success, ..s },
        Phase::Push => RunState { phase: Phase::Done, pushed: reply.success, ..s },
        Phase::Done => s,
        Phase::Failed(_) => s,
    }
}

/// The state after the replies `replies`, taken one after the other.
pub open spec fn run(s: RunState, replies: Seq<ReplyView>) -> RunState
    decreases replies.len(),
{
    if replies.len() == 0 {
        s
    } else {
        step(run(s, replies.drop_last()), replies.last())
    }
}

/// Those of the tags that were attempted whose attempt ended as `wanted`.
/// The attempts were made in the order of `tags`, and `results` tells how
/// each one ended.
pub open spec fn attempts_with(tags: Seq<Seq<char>>, results: Seq<bool>, wanted: bool) -> Seq<
    Seq<char>,
>
    decreases results.len(),
{
    if results.len() == 0 {
        Seq::empty()
    } else {
        let before = attempts_with(tags, results.drop_last(), wanted);
        if results.last() == wanted {
            before.push(tags[results.len() - 1])
        } else {
            before
        }
    }
}

/// What a run did with each source tag, and the latest release.
pub struct DeploymentResult {
    /// The tags that were deployed.
    pub deployed: Vec<String>,
    /// The tags whose deployment failed.
    pub failed: Vec<String>,
    /// The tags that were skipped because they are published.
    pub skipped: Vec<String>,
    /// The latest of the source tags, whether or not it was deployed.
    pub latest: Option<String>,
}

/// `DeploymentResult`, with names as character sequences.
pub struct DeploymentResultView {
    pub deployed: Seq<Seq<char>>,
    pub failed: Seq<Seq<char>>,
    pub skipped: Seq<Seq<char>>,
    pub latest: Option<Seq<char>>,
}

impl View for DeploymentResult {
    type V = DeploymentResultView;

    open spec fn view(&self) -> DeploymentResultView {
        DeploymentResultView {
            deployed: self.deployed.deep_view(),
            failed: self.failed.deep_view(),
            skipped: self.skipped.deep_view(),
            latest: match self.latest {
                Some(tag) => Some(tag@),
                None => None,
            },
        }
    }
}

/// What the run in state `s` did with each source tag.
pub open spec fn result_of(s: RunState) -> DeploymentResultView {
    DeploymentResultView {
        deployed: attempts_with(s.to_deploy(), s.results, true),
        failed: attempts_with(s.to_deploy(), s.results, false),
        skipped: s.to_skip(),
        latest: latest(s.tags),
    }
}

/// How moving the alias and pushing went.
#[derive(Clone, Copy, Debug, PartialEq, Eq, Structural)]
pub enum FinalizeOutcome {
    /// There is no source tag, so there was nothing to point the alias to.
    NotRun,
    /// The alias could not be moved. Nothing was pushed.
    AliasFailed,
    /// The alias was moved and a push was attempted.
    Finalized { default_set: bool, pushed: bool },
}

/// How moving the alias and pushing went in the run that ended in state `s`.
pub open spec fn finalized(s: RunState) -> FinalizeOutcome {
    if s.tags.len() == 0 {
        FinalizeOutcome::NotRun
    } else if !s.alias_set {
        FinalizeOutcome::AliasFailed
    } else {
        FinalizeOutcome::Finalized { default_set: s.default_set, pushed: s.pushed }
    }
}

/// A run starts in a state of which `wf` holds.
pub proof fn lemma_initial_wf(mode: Mode, branch: Seq<char>)
    ensures
        initial(mode, branch).wf(),
{
}

/// No reply leads out of the states of which `wf` holds.
pub proof fn lemma_step_keeps_wf(s: RunState, reply: ReplyView)
    requires
        s.wf(),
    ensures
        step(s, reply).wf(),
{
    lemma_sorted_tags(source_names(reply.output));
    if s.tags.len() == 0 {
        lemma_empty_source_empty_plan(s.published, s.mode);
        lemma_empty_source_empty_plan(Seq::empty(), s.mode);
        lemma_empty_source_empty_plan(
            with_missing(s.published, versions_in_metadata(reply.heard())),
            s.mode,
        );
    }
}

/// What a run read is kept: mode and first branch never change, the source
/// tags change only when they are listed, and what was found published does
/// not change once the plan is made.
pub proof fn lemma_step_keeps_what_was_read(s: RunState, reply: ReplyView)
    ensures
        step(s, reply).mode == s.mode,
        step(s, reply).branch == s.branch,
        s.phase != Phase::ListTags ==> step(s, reply).tags == s.tags,
        s.phase == Phase::Deploy || s.phase == Phase::PointAlias || s.phase == Phase::SetDefault
            || s.phase == Phase::Push || s.phase == Phase::Done || s.phase is Failed ==> step(
            s,
            reply,
        ).published == s.published,
{
}

/// Releases are deployed in ascending order.
pub proof fn lemma_deploys_in_ascending_order(s: RunState)
    requires
        s.wf(),
    ensures
        ascending(s.to_deploy()),
        ascending(s.to_skip()),
{
    lemma_plan_keeps_order(s.tags, s.published, s.mode);
}

/// Whatever the replies are, `wf` holds of the state that a run is in.
pub proof fn lemma_run_keeps_wf(s: RunState, replies: Seq<ReplyView>)
    requires
        s.wf(),
    ensures
        run(s, replies).wf(),
    decreases replies.len(),
{
    if replies.len() > 0 {
        lemma_run_keeps_wf(s, replies.drop_last());
        lemma_step_keeps_wf(run(s, replies.drop_last()), replies.last());
    }
}

/// Whatever the replies are, a run that has no source tags asks for nothing
/// that publishes.
pub proof fn lemma_run_without_source_tags(mode: Mode, branch: Seq<char>, replies: Seq<ReplyView>)
    requires
        run(initial(mode, branch), replies).tags.len() == 0,
    ensures
        !(pending(run(initial(mode, branch), replies)) is Deploy),
        !(pending(run(initial(mode, branch), replies)) is PointAlias),
        !(pending(run(initial(mode, branch), replies)) is SetDefault),
        !(pending(run(initial(mode, branch), replies)) is Push),
{
    lemma_run_keeps_wf(initial(mode, branch), replies);
    lemma_no_source_tags_nothing_published(run(initial(mode, branch), replies));
}

/// Without source tags nothing is published: the run never asks to deploy,
/// to move the alias, to set the default or to push.
pub proof fn lemma_no_source_tags_nothing_published(s: RunState)
    requires
        s.wf(),
        s.tags.len() == 0,
    ensures
        !(pending(s) is Deploy),
        !(pending(s) is PointAlias),
        !(pending(s) is SetDefault),
        !(pending(s) is Push),
{
    lemma_empty_source_empty_plan(s.published, s.mode);
}

/// A deployment that fails does not hold up the others: what is asked next
/// is the same whether the deployment succeeded or failed.
pub proof fn lemma_failure_does_not_stop_the_batch(s: RunState, ok: ReplyView, failed: ReplyView)
    requires
        s.phase == Phase::Deploy,
    ensures
        pending(step(s, ok)) == pending(step(s, failed)),
        step(s, ok).results == s.results.push(ok.success),
        step(s, failed).results == s.results.push(failed.success),
{
}

/// From the first deployment on, one reply for each tag to deploy brings the
/// run to the alias, with each reply's outcome recorded, however many of the
/// deployments failed.
pub proof fn lemma_batch_reaches_alias(s: RunState, replies: Seq<ReplyView>)
    requires
        s.wf(),
        s.phase == Phase::Deploy,
        s.results.len() == 0,
        replies.len() == s.to_deploy().len(),
    ensures
        run(s, replies).phase == Phase::PointAlias,
        run(s, replies).results == replies.map_values(|reply: ReplyView| reply.success),
        pending(run(s, replies)) == ActionView::PointAlias(latest(s.tags)->0),
{
    lemma_batch_prefix(s, replies, replies.len() as int);
    assert(replies.take(replies.len() as int) == replies);
    if s.tags.len() == 0 {
        lemma_empty_source_empty_plan(s.published, s.mode);
    }
}

proof fn lemma_batch_prefix(s: RunState, replies: Seq<ReplyView>, k: int)
    requires
        s.wf(),
        s.phase == Phase::Deploy,
        s.results.len() == 0,
        0 <= k <= replies.len() <= s.to_deploy().len(),
    ensures
        run(s, replies.take(k)) == (RunState {
            results: replies.take(k).map_values(|reply: ReplyView| reply.success),
            ..s
        }).planned(s.published),
    decreases k,
{
    let seen = replies.take(k);
    if k == 0 {
        assert(seen.map_values(|reply: ReplyView| reply.success) == s.results);
    } else {
        lemma_batch_prefix(s, replies, k - 1);
        assert(seen.drop_last() == replies.take(k - 1));
        assert(seen.map_values(|reply: ReplyView| reply.success) == replies.take(
            k - 1,
        ).map_values(|reply: ReplyView| reply.success).push(seen.last().success));
    }
}

/// A smart run finds nothing to deploy if it has the source tags of an
/// earlier run and finds published all that the earlier run found published
/// and all that it set out to deploy. It goes on to the alias at once.
pub proof fn lemma_second_run_is_idle(first: RunState, second: RunState)
    requires
        first.mode == Mode::Smart,
        second.mode == Mode::Smart,
        second.tags == first.tags,
        second.results.len() == 0,
        forall|tag: Seq<char>| first.published.contains(tag) ==> second.published.contains(tag),
        forall|tag: Seq<char>| first.to_deploy().contains(tag) ==> second.published.contains(tag),
    ensures
        second.to_deploy() == Seq::<Seq<char>>::empty(),
        second.to_skip() == second.tags,
        second.after_attempts() != Phase::Deploy,
{
    lemma_second_run_deploys_nothing(first.tags, first.published, second.published);
    assert forall|tag: Seq<char>| second.tags.contains(tag) implies second.published.contains(
        tag,
    ) by {
        lemma_plan_membership(first.tags, first.published, Mode::Smart, tag);
    }
    lemma_nothing_left(second.tags, second.published);
}

/// A tag whose deployment failed is deployed by the next run with the same
/// source tags: by a smart run as long as the tag is not found published, and
/// by a forced run in any case.
pub proof fn lemma_failed_tag_is_tried_again(first: RunState, second: RunState, tag: Seq<char>)
    requires
        second.tags == first.tags,
        attempts_with(first.to_deploy(), first.results, false).contains(tag),
        first.results.len() <= first.to_deploy().len(),
        second.mode == Mode::Force || !second.published.contains(tag),
    ensures
        second.to_deploy().contains(tag),
{
    lemma_attempts_membership(first.to_deploy(), first.results, false, tag);
    let i = choose|i: int|
        0 <= i < first.results.len() && #[trigger] first.to_deploy()[i] == tag
            && first.results[i] == false;
    assert(first.to_deploy().contains(tag));
    lemma_plan_membership(first.tags, first.published, first.mode, tag);
    lemma_plan_membership(second.tags, second.published, second.mode, tag);
}

/// A tag is among the attempts that ended as `wanted` exactly if one of the
/// attempts was made on it and ended so.
pub proof fn lemma_attempts_membership(
    tags: Seq<Seq<char>>,
    results: Seq<bool>,
    wanted: bool,
    tag: Seq<char>,
)
    requires
        results.len() <= tags.len(),
    ensures
        attempts_with(tags, results, wanted).contains(tag) <==> exists|i: int|
            0 <= i < results.len() && #[trigger] tags[i] == tag && results[i] == wanted,
    decreases results.len(),
{
    if results.len() > 0 {
        let init = results.drop_last();
        let before = attempts_with(tags, init, wanted);
        let last = results.len() - 1;
        lemma_attempts_membership(tags, init, wanted, tag);
        vstd::seq_lib::lemma_seq_contains_after_push(before, tags[last], tag);
        if before.contains(tag) {
            let i = choose|i: int|
                0 <= i < init.len() && #[trigger] tags[i] == tag && init[i] == wanted;
            assert(results[i] == wanted);
        }
        if exists|i: int|
            0 <= i < results.len() && #[trigger] tags[i] == tag && results[i] == wanted {
            let i = choose|i: int|
                0 <= i < results.len() && #[trigger] tags[i] == tag && results[i] == wanted;
            if i < last {
                assert(init[i] == wanted);
            }
        }
    }
}

/// Every attempt either succeeded or failed.
pub proof fn lemma_attempts_add_up(tags: Seq<Seq<char>>, results: Seq<bool>)
    ensures
        attempts_with(tags, results, true).len() + attempts_with(tags, results, false).len()
            == results.len(),
    decreases results.len(),
{
    if results.len() > 0 {
        lemma_attempts_add_up(tags, results.drop_last());
    }
}

/// The two probes are joined: once both replies are in, a tag counts as
/// published exactly if the listing was had and shows it, or the metadata
/// was had and gives it.
pub proof fn lemma_probes_are_joined(
    s: RunState,
    listing: ReplyView,
    metadata: ReplyView,
    tag: Seq<char>,
)
    requires
        s.phase == Phase::ListPublished,
    ensures
        step(step(s, listing), metadata).published == published_from(
            listing.heard(),
            metadata.heard(),
        ),
        step(step(s, listing), metadata).published.contains(tag) <==> (listing.success
            && listed_tags(listing.output).contains(tag)) || (metadata.success && scraped_versions(
            metadata.output,
        ).contains(tag)),
{
    lemma_published_is_union(listing.heard(), metadata.heard(), tag);
}

/// Where the alias cannot be moved the run ends, and nothing is pushed.
pub proof fn lemma_alias_failure_ends_the_run(s: RunState, reply: ReplyView)
    requires
        s.wf(),
        s.phase == Phase::PointAlias,
        !reply.success,
    ensures
        pending(step(s, reply)) == ActionView::Finish,
        !step(s, reply).pushed,
        finalized(step(s, reply)) == FinalizeOutcome::AliasFailed,
{
}

/// Once the alias is moved the publish branch is pushed, whether or not the
/// alias could be made the default.
pub proof fn lemma_push_follows_alias(s: RunState, moved: ReplyView, default: ReplyView)
    requires
        s.phase == Phase::PointAlias,
        moved.success,
    ensures
        pending(step(s, moved)) == ActionView::SetDefault,
        pending(step(step(s, moved), default)) == ActionView::Push,
{
}

fn no_tags() -> (r: Vec<String>)
    ensures
        r.deep_view() == Seq::<Seq<char>>::empty(),
{
    let r: Vec<String> = Vec::new();
    assert(r.deep_view() == Seq::<Seq<char>>::empty());
    r
}

/// A deployment run.
pub struct Deployer {
    mode: Mode,
    current_branch: String,
    main_tags: Vec<String>,
    deployed_versions: Vec<String>,
    phase: Phase,
    to_deploy: Vec<String>,
    to_skip: Vec<String>,
    results: Vec<bool>,
    alias_set: bool,
    default_set: bool,
    pushed: bool,
}

impl View for Deployer {
    type V = RunState;

    closed spec fn view(&self) -> RunState {
        RunState {
            mode: self.mode,
            branch: self.current_branch@,
            phase: self.phase,
            tags: self.main_tags.deep_view(),
            published: self.deployed_versions.deep_view(),
            results: self.results@,
            alias_set: self.alias_set,
            default_set: self.default_set,
            pushed: self.pushed,
        }
    }
}

impl Deployer {
    /// The plan is made once the probing is over.
    spec fn has_plan(&self) -> bool {
        match self.phase {
            Phase::Deploy | Phase::PointAlias | Phase::SetDefault | Phase::Push
            | Phase::Done => true,
            _ => false,
        }
    }

    #[verifier::type_invariant]
    spec fn inv(&self) -> bool {
        &&& self@.wf()
        &&& self.has_plan() ==> {
            &&& self.to_deploy.deep_view() == self@.to_deploy()
            &&& self.to_skip.deep_view() == self@.to_skip()
        }
    }

    /// A run in the given mode, started on the branch that `branch_output`
    /// names once the white space around it is gone.
    pub fn new(force: bool, branch_output: &str) -> (d: Deployer)
        ensures
            d@ == initial(
                if force {
                    Mode::Force
                } else {
                    Mode::Smart
                },
                trim(branch_output@),
            ),
            d@.wf(),
    {
        let branch: &str = trimmed(branch_output);
        let phase = if branch.unicode_len() == 0 {
            Phase::Failed(FatalError::UnknownBranch)
        } else {
            Phase::FetchTags
        };
        let d = Deployer {
            mode: if force {
                Mode::Force
            } else {
                Mode::Smart
            },
            current_branch: branch.to_owned(),
            main_tags: Vec::new(),
            deployed_versions: Vec::new(),
            phase,
            to_deploy: Vec::new(),
            to_skip: Vec::new(),
            results: Vec::new(),
            alias_set: false,
            default_set: false,
            pushed: false,
        };
        assert(d@.tags == Seq::<Seq<char>>::empty());
        assert(d@.published == Seq::<Seq<char>>::empty());
        d
    }

    /// What the driver is to do next.
    pub fn next_action(&self) -> (action: Action)
        ensures
            action@ == pending(self@),
    {
        proof {
            use_type_invariant(self);
        }
        match self.phase {
            Phase::FetchTags => Action::FetchTags,
            Phase::FetchPublishBranch => Action::FetchPublishBranch,
            Phase::EnterCanonicalBranch => Action::EnterCanonicalBranch,
            Phase::ListTags => Action::ListTags,
            Phase::RestoreBranch => Action::RestoreBranch(self.current_branch.clone()),
            Phase::VerifyPublishBranch => Action::VerifyPublishBranch,
            Phase::ListPublished => Action::ListPublished,
            Phase::ReadMetadata => Action::ReadMetadata,
            Phase::Deploy => Action::Deploy(self.to_deploy[self.results.len()].clone()),
            Phase::PointAlias => {
                proof {
                    lemma_latest_of_ascending(self@.tags);
                }
                Action::PointAlias(self.main_tags[self.main_tags.len() - 1].clone())
            },
            Phase::SetDefault => Action::SetDefault,
            Phase::Push => Action::Push,
            Phase::Done => Action::Finish,
            Phase::Failed(error) => Action::Abort(error),
        }
    }

    /// The run once it is known what is published: the plan is made, and the
    /// first deployment is next, or what follows the deployments where there
    /// is none to make.
    fn begin(self, published: Vec<String>) -> (next: Deployer)
        requires
            !self.has_plan(),
            !(self.phase is Failed),
            self.mode == Mode::Force ==> published.len() == 0,
        ensures
            next@ == self@.planned(published.deep_view()),
            next@.wf(),
    {
        proof {
            use_type_invariant(&self);
        }
        let made = plan(&self.main_tags, &published, self.mode);
        let phase = if made.to_deploy.len() > 0 {
            Phase::Deploy
        } else if self.main_tags.len() == 0 {
            Phase::Done
        } else {
            Phase::PointAlias
        };
        Deployer {
            deployed_versions: published,
            phase,
            to_deploy: made.to_deploy,
            to_skip: made.to_skip,
            ..self
        }
    }

    /// Takes the reply to the pending action and moves on.
    pub fn advance(self, reply: &Reply) -> (next: Deployer)
        ensures
            next@ == step(self@, reply@),
            next@.wf(),
    {
        proof {
            use_type_invariant(&self);
        }
        match self.phase {
            Phase::FetchTags => Deployer { phase: Phase::FetchPublishBranch, ..self },
            Phase::FetchPublishBranch => Deployer { phase: Phase::EnterCanonicalBranch, ..self },
            Phase::EnterCanonicalBranch => if reply.success {
                Deployer { phase: Phase::ListTags, ..self }
            } else {
                Deployer { phase: Phase::Failed(FatalError::NoCanonicalBranch), ..self }
            },
            Phase::ListTags => {
                let tags = source_tags(reply.output.as_str());
                Deployer { phase: Phase::RestoreBranch, main_tags: tags, ..self }
            },
            Phase::RestoreBranch => if !reply.success {
                Deployer { phase: Phase::Failed(FatalError::BranchNotRestored), ..self }
            } else {
                match self.mode {
                    Mode::Force => self.begin(no_tags()),
                    Mode::Smart => Deployer { phase: Phase::VerifyPublishBranch, ..self },
                }
            },
            Phase::VerifyPublishBranch => if reply.success {
                Deployer { phase: Phase::ListPublished, ..self }
            } else {
                self.begin(no_tags())
            },
            Phase::ListPublished => {
                let found = Deployer::get_deployed_versions(reply.heard(), None);
                Deployer { phase: Phase::ReadMetadata, deployed_versions: found, ..self }
            },
            Phase::ReadMetadata => {
                let scraped = Deployer::get_versions_from_json(reply.heard());
                let found = add_missing(self.deployed_versions.clone(), &scraped);
                self.begin(found)
            },
            Phase::Deploy => {
                let mut results = self.results;
                results.push(reply.success);
                let phase = if results.len() < self.to_deploy.len() {
                    Phase::Deploy
                } else if self.main_tags.len() == 0 {
                    Phase::Done
                } else {
                    Phase::PointAlias
                };
                Deployer { phase, results, ..self }
            },
            Phase::PointAlias => if reply.success {
                Deployer { phase: Phase::SetDefault, alias_set: true, ..self }
            } else {
                Deployer { phase: Phase::Done, ..self }
            },
            Phase::SetDefault => Deployer {
                phase: Phase::Push,
                default_set: reply.success,
                ..self
            },
            Phase::Push => Deployer { phase: Phase::Done, pushed: reply.success, ..self },
            Phase::Done => self,
            Phase::Failed(_) => self,
        }
    }

    /// The mode of the run.
    pub fn mode(&self) -> (mode: Mode)
        ensures
            mode == self@.mode,
    {
        self.mode
    }

    /// The branch that the run started on.
    pub fn current_branch(&self) -> (branch: &String)
        ensures
            branch@ == self@.branch,
    {
        &self.current_branch
    }

    /// The source tags, in ascending order. Before they are listed there is
    /// none.
    pub fn main_tags(&self) -> (tags: &Vec<String>)
        ensures
            tags.deep_view() == self@.tags,
            ascending(self@.tags),
    {
        proof {
            use_type_invariant(self);
        }
        &self.main_tags
    }

    /// The tags that were found published so far.
    pub fn deployed_versions(&self) -> (tags: &Vec<String>)
        ensures
            tags.deep_view() == self@.published,
    {
        &self.deployed_versions
    }

    /// The step whose reply is awaited.
    pub fn phase(&self) -> (phase: Phase)
        ensures
            phase == self@.phase,
    {
        self.phase
    }

    /// The status with which the program ends, once the run is over: zero
    /// after a run that went through, however its deployments went, and one
    /// after a run that failed.
    pub fn exit_code(&self) -> (code: Option<u8>)
        ensures
            code == match self@.phase {
                Phase::Done => Some(0u8),
                Phase::Failed(_) => Some(1u8),
                _ => None,
            },
    {
        match self.phase {
            Phase::Done => Some(0),
            Phase::Failed(_) => Some(1),
            _ => None,
        }
    }

    /// What the run did with each source tag, once it is done.
    pub fn result(&self) -> (r: Option<DeploymentResult>)
        ensures
            match r {
                Some(result) => self@.phase == Phase::Done && result@ == result_of(self@),
                None => self@.phase != Phase::Done,
            },
    {
        proof {
            use_type_invariant(self);
        }
        match self.phase {
            Phase::Done => {},
            _ => { return None; },
        }
        let n: usize = self.results.len();
        let ghost tags = self.to_deploy.deep_view();
        let mut deployed: Vec<String> = Vec::new();
        let mut failed: Vec<String> = Vec::new();
        let mut i: usize = 0;
        assert(self.results@.take(0) == Seq::<bool>::empty());
        while i < n
            invariant
                i <= n,
                n == self.results.len(),
                n == self.to_deploy.len(),
                tags == self.to_deploy.deep_view(),
                deployed.deep_view() == attempts_with(tags, self.results@.take(i as int), true),
                failed.deep_view() == attempts_with(tags, self.results@.take(i as int), false),
            decreases n - i,
        {
            assert(self.results@.take(i as int + 1).drop_last() == self.results@.take(i as int));
            let tag = self.to_deploy[i].clone();
            if self.results[i] {
                let ghost before = deployed.deep_view();
                deployed.push(tag);
                assert(deployed.deep_view() == before.push(tags[i as int]));
            } else {
                let ghost before = failed.deep_view();
                failed.push(tag);
                assert(failed.deep_view() == before.push(tags[i as int]));
            }
            i += 1;
        }
        assert(self.results@.take(n as int) == self.results@);
        let skipped = self.to_skip.clone();
        let latest = latest_tag(&self.main_tags);
        Some(DeploymentResult { deployed, failed, skipped, latest })
    }

    /// How moving the alias and pushing went, once the run is done.
    pub fn finalize_outcome(&self) -> (r: Option<FinalizeOutcome>)
        ensures
            r == if self@.phase == Phase::Done {
                Some(finalized(self@))
            } else {
                None
            },
    {
        match self.phase {
            Phase::Done => {},
            _ => { return None; },
        }
        if self.main_tags.len() == 0 {
            Some(FinalizeOutcome::NotRun)
        } else if !self.alias_set {
            Some(FinalizeOutcome::AliasFailed)
        } else {
            Some(FinalizeOutcome::Finalized { default_set: self.default_set, pushed: self.pushed })
        }
    }
}

} // verus!
