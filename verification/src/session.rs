//! The submit command as a state machine. Each call of `Submit::step` takes
//! the outcome of the previous operation (an `Event`) and decides the next
//! operation to perform (an `Op`), with the notices to print before it; the
//! caller performs the operations: pushing branches, reading commit
//! messages, talking to GitHub, saving the stack.
use vstd::prelude::*;

use crate::comment::{
    PrComment, comment_defined, find_stack_comment, generate_stack_comment, is_stack_comment,
    stack_comment, stack_comment_defined,
};
use crate::report::{
    BranchSubmitInfo, InfoView, Notice, NoticeKind, NoticeView, OutputView, SubmitAction,
    SubmitOutput, copy_infos, dry_run_notices, info, infos_view, notices_view,
    print_dry_run_summary, print_summary, success, summary_notice,
};
use crate::stack::{Stack, StackBranch, opt_chars, parent_of};
use crate::text::{decimal, decimal_chars, string_of};
use crate::title::{get_pr_title_and_body, title_and_body};

verus! {

// ------------------------------------------------------------------ types

/// Options of the submit command.
pub struct SubmitConfig {
    /// Output as JSON.
    pub json: bool,
    /// Don't update or create pull requests, only show what would be done.
    pub dry_run: bool,
    /// Create pull requests as drafts.
    pub draft: bool,
    /// Force-push branches.
    pub force: bool,
    /// Title for the pull request of the current branch.
    pub custom_title: Option<String>,
    /// The checked-out branch, once known.
    pub current_branch: Option<String>,
}

/// A pull request as GitHub reports it.
pub struct PullRequest {
    pub number: u64,
    pub url: String,
}

/// A request to create a pull request.
pub struct PrRequest {
    pub title: String,
    pub body: String,
    pub head: String,
    pub base: String,
    pub draft: bool,
}

/// The next thing the caller has to do.
pub enum Op {
    /// Find the checked-out branch and the owner and name of the GitHub
    /// repository of the `origin` remote.
    ResolveRemote,
    /// Authenticate with GitHub.
    Connect,
    /// Push a branch.
    Push { branch: String, force: bool },
    /// Read the tip commit message of a branch.
    ReadCommitMessage { branch: String },
    /// Set the base branch of a pull request (title and description stay).
    UpdatePrBase { number: u64, base: String },
    /// Look for an open pull request of a branch.
    FindPr { branch: String },
    /// Create a pull request.
    CreatePr { request: PrRequest },
    /// Save the stack (with the pull request numbers now known).
    SaveStack,
    /// List the comments of a pull request.
    ListComments { number: u64 },
    /// Replace the text of a comment.
    UpdateComment { id: u64, body: String },
    /// Add a comment to a pull request.
    CreateComment { number: u64, body: String },
    /// Ask GitHub for the default branch of the repository.
    GetDefaultBranch,
    /// Print the JSON output; the run has succeeded.
    Output { output: SubmitOutput },
    /// The run has succeeded.
    Finish,
    /// The run has failed with this message.
    Fail { message: String },
}

/// What a call of `step` returns: notices to print, then an operation.
pub struct Step {
    pub notices: Vec<Notice>,
    pub op: Op,
}

/// The outcome of the last operation.
pub enum Event {
    /// Start the run.
    Begin,
    /// The checked-out branch (if it could be found) and the repository.
    Remote { current_branch: Option<String>, owner: String, repo: String },
    /// The operation succeeded.
    Done,
    /// The commit message, or `None` when it could not be read.
    CommitMessage { text: Option<String> },
    /// The open pull request of the branch, if there is one.
    Found { existing: Option<PullRequest> },
    /// The pull request that was created.
    Created { pr: PullRequest },
    /// The comments of the pull request.
    Comments { comments: Vec<PrComment> },
    /// The default branch of the repository.
    DefaultBranch { name: String },
    /// The operation failed, with this message.
    Failed { message: String },
}

enum Phase {
    Start,
    AwaitRemote,
    AwaitConnect,
    AwaitPush,
    AwaitMessage,
    AwaitUpdateExisting { number: u64 },
    AwaitFind { title: String, body: String, base: String },
    AwaitUpdateFound { number: u64, url: String },
    AwaitCreate,
    AwaitSave,
    AwaitComments { at: usize, number: u64 },
    AwaitCommentWrite { at: usize, number: u64, updating: bool },
    AwaitDefault,
    Finished,
}

struct Core {
    config: SubmitConfig,
    owner: String,
    repo_name: String,
    stack: Stack,
    index: usize,
    created: usize,
    updated: usize,
    infos: Vec<BranchSubmitInfo>,
    phase: Phase,
}

/// A run of the submit command.
pub struct Submit {
    core: Core,
}

// ------------------------------------------------------------------ views

pub struct ConfigView {
    pub json: bool,
    pub dry_run: bool,
    pub draft: bool,
    pub force: bool,
    pub custom_title: Option<Seq<char>>,
    pub current_branch: Option<Seq<char>>,
}

impl View for SubmitConfig {
    type V = ConfigView;

    open spec fn view(&self) -> ConfigView {
        ConfigView {
            json: self.json,
            dry_run: self.dry_run,
            draft: self.draft,
            force: self.force,
            custom_title: opt_chars(self.custom_title),
            current_branch: opt_chars(self.current_branch),
        }
    }
}

pub struct PrView {
    pub number: u64,
    pub url: Seq<char>,
}

impl View for PullRequest {
    type V = PrView;

    open spec fn view(&self) -> PrView {
        PrView { number: self.number, url: self.url@ }
    }
}

pub struct RequestView {
    pub title: Seq<char>,
    pub body: Seq<char>,
    pub head: Seq<char>,
    pub base: Seq<char>,
    pub draft: bool,
}

impl View for PrRequest {
    type V = RequestView;

    open spec fn view(&self) -> RequestView {
        RequestView {
            title: self.title@,
            body: self.body@,
            head: self.head@,
            base: self.base@,
            draft: self.draft,
        }
    }
}

pub enum OpView {
    ResolveRemote,
    Connect,
    Push { branch: Seq<char>, force: bool },
    ReadCommitMessage { branch: Seq<char> },
    UpdatePrBase { number: u64, base: Seq<char> },
    FindPr { branch: Seq<char> },
    CreatePr { request: RequestView },
    SaveStack,
    ListComments { number: u64 },
    UpdateComment { id: u64, body: Seq<char> },
    CreateComment { number: u64, body: Seq<char> },
    GetDefaultBranch,
    Output { output: OutputView },
    Finish,
    Fail { message: Seq<char> },
}

impl View for Op {
    type V = OpView;

    open spec fn view(&self) -> OpView {
        match self {
            Op::ResolveRemote => OpView::ResolveRemote,
            Op::Connect => OpView::Connect,
            Op::Push { branch, force } => OpView::Push { branch: branch@, force: *force },
            Op::ReadCommitMessage { branch } => OpView::ReadCommitMessage { branch: branch@ },
            Op::UpdatePrBase { number, base } => OpView::UpdatePrBase {
                number: *number,
                base: base@,
            },
            Op::FindPr { branch } => OpView::FindPr { branch: branch@ },
            Op::CreatePr { request } => OpView::CreatePr { request: request@ },
            Op::SaveStack => OpView::SaveStack,
            Op::ListComments { number } => OpView::ListComments { number: *number },
            Op::UpdateComment { id, body } => OpView::UpdateComment { id: *id, body: body@ },
            Op::CreateComment { number, body } => OpView::CreateComment {
                number: *number,
                body: body@,
            },
            Op::GetDefaultBranch => OpView::GetDefaultBranch,
            Op::Output { output } => OpView::Output { output: output@ },
            Op::Finish => OpView::Finish,
            Op::Fail { message } => OpView::Fail { message: message@ },
        }
    }
}

pub struct StepView {
    pub notices: Seq<NoticeView>,
    pub op: OpView,
}

impl View for Step {
    type V = StepView;

    open spec fn view(&self) -> StepView {
        StepView { notices: notices_view(self.notices@), op: self.op@ }
    }
}

pub enum EventView {
    Begin,
    Remote { current_branch: Option<Seq<char>>, owner: Seq<char>, repo: Seq<char> },
    Done,
    CommitMessage { text: Option<Seq<char>> },
    Found { existing: Option<PrView> },
    Created { pr: PrView },
    Comments { comments: Seq<PrComment> },
    DefaultBranch { name: Seq<char> },
    Failed { message: Seq<char> },
}

impl View for Event {
    type V = EventView;

    open spec fn view(&self) -> EventView {
        match self {
            Event::Begin => EventView::Begin,
            Event::Remote { current_branch, owner, repo } => EventView::Remote {
                current_branch: opt_chars(*current_branch),
                owner: owner@,
                repo: repo@,
            },
            Event::Done => EventView::Done,
            Event::CommitMessage { text } => EventView::CommitMessage {
                text: opt_chars(*text),
            },
            Event::Found { existing } => EventView::Found {
                existing: match existing {
                    Some(p) => Some(p@),
                    None => None,
                },
            },
            Event::Created { pr } => EventView::Created { pr: pr@ },
            Event::Comments { comments } => EventView::Comments { comments: comments@ },
            Event::DefaultBranch { name } => EventView::DefaultBranch { name: name@ },
            Event::Failed { message } => EventView::Failed { message: message@ },
        }
    }
}

pub enum PhaseView {
    Start,
    AwaitRemote,
    AwaitConnect,
    AwaitPush,
    AwaitMessage,
    AwaitUpdateExisting { number: u64 },
    AwaitFind { title: Seq<char>, body: Seq<char>, base: Seq<char> },
    AwaitUpdateFound { number: u64, url: Seq<char> },
    AwaitCreate,
    AwaitSave,
    AwaitComments { at: nat, number: u64 },
    AwaitCommentWrite { at: nat, number: u64, updating: bool },
    AwaitDefault,
    Finished,
}

impl View for Phase {
    type V = PhaseView;

    closed spec fn view(&self) -> PhaseView {
        match self {
            Phase::Start => PhaseView::Start,
            Phase::AwaitRemote => PhaseView::AwaitRemote,
            Phase::AwaitConnect => PhaseView::AwaitConnect,
            Phase::AwaitPush => PhaseView::AwaitPush,
            Phase::AwaitMessage => PhaseView::AwaitMessage,
            Phase::AwaitUpdateExisting { number } => PhaseView::AwaitUpdateExisting {
                number: *number,
            },
            Phase::AwaitFind { title, body, base } => PhaseView::AwaitFind {
                title: title@,
                body: body@,
                base: base@,
            },
            Phase::AwaitUpdateFound { number, url } => PhaseView::AwaitUpdateFound {
                number: *number,
                url: url@,
            },
            Phase::AwaitCreate => PhaseView::AwaitCreate,
            Phase::AwaitSave => PhaseView::AwaitSave,
            Phase::AwaitComments { at, number } => PhaseView::AwaitComments {
                at: *at as nat,
                number: *number,
            },
            Phase::AwaitCommentWrite { at, number, updating } => PhaseView::AwaitCommentWrite {
                at: *at as nat,
                number: *number,
                updating: *updating,
            },
            Phase::AwaitDefault => PhaseView::AwaitDefault,
            Phase::Finished => PhaseView::Finished,
        }
    }
}

/// The state of a run.
pub struct SessionView {
    pub config: ConfigView,
    pub owner: Seq<char>,
    pub repo: Seq<char>,
    pub branches: Seq<StackBranch>,
    pub index: nat,
    pub created: nat,
    pub updated: nat,
    pub infos: Seq<InfoView>,
    pub phase: PhaseView,
}

impl View for Core {
    type V = SessionView;

    closed spec fn view(&self) -> SessionView {
        SessionView {
            config: self.config@,
            owner: self.owner@,
            repo: self.repo_name@,
            branches: self.stack.branches@,
            index: self.index as nat,
            created: self.created as nat,
            updated: self.updated as nat,
            infos: infos_view(self.infos@),
            phase: self.phase@,
        }
    }
}

impl View for Submit {
    type V = SessionView;

    closed spec fn view(&self) -> SessionView {
        self.core@
    }
}

// ------------------------------------------------------------------ spec

/// The state is consistent: the branches before `index` have been
/// processed, each with one record and counted once, and the phase refers
/// to a branch that exists.
pub open spec fn wf(s: SessionView) -> bool {
    &&& counts_ok(s)
    &&& (match s.phase {
        PhaseView::AwaitUpdateExisting { .. } | PhaseView::AwaitUpdateFound { .. }
        | PhaseView::AwaitCreate | PhaseView::AwaitSave | PhaseView::AwaitComments { .. }
        | PhaseView::AwaitCommentWrite { .. } => !s.config.dry_run,
        PhaseView::AwaitDefault => s.config.dry_run && !s.config.json,
        _ => true,
    })
    &&& (s.phase matches PhaseView::AwaitFind { base, .. } ==> s.index < s.branches.len() && base
        == base_of(cur(s)))
    &&& (match s.phase {
        PhaseView::AwaitFind { .. } | PhaseView::AwaitUpdateFound { .. }
        | PhaseView::AwaitCreate => s.index < s.branches.len() && cur(s).pr is None,
        _ => true,
    })
    &&& (match s.phase {
        PhaseView::AwaitPush | PhaseView::AwaitMessage | PhaseView::AwaitUpdateExisting { .. }
        | PhaseView::AwaitFind { .. } | PhaseView::AwaitUpdateFound { .. }
        | PhaseView::AwaitCreate => s.index < s.branches.len(),
        PhaseView::AwaitComments { at, number } => at < s.branches.len() && s.branches[at as int].pr
            == Some(number),
        PhaseView::AwaitCommentWrite { at, .. } => at < s.branches.len(),
        _ => true,
    })
}

/// The branches before `index` have been processed, each with one record
/// and counted once.
pub open spec fn counts_ok(s: SessionView) -> bool {
    &&& s.index <= s.branches.len()
    &&& s.infos.len() == s.index
    &&& s.created + s.updated == s.index
    &&& s.created == count_action(s.infos, SubmitAction::Created)
    &&& s.updated == count_action(s.infos, SubmitAction::Updated)
}

/// The number of records with action `a`.
pub open spec fn count_action(infos: Seq<InfoView>, a: SubmitAction) -> nat
    decreases infos.len(),
{
    if infos.len() == 0 {
        0
    } else {
        count_action(infos.drop_last(), a) + if infos.last().action == a {
            1nat
        } else {
            0nat
        }
    }
}

/// The state of a new run.
pub open spec fn initial(config: ConfigView, branches: Seq<StackBranch>) -> SessionView {
    SessionView {
        config,
        owner: Seq::empty(),
        repo: Seq::empty(),
        branches,
        index: 0,
        created: 0,
        updated: 0,
        infos: Seq::empty(),
        phase: PhaseView::Start,
    }
}

/// The events that the state waits for. An event that can bring the stack
/// comment of a pull request is only accepted when that comment is defined.
pub open spec fn accepts(s: SessionView, e: EventView) -> bool {
    match s.phase {
        PhaseView::Start => e is Begin,
        PhaseView::AwaitRemote => e is Remote || e is Failed,
        PhaseView::AwaitMessage => e is CommitMessage,
        PhaseView::AwaitFind { .. } => e is Found || e is Failed,
        PhaseView::AwaitCreate => e is Created || e is Failed,
        PhaseView::AwaitComments { number, .. } => (e is Comments && comment_defined(
            s.branches,
            number,
        )) || e is Failed,
        PhaseView::AwaitDefault => e is DefaultBranch || e is Failed,
        PhaseView::Finished => false,
        _ => e is Done || e is Failed,
    }
}

/// Progress is printed when the output is neither JSON nor a dry run.
pub open spec fn verbose(s: SessionView) -> bool {
    !s.config.json && !s.config.dry_run
}

/// Notices printed unless the output is JSON.
pub open spec fn unless_json(s: SessionView, n: NoticeView) -> Seq<NoticeView> {
    if s.config.json {
        Seq::empty()
    } else {
        seq![n]
    }
}

pub open spec fn with_phase(s: SessionView, p: PhaseView) -> SessionView {
    SessionView { phase: p, ..s }
}

pub open spec fn step_view(notices: Seq<NoticeView>, op: OpView) -> StepView {
    StepView { notices, op }
}

/// `notices` printed before what `r` prints.
pub open spec fn after(notices: Seq<NoticeView>, r: (SessionView, StepView)) -> (
    SessionView,
    StepView,
) {
    (r.0, step_view(notices + r.1.notices, r.1.op))
}

/// The run ends with the failure `message`.
pub open spec fn fail(s: SessionView, message: Seq<char>) -> (SessionView, StepView) {
    (with_phase(s, PhaseView::Finished), step_view(Seq::empty(), OpView::Fail { message }))
}

/// The branch being processed.
pub open spec fn cur(s: SessionView) -> StackBranch {
    s.branches[s.index as int]
}

/// The web address of pull request `n`.
pub open spec fn pr_url(s: SessionView, n: u64) -> Seq<char> {
    "https://github.com/"@ + s.owner + "/"@ + s.repo + "/pull/"@ + decimal(n as nat)
}

/// The base of a branch's pull request: its parent, else `main`.
pub open spec fn base_of(b: StackBranch) -> Seq<char> {
    match parent_of(b) {
        Some(p) => p,
        None => "main"@,
    }
}

/// The title of the current branch's pull request: the custom title when
/// the branch is the checked-out one and a custom title is given.
pub open spec fn chosen_title(s: SessionView, name: Seq<char>, derived: Seq<char>) -> Seq<char> {
    if s.config.current_branch == Some(name) && s.config.custom_title is Some {
        s.config.custom_title->0
    } else {
        derived
    }
}

/// The branch had a pull request already: it is recorded as updated.
pub open spec fn record_existing(s: SessionView, n: u64) -> SessionView {
    SessionView {
        index: s.index + 1,
        updated: s.updated + 1,
        infos: s.infos.push(
            InfoView {
                branch: cur(s).name@,
                pr_number: Some(n),
                pr_url: Some(pr_url(s, n)),
                action: SubmitAction::Updated,
            },
        ),
        ..s
    }
}

/// The pull request `number` was found or created for the branch: the
/// stack records it and the branch is counted as created or updated.
pub open spec fn record(s: SessionView, number: Option<u64>, was_created: bool, url: Option<Seq<char>>) -> SessionView {
    let b = cur(s);
    SessionView {
        branches: s.branches.update(
            s.index as int,
            StackBranch { name: b.name, parent: b.parent, pr: number },
        ),
        index: s.index + 1,
        created: if was_created {
            s.created + 1
        } else {
            s.created
        },
        updated: if was_created {
            s.updated
        } else {
            s.updated + 1
        },
        infos: s.infos.push(
            InfoView {
                branch: b.name@,
                pr_number: number,
                pr_url: url,
                action: if was_created {
                    SubmitAction::Created
                } else {
                    SubmitAction::Updated
                },
            },
        ),
        ..s
    }
}

/// The position of the first branch from `j` on that has a pull request.
pub open spec fn next_with_pr(bs: Seq<StackBranch>, j: nat) -> Option<nat>
    decreases bs.len() - j,
{
    if j >= bs.len() {
        None
    } else if bs[j as int].pr is Some {
        Some(j)
    } else {
        next_with_pr(bs, j + 1)
    }
}

/// Notices with the web addresses of the pull requests, in order.
pub open spec fn url_notices(infos: Seq<InfoView>) -> Seq<NoticeView>
    decreases infos.len(),
{
    if infos.len() == 0 {
        Seq::empty()
    } else {
        let r = url_notices(infos.drop_last());
        match infos.last().pr_url {
            Some(u) => r.push(NoticeView { kind: NoticeKind::Essential, text: u }),
            None => r,
        }
    }
}

/// The end of a run: the JSON output; or, for a dry run, the question for
/// the default branch; or the summary and the addresses of the pull
/// requests.
pub open spec fn finish(s: SessionView) -> (SessionView, StepView) {
    if s.config.json {
        (
            with_phase(s, PhaseView::Finished),
            step_view(
                Seq::empty(),
                OpView::Output {
                    output: OutputView {
                        prs_created: s.created,
                        prs_updated: s.updated,
                        branches: s.infos,
                        dry_run: s.config.dry_run,
                    },
                },
            ),
        )
    } else if s.config.dry_run {
        (with_phase(s, PhaseView::AwaitDefault), step_view(Seq::empty(), OpView::GetDefaultBranch))
    } else {
        (
            with_phase(s, PhaseView::Finished),
            step_view(
                seq![summary_notice(s.created, s.updated)] + url_notices(s.infos),
                OpView::Finish,
            ),
        )
    }
}

/// Stack comments from branch `j` on: the comments of the next branch with
/// a pull request are listed, or, when there is none, the run finishes.
pub open spec fn comments_from(s: SessionView, j: nat) -> (SessionView, StepView) {
    match next_with_pr(s.branches, j) {
        Some(k) => {
            let n = s.branches[k as int].pr->0;
            (
                with_phase(s, PhaseView::AwaitComments { at: k, number: n }),
                step_view(Seq::empty(), OpView::ListComments { number: n }),
            )
        },
        None => finish(s),
    }
}

/// All branches are processed: the stack is saved, unless this is a dry
/// run.
pub open spec fn after_branches(s: SessionView) -> (SessionView, StepView) {
    if !s.config.dry_run {
        (with_phase(s, PhaseView::AwaitSave), step_view(Seq::empty(), OpView::SaveStack))
    } else {
        finish(s)
    }
}

/// The branch at `index` is pushed (in a dry run, which changes nothing,
/// its commit message is read at once), or, when all are processed, the run
/// goes on.
pub open spec fn next_branch(s: SessionView) -> (SessionView, StepView) {
    if s.index < s.branches.len() && s.config.dry_run {
        (
            with_phase(s, PhaseView::AwaitMessage),
            step_view(Seq::empty(), OpView::ReadCommitMessage { branch: cur(s).name@ }),
        )
    } else if s.index < s.branches.len() {
        let name = cur(s).name@;
        (
            with_phase(s, PhaseView::AwaitPush),
            step_view(
                if verbose(s) {
                    seq![
                        info("Processing "@ + name + "..."@),
                        info("  Pushing "@ + name + "..."@),
                    ]
                } else {
                    Seq::empty()
                },
                OpView::Push { branch: name, force: s.config.force },
            ),
        )
    } else {
        after_branches(s)
    }
}

/// Title and description are known: the pull request the branch has is
/// updated, or one is looked for.
pub open spec fn with_message(s: SessionView, message: Option<Seq<char>>) -> (SessionView, StepView) {
    let b = cur(s);
    let name = b.name@;
    let tb = title_and_body(message, name);
    let title = chosen_title(s, name, tb.0);
    let base = base_of(b);
    match b.pr {
        Some(n) => if !s.config.dry_run {
            (
                with_phase(s, PhaseView::AwaitUpdateExisting { number: n }),
                step_view(
                    unless_json(s, info("  Updating PR #"@ + decimal(n as nat) + "..."@)),
                    OpView::UpdatePrBase { number: n, base },
                ),
            )
        } else {
            next_branch(record_existing(s, n))
        },
        None => (
            with_phase(s, PhaseView::AwaitFind { title, body: tb.1, base }),
            step_view(Seq::empty(), OpView::FindPr { branch: name }),
        ),
    }
}

/// The branch's open pull request was looked for: the one found is updated,
/// or a new one is created.
pub open spec fn found(
    s: SessionView,
    pr: Option<PrView>,
    title: Seq<char>,
    body: Seq<char>,
    base: Seq<char>,
) -> (SessionView, StepView) {
    let name = cur(s).name@;
    match pr {
        Some(p) => if s.config.dry_run {
            next_branch(record(s, Some(p.number), false, Some(p.url)))
        } else {
            (
                with_phase(s, PhaseView::AwaitUpdateFound { number: p.number, url: p.url }),
                step_view(
                    unless_json(s, info("  Found existing PR #"@ + decimal(p.number as nat) + "..."@)),
                    OpView::UpdatePrBase { number: p.number, base },
                ),
            )
        },
        None => if !s.config.dry_run {
            (
                with_phase(s, PhaseView::AwaitCreate),
                step_view(
                    unless_json(s, info("  Creating PR ("@ + name + " → "@ + base + ")..."@)),
                    OpView::CreatePr {
                        request: RequestView {
                            title,
                            body,
                            head: name,
                            base,
                            draft: s.config.draft,
                        },
                    },
                ),
            )
        } else {
            next_branch(record(s, None, true, None))
        },
    }
}

/// The position of the first stack comment among `cs`.
pub open spec fn first_stack_comment(cs: Seq<PrComment>) -> Option<int> {
    if exists|k: int| 0 <= k < cs.len() && is_stack_comment(cs[k]) {
        Some(
            choose|k: int|
                0 <= k < cs.len() && is_stack_comment(cs[k]) && forall|j: int|
                    0 <= j < k ==> !is_stack_comment(#[trigger] cs[j]),
        )
    } else {
        None
    }
}

/// What the run does next when `e` arrives in state `s`.
pub open spec fn next(s: SessionView, e: EventView) -> (SessionView, StepView) {
    match s.phase {
        PhaseView::Start => if s.branches.len() == 0 {
            if s.config.json {
                (
                    with_phase(s, PhaseView::Finished),
                    step_view(
                        Seq::empty(),
                        OpView::Output {
                            output: OutputView {
                                prs_created: 0,
                                prs_updated: 0,
                                branches: Seq::empty(),
                                dry_run: s.config.dry_run,
                            },
                        },
                    ),
                )
            } else {
                (
                    with_phase(s, PhaseView::Finished),
                    step_view(
                        seq![info("No branches in stack - nothing to submit"@)],
                        OpView::Finish,
                    ),
                )
            }
        } else {
            (with_phase(s, PhaseView::AwaitRemote), step_view(Seq::empty(), OpView::ResolveRemote))
        },
        PhaseView::AwaitRemote => match e {
            EventView::Remote { current_branch, owner, repo } => {
                let s2 = SessionView {
                    config: ConfigView { current_branch, ..s.config },
                    owner,
                    repo,
                    phase: PhaseView::AwaitConnect,
                    ..s
                };
                (
                    s2,
                    step_view(
                        if verbose(s) {
                            seq![info("Submitting to "@ + owner + "/"@ + repo + "..."@)]
                        } else {
                            Seq::empty()
                        },
                        OpView::Connect,
                    ),
                )
            },
            EventView::Failed { message } => fail(s, message),
            _ => (s, step_view(Seq::empty(), OpView::Finish)),
        },
        PhaseView::AwaitConnect => match e {
            EventView::Failed { message } => fail(s, message),
            _ => next_branch(s),
        },
        PhaseView::AwaitPush => match e {
            EventView::Failed { .. } => fail(s, "Failed to push "@ + cur(s).name@),
            _ => (
                with_phase(s, PhaseView::AwaitMessage),
                step_view(Seq::empty(), OpView::ReadCommitMessage { branch: cur(s).name@ }),
            ),
        },
        PhaseView::AwaitMessage => match e {
            EventView::CommitMessage { text } => with_message(s, text),
            _ => (s, step_view(Seq::empty(), OpView::Finish)),
        },
        PhaseView::AwaitUpdateExisting { number } => match e {
            EventView::Failed { .. } => fail(
                s,
                "Failed to update PR #"@ + decimal(number as nat),
            ),
            _ => next_branch(record_existing(s, number)),
        },
        PhaseView::AwaitFind { title, body, base } => match e {
            EventView::Found { existing } => found(s, existing, title, body, base),
            EventView::Failed { .. } => fail(s, "Failed to check for existing PR"@),
            _ => (s, step_view(Seq::empty(), OpView::Finish)),
        },
        PhaseView::AwaitUpdateFound { number, url } => match e {
            EventView::Failed { .. } => fail(
                s,
                "Failed to update PR #"@ + decimal(number as nat),
            ),
            _ => next_branch(record(s, Some(number), false, Some(url))),
        },
        PhaseView::AwaitCreate => match e {
            EventView::Created { pr } => after(
                unless_json(
                    s,
                    success("  Created PR #"@ + decimal(pr.number as nat) + ": "@ + pr.url),
                ),
                next_branch(record(s, Some(pr.number), true, Some(pr.url))),
            ),
            EventView::Failed { .. } => fail(s, "Failed to create PR for "@ + cur(s).name@),
            _ => (s, step_view(Seq::empty(), OpView::Finish)),
        },
        PhaseView::AwaitSave => match e {
            EventView::Failed { message } => fail(s, message),
            _ => after(unless_json(s, info("Updating stack comments..."@)), comments_from(s, 0)),
        },
        PhaseView::AwaitComments { at, number } => match e {
            EventView::Comments { comments } => {
                let body = stack_comment(s.branches, number);
                match first_stack_comment(comments) {
                    Some(k) => (
                        with_phase(
                            s,
                            PhaseView::AwaitCommentWrite { at, number, updating: true },
                        ),
                        step_view(
                            Seq::empty(),
                            OpView::UpdateComment { id: comments[k].id, body },
                        ),
                    ),
                    None => (
                        with_phase(
                            s,
                            PhaseView::AwaitCommentWrite { at, number, updating: false },
                        ),
                        step_view(Seq::empty(), OpView::CreateComment { number, body }),
                    ),
                }
            },
            EventView::Failed { .. } => fail(
                s,
                "Failed to list comments on PR #"@ + decimal(number as nat),
            ),
            _ => (s, step_view(Seq::empty(), OpView::Finish)),
        },
        PhaseView::AwaitCommentWrite { at, number, updating } => match e {
            EventView::Failed { .. } => fail(
                s,
                (if updating {
                    "Failed to update comment on PR #"@
                } else {
                    "Failed to create comment on PR #"@
                }) + decimal(number as nat),
            ),
            _ => comments_from(s, at + 1),
        },
        PhaseView::AwaitDefault => match e {
            EventView::DefaultBranch { name } => (
                with_phase(s, PhaseView::Finished),
                step_view(
                    dry_run_notices(s.created, s.updated, name, s.infos, s.branches),
                    OpView::Finish,
                ),
            ),
            EventView::Failed { .. } => fail(s, "Failed to get default branch"@),
            _ => (s, step_view(Seq::empty(), OpView::Finish)),
        },
        PhaseView::Finished => (s, step_view(Seq::empty(), OpView::Finish)),
    }
}

// ------------------------------------------------------------------ exec

fn dec(n: u64) -> (r: String)
    ensures
        r@ == decimal(n as nat),
{
    string_of(&decimal_chars(n))
}

fn info_notice(text: String) -> (n: Notice)
    ensures
        n@ == info(text@),
{
    Notice { kind: NoticeKind::Info, text }
}

fn no_notices() -> (r: Vec<Notice>)
    ensures
        notices_view(r@) == Seq::<NoticeView>::empty(),
{
    let r: Vec<Notice> = Vec::new();
    assert(notices_view(r@) =~= Seq::<NoticeView>::empty());
    r
}

fn one_notice(n: Notice) -> (r: Vec<Notice>)
    ensures
        notices_view(r@) == seq![n@],
{
    let mut r: Vec<Notice> = Vec::new();
    r.push(n);
    assert(notices_view(r@) =~= seq![n@]);
    r
}

fn push_notice(v: &mut Vec<Notice>, n: Notice)
    ensures
        notices_view(final(v)@) == notices_view(old(v)@).push(n@),
{
    v.push(n);
    assert(notices_view(v@) =~= notices_view(old(v)@).push(n@));
}

fn unless_json_exec(json: bool, n: Notice) -> (r: Vec<Notice>)
    ensures
        notices_view(r@) == if json {
            Seq::<NoticeView>::empty()
        } else {
            seq![n@]
        },
{
    if json {
        no_notices()
    } else {
        one_notice(n)
    }
}

/// `notices` printed before what `step` prints.
fn prepend(notices: Vec<Notice>, step: Step) -> (r: Step)
    ensures
        r@ == step_view(notices_view(notices@) + step@.notices, step@.op),
{
    let mut all = notices;
    let mut rest = step.notices;
    let ghost a = notices_view(all@);
    let ghost b = notices_view(rest@);
    all.append(&mut rest);
    assert(notices_view(all@) =~= a + b);
    Step { notices: all, op: step.op }
}

impl Core {
    fn fail(self, message: String) -> (r: (Core, Step))
        requires
            counts_ok(self@),
        ensures
            (r.0@, r.1@) == fail(self@, message@),
            wf(r.0@),
    {
        let mut c = self;
        c.phase = Phase::Finished;
        (c, Step { notices: no_notices(), op: Op::Fail { message } })
    }

    fn pr_url(&self, n: u64) -> (r: String)
        ensures
            r@ == pr_url(self@, n),
    {
        let mut u = String::from_str("https://github.com/");
        u.append(self.owner.as_str());
        u.append("/");
        u.append(self.repo_name.as_str());
        u.append("/pull/");
        let d = dec(n);
        u.append(d.as_str());
        u
    }

    fn record_existing(self, n: u64) -> (r: Core)
        requires
            counts_ok(self@),
            self@.index < self@.branches.len(),
        ensures
            r@ == record_existing(self@, n),
            counts_ok(r@),
    {
        let mut c = self;
        let len = c.stack.branches.len();
        assert(c.updated < len && c.index < len);
        let url = c.pr_url(n);
        let branch = c.stack.branches[c.index].name.clone();
        let ghost infos0 = infos_view(c.infos@);
        let rec = BranchSubmitInfo {
            branch,
            pr_number: Some(n),
            pr_url: Some(url),
            action: SubmitAction::Updated,
        };
        c.infos.push(rec);
        assert(infos_view(c.infos@) =~= infos0.push(rec@));
        assert(infos0.push(rec@).drop_last() =~= infos0);
        c.updated = c.updated + 1;
        c.index = c.index + 1;
        c
    }

    fn record(self, number: Option<u64>, was_created: bool, url: Option<String>) -> (r: Core)
        requires
            counts_ok(self@),
            self@.index < self@.branches.len(),
        ensures
            r@ == record(self@, number, was_created, opt_chars(url)),
            counts_ok(r@),
    {
        let ghost s0 = self@;
        let mut c = self;
        let len = c.stack.branches.len();
        assert(c.updated < len && c.created < len && c.index < len);
        let i = c.index;
        let ghost b = c.stack.branches@[i as int];
        c.stack.branches[i].pr = number;
        assert(c.stack.branches@ =~= s0.branches.update(
            i as int,
            StackBranch { name: b.name, parent: b.parent, pr: number },
        ));
        let branch = c.stack.branches[i].name.clone();
        let ghost infos0 = infos_view(c.infos@);
        let rec = BranchSubmitInfo {
            branch,
            pr_number: number,
            pr_url: url,
            action: if was_created {
                SubmitAction::Created
            } else {
                SubmitAction::Updated
            },
        };
        c.infos.push(rec);
        assert(infos_view(c.infos@) =~= infos0.push(rec@));
        assert(infos0.push(rec@).drop_last() =~= infos0);
        if was_created {
            c.created = c.created + 1;
        } else {
            c.updated = c.updated + 1;
        }
        c.index = c.index + 1;
        c
    }

    fn finish(self) -> (r: (Core, Step))
        requires
            counts_ok(self@),
        ensures
            (r.0@, r.1@) == finish(self@),
            wf(r.0@),
    {
        let mut c = self;
        if c.config.json {
            let output = SubmitOutput {
                prs_created: c.created,
                prs_updated: c.updated,
                branches: copy_infos(&c.infos),
                dry_run: c.config.dry_run,
            };
            c.phase = Phase::Finished;
            (c, Step { notices: no_notices(), op: Op::Output { output } })
        } else if c.config.dry_run {
            c.phase = Phase::AwaitDefault;
            (c, Step { notices: no_notices(), op: Op::GetDefaultBranch })
        } else {
            let mut notices = one_notice(print_summary(c.created, c.updated));
            let mut i: usize = 0;
            while i < c.infos.len()
                invariant
                    i <= c.infos@.len(),
                    notices_view(notices@) == seq![summary_notice(c@.created, c@.updated)]
                        + url_notices(infos_view(c.infos@).take(i as int)),
                decreases c.infos.len() - i,
            {
                let ghost iv = infos_view(c.infos@);
                proof {
                    assert(iv.take(i + 1).drop_last() =~= iv.take(i as int));
                    assert(iv.take(i + 1).last() == c.infos@[i as int]@);
                }
                let ghost before = notices_view(notices@);
                match &c.infos[i].pr_url {
                    Some(u) => {
                        push_notice(
                            &mut notices,
                            Notice { kind: NoticeKind::Essential, text: u.clone() },
                        );
                        assert(notices_view(notices@) =~= seq![summary_notice(c@.created, c@.updated)]
                            + url_notices(iv.take(i + 1)));
                    },
                    None => {},
                }
                i = i + 1;
            }
            assert(infos_view(c.infos@).take(c.infos@.len() as int) =~= infos_view(c.infos@));
            c.phase = Phase::Finished;
            (c, Step { notices, op: Op::Finish })
        }
    }

    fn comments_from(self, j: usize) -> (r: (Core, Step))
        requires
            counts_ok(self@),
            !self@.config.dry_run,
            j <= self@.branches.len(),
        ensures
            (r.0@, r.1@) == comments_from(self@, j as nat),
            wf(r.0@),
    {
        let mut c = self;
        let mut k = j;
        while k < c.stack.branches.len() && c.stack.branches[k].pr.is_none()
            invariant
                j <= k <= c@.branches.len(),
                next_with_pr(c@.branches, j as nat) == next_with_pr(c@.branches, k as nat),
            decreases c@.branches.len() - k,
        {
            k = k + 1;
        }
        if k < c.stack.branches.len() {
            let n = match c.stack.branches[k].pr {
                Some(n) => n,
                None => 0,
            };
            c.phase = Phase::AwaitComments { at: k, number: n };
            (c, Step { notices: no_notices(), op: Op::ListComments { number: n } })
        } else {
            c.finish()
        }
    }

    fn after_branches(self) -> (r: (Core, Step))
        requires
            counts_ok(self@),
        ensures
            (r.0@, r.1@) == after_branches(self@),
            wf(r.0@),
    {
        let mut c = self;
        if !c.config.dry_run {
            c.phase = Phase::AwaitSave;
            (c, Step { notices: no_notices(), op: Op::SaveStack })
        } else {
            c.finish()
        }
    }

    /// Processing of the branch at `index` starts with pushing it.
    fn next_branch(self) -> (r: (Core, Step))
        requires
            counts_ok(self@),
        ensures
            (r.0@, r.1@) == next_branch(self@),
            wf(r.0@),
    {
        let mut c = self;
        if c.index < c.stack.branches.len() && c.config.dry_run {
            let name = c.stack.branches[c.index].name.clone();
            c.phase = Phase::AwaitMessage;
            (c, Step { notices: no_notices(), op: Op::ReadCommitMessage { branch: name } })
        } else if c.index < c.stack.branches.len() {
            let name = c.stack.branches[c.index].name.clone();
            let notices = if !c.config.json && !c.config.dry_run {
                let mut t1 = String::from_str("Processing ");
                t1.append(name.as_str());
                t1.append("...");
                let mut t2 = String::from_str("  Pushing ");
                t2.append(name.as_str());
                t2.append("...");
                let n1 = info_notice(t1);
                let n2 = info_notice(t2);
                let ghost v1 = n1@;
                let ghost v2 = n2@;
                let mut v = one_notice(n1);
                push_notice(&mut v, n2);
                assert(notices_view(v@) =~= seq![v1, v2]);
                v
            } else {
                no_notices()
            };
            c.phase = Phase::AwaitPush;
            let force = c.config.force;
            (c, Step { notices, op: Op::Push { branch: name, force } })
        } else {
            c.after_branches()
        }
    }

    /// The decisions on a branch once its commit message is read.
    fn with_message(self, text: Option<String>) -> (r: (Core, Step))
        requires
            counts_ok(self@),
            self@.index < self@.branches.len(),
        ensures
            (r.0@, r.1@) == with_message(self@, opt_chars(text)),
            wf(r.0@),
    {
        let c = self;
        let b = &c.stack.branches[c.index];
        let name = b.name.clone();
        let (derived, body) = match &text {
            Some(m) => get_pr_title_and_body(Some(m.as_str()), name.as_str()),
            None => get_pr_title_and_body(None, name.as_str()),
        };
        let custom_applies = match &c.config.current_branch {
            Some(cb) => *cb == name && c.config.custom_title.is_some(),
            None => false,
        };
        let title = if custom_applies {
            match &c.config.custom_title {
                Some(t) => t.clone(),
                None => derived,
            }
        } else {
            derived
        };
        let base = match &b.parent {
            Some(p) => p.clone(),
            None => String::from_str("main"),
        };
        match b.pr {
            Some(n) => {
                if !c.config.dry_run {
                    let mut t = String::from_str("  Updating PR #");
                    let d = dec(n);
                    t.append(d.as_str());
                    t.append("...");
                    let notices = unless_json_exec(c.config.json, info_notice(t));
                    let mut c = c;
                    c.phase = Phase::AwaitUpdateExisting { number: n };
                    (c, Step { notices, op: Op::UpdatePrBase { number: n, base } })
                } else {
                    c.record_existing(n).next_branch()
                }
            },
            None => {
                let mut c = c;
                c.phase = Phase::AwaitFind { title, body, base };
                (c, Step { notices: no_notices(), op: Op::FindPr { branch: name } })
            },
        }
    }

    /// The decisions once the branch's open pull request was looked for.
    fn create_or_find_pr(
        self,
        existing: Option<PullRequest>,
        title: String,
        body: String,
        base: String,
    ) -> (r: (Core, Step))
        requires
            counts_ok(self@),
            self@.index < self@.branches.len(),
            cur(self@).pr is None,
        ensures
            (r.0@, r.1@) == found(
                self@,
                match existing {
                    Some(p) => Some(p@),
                    None => None,
                },
                title@,
                body@,
                base@,
            ),
            wf(r.0@),
    {
        let mut c = self;
        let name = c.stack.branches[c.index].name.clone();
        match existing {
            Some(pr) => {
                if c.config.dry_run {
                    c.record(Some(pr.number), false, Some(pr.url)).next_branch()
                } else {
                    let mut t = String::from_str("  Found existing PR #");
                    let d = dec(pr.number);
                    t.append(d.as_str());
                    t.append("...");
                    let notices = unless_json_exec(c.config.json, info_notice(t));
                    let number = pr.number;
                    c.phase = Phase::AwaitUpdateFound { number, url: pr.url };
                    (c, Step { notices, op: Op::UpdatePrBase { number, base } })
                }
            },
            None => {
                if !c.config.dry_run {
                    let mut t = String::from_str("  Creating PR (");
                    t.append(name.as_str());
                    t.append(" → ");
                    t.append(base.as_str());
                    t.append(")...");
                    let notices = unless_json_exec(c.config.json, info_notice(t));
                    let request = PrRequest { title, body, head: name, base, draft: c.config.draft };
                    c.phase = Phase::AwaitCreate;
                    (c, Step { notices, op: Op::CreatePr { request } })
                } else {
                    c.record(None, true, None).next_branch()
                }
            },
        }
    }

    fn take_phase(self) -> (r: (Core, Phase))
        ensures
            r.0@ == with_phase(self@, PhaseView::Finished),
            r.1@ == self@.phase,
    {
        let Core { config, owner, repo_name, stack, index, created, updated, infos, phase } = self;
        (
            Core {
                config,
                owner,
                repo_name,
                stack,
                index,
                created,
                updated,
                infos,
                phase: Phase::Finished,
            },
            phase,
        )
    }

    fn step(self, event: Event) -> (r: (Core, Step))
        requires
            wf(self@),
            accepts(self@, event@),
        ensures
            (r.0@, r.1@) == next(self@, event@),
            wf(r.0@),
    {
        let ghost s = self@;
        // The phase is taken out to move its fields; the arms that decide
        // through a helper put an equal phase back first, so the helper sees
        // the state the event arrived in.
        let (mut c, phase) = self.take_phase();
        let ghost pv = phase@;
        match phase {
            Phase::Start => {
                if c.stack.branches.len() == 0 {
                    c.phase = Phase::Finished;
                    if c.config.json {
                        let output = SubmitOutput {
                            prs_created: 0,
                            prs_updated: 0,
                            branches: Vec::new(),
                            dry_run: c.config.dry_run,
                        };
                        assert(infos_view(output.branches@) =~= Seq::<InfoView>::empty());
                        (c, Step { notices: no_notices(), op: Op::Output { output } })
                    } else {
                        let n = info_notice(
                            String::from_str("No branches in stack - nothing to submit"),
                        );
                        (c, Step { notices: one_notice(n), op: Op::Finish })
                    }
                } else {
                    c.phase = Phase::AwaitRemote;
                    (c, Step { notices: no_notices(), op: Op::ResolveRemote })
                }
            },
            Phase::AwaitRemote => match event {
                Event::Remote { current_branch, owner, repo } => {
                    let notices = if !c.config.json && !c.config.dry_run {
                        let mut t = String::from_str("Submitting to ");
                        t.append(owner.as_str());
                        t.append("/");
                        t.append(repo.as_str());
                        t.append("...");
                        one_notice(info_notice(t))
                    } else {
                        no_notices()
                    };
                    c.config.current_branch = current_branch;
                    c.owner = owner;
                    c.repo_name = repo;
                    c.phase = Phase::AwaitConnect;
                    (c, Step { notices, op: Op::Connect })
                },
                Event::Failed { message } => c.fail(message),
                _ => {
                    assert(false);
                    (c, Step { notices: no_notices(), op: Op::Finish })
                },
            },
            Phase::AwaitConnect => match event {
                Event::Failed { message } => c.fail(message),
                _ => {
                    c.phase = Phase::AwaitConnect;
                    c.next_branch()
                },
            },
            Phase::AwaitPush => {
                let name = c.stack.branches[c.index].name.clone();
                match event {
                    Event::Failed { .. } => {
                        let mut t = String::from_str("Failed to push ");
                        t.append(name.as_str());
                        c.fail(t)
                    },
                    _ => {
                        c.phase = Phase::AwaitMessage;
                        (c, Step { notices: no_notices(), op: Op::ReadCommitMessage { branch: name } })
                    },
                }
            },
            Phase::AwaitMessage => match event {
                Event::CommitMessage { text } => {
                    c.phase = Phase::AwaitMessage;
                    c.with_message(text)
                },
                _ => {
                    assert(false);
                    (c, Step { notices: no_notices(), op: Op::Finish })
                },
            },
            Phase::AwaitUpdateExisting { number } => match event {
                Event::Failed { .. } => {
                    let mut t = String::from_str("Failed to update PR #");
                    let d = dec(number);
                    t.append(d.as_str());
                    c.fail(t)
                },
                _ => {
                    c.phase = Phase::AwaitUpdateExisting { number };
                    c.record_existing(number).next_branch()
                },
            },
            Phase::AwaitFind { title, body, base } => match event {
                Event::Found { existing } => {
                    c.phase = Phase::AwaitFind {
                        title: title.clone(),
                        body: body.clone(),
                        base: base.clone(),
                    };
                    c.create_or_find_pr(existing, title, body, base)
                },
                Event::Failed { .. } => c.fail(String::from_str("Failed to check for existing PR")),
                _ => {
                    assert(false);
                    (c, Step { notices: no_notices(), op: Op::Finish })
                },
            },
            Phase::AwaitUpdateFound { number, url } => match event {
                Event::Failed { .. } => {
                    let mut t = String::from_str("Failed to update PR #");
                    let d = dec(number);
                    t.append(d.as_str());
                    c.fail(t)
                },
                _ => {
                    c.phase = Phase::AwaitUpdateFound { number, url: url.clone() };
                    c.record(Some(number), false, Some(url)).next_branch()
                },
            },
            Phase::AwaitCreate => match event {
                Event::Created { pr } => {
                    let mut t = String::from_str("  Created PR #");
                    let d = dec(pr.number);
                    t.append(d.as_str());
                    t.append(": ");
                    t.append(pr.url.as_str());
                    let notices = unless_json_exec(
                        c.config.json,
                        Notice { kind: NoticeKind::Success, text: t },
                    );
                    c.phase = Phase::AwaitCreate;
                    let (c2, st) = c.record(Some(pr.number), true, Some(pr.url)).next_branch();
                    (c2, prepend(notices, st))
                },
                Event::Failed { .. } => {
                    let mut t = String::from_str("Failed to create PR for ");
                    let name = c.stack.branches[c.index].name.clone();
                    t.append(name.as_str());
                    c.fail(t)
                },
                _ => {
                    assert(false);
                    (c, Step { notices: no_notices(), op: Op::Finish })
                },
            },
            Phase::AwaitSave => match event {
                Event::Failed { message } => c.fail(message),
                _ => {
                    let notices = unless_json_exec(
                        c.config.json,
                        info_notice(String::from_str("Updating stack comments...")),
                    );
                    c.phase = Phase::AwaitSave;
                    let (c2, st) = c.comments_from(0);
                    (c2, prepend(notices, st))
                },
            },
            Phase::AwaitComments { at, number } => match event {
                Event::Comments { comments } => {
                    let body = generate_stack_comment(c.stack.branches.as_slice(), number);
                    match find_stack_comment(&comments) {
                        Some(k) => {
                            proof {
                                lemma_first_stack_comment(comments@, k as int);
                            }
                            c.phase = Phase::AwaitCommentWrite { at, number, updating: true };
                            let id = comments[k].id;
                            (c, Step { notices: no_notices(), op: Op::UpdateComment { id, body } })
                        },
                        None => {
                            c.phase = Phase::AwaitCommentWrite { at, number, updating: false };
                            (c, Step { notices: no_notices(), op: Op::CreateComment { number, body } })
                        },
                    }
                },
                Event::Failed { .. } => {
                    let mut t = String::from_str("Failed to list comments on PR #");
                    let d = dec(number);
                    t.append(d.as_str());
                    c.fail(t)
                },
                _ => {
                    assert(false);
                    (c, Step { notices: no_notices(), op: Op::Finish })
                },
            },
            Phase::AwaitCommentWrite { at, number, updating } => match event {
                Event::Failed { .. } => {
                    let mut t = if updating {
                        String::from_str("Failed to update comment on PR #")
                    } else {
                        String::from_str("Failed to create comment on PR #")
                    };
                    let d = dec(number);
                    t.append(d.as_str());
                    c.fail(t)
                },
                _ => {
                    assert(pv == PhaseView::AwaitCommentWrite { at: at as nat, number, updating });
                    let len = c.stack.branches.len();
                    assert(at < len);
                    c.phase = Phase::AwaitCommentWrite { at, number, updating };
                    c.comments_from(at + 1)
                },
            },
            Phase::AwaitDefault => match event {
                Event::DefaultBranch { name } => {
                    let notices = print_dry_run_summary(
                        c.created,
                        c.updated,
                        name.as_str(),
                        c.infos.as_slice(),
                        &c.stack,
                    );
                    c.phase = Phase::Finished;
                    (c, Step { notices, op: Op::Finish })
                },
                Event::Failed { .. } => c.fail(String::from_str("Failed to get default branch")),
                _ => {
                    assert(false);
                    (c, Step { notices: no_notices(), op: Op::Finish })
                },
            },
            Phase::Finished => {
                assert(false);
                (c, Step { notices: no_notices(), op: Op::Finish })
            },
        }
    }
}

proof fn lemma_first_stack_comment(cs: Seq<PrComment>, k: int)
    requires
        0 <= k < cs.len(),
        is_stack_comment(cs[k]),
        forall|j: int| 0 <= j < k ==> !is_stack_comment(#[trigger] cs[j]),
    ensures
        first_stack_comment(cs) == Some(k),
{
    let k2 = choose|k2: int|
        0 <= k2 < cs.len() && is_stack_comment(cs[k2]) && forall|j: int|
            0 <= j < k2 ==> !is_stack_comment(#[trigger] cs[j]);
    if k2 < k {
        assert(!is_stack_comment(cs[k2]));
    } else if k < k2 {
        assert(!is_stack_comment(cs[k]));
    }
}

impl Submit {
    #[verifier::type_invariant]
    spec fn consistent(self) -> bool {
        wf(self.core@)
    }

    /// A new run of the submit command over the branches of `stack`.
    pub fn new(config: SubmitConfig, stack: Stack) -> (r: Submit)
        ensures
            r@ == initial(config@, stack.branches@),
    {
        let core = Core {
            config,
            owner: String::new(),
            repo_name: String::new(),
            stack,
            index: 0,
            created: 0,
            updated: 0,
            infos: Vec::new(),
            phase: Phase::Start,
        };
        assert(infos_view(core.infos@) =~= Seq::<InfoView>::empty());
        Submit { core }
    }

    /// Whether the run waits for `event` now (see `accepts`).
    pub fn accepts(&self, event: &Event) -> (r: bool)
        ensures
            r == accepts(self@, event@),
    {
        match &self.core.phase {
            Phase::Start => matches!(event, Event::Begin),
            Phase::AwaitRemote => matches!(event, Event::Remote { .. }) || matches!(event, Event::Failed { .. }),
            Phase::AwaitMessage => matches!(event, Event::CommitMessage { .. }),
            Phase::AwaitFind { .. } => matches!(event, Event::Found { .. }) || matches!(event, Event::Failed { .. }),
            Phase::AwaitCreate => matches!(event, Event::Created { .. }) || matches!(event, Event::Failed { .. }),
            Phase::AwaitComments { number, .. } => match event {
                Event::Comments { .. } => stack_comment_defined(self.core.stack.branches.as_slice(), *number),
                Event::Failed { .. } => true,
                _ => false,
            },
            Phase::AwaitDefault => matches!(event, Event::DefaultBranch { .. }) || matches!(event, Event::Failed { .. }),
            Phase::Finished => false,
            _ => matches!(event, Event::Done) || matches!(event, Event::Failed { .. }),
        }
    }

    /// Takes the outcome of the last operation and decides what comes next.
    pub fn step(self, event: Event) -> (r: (Submit, Step))
        requires
            accepts(self@, event@),
        ensures
            (r.0@, r.1@) == next(self@, event@),
    {
        proof {
            use_type_invariant(&self);
        }
        let Submit { core } = self;
        let (core, st) = core.step(event);
        (Submit { core }, st)
    }

    /// The stack of the run, with the pull request numbers found so far.
    pub fn stack(&self) -> (r: &Stack)
        ensures
            r.branches@ == self@.branches,
    {
        &self.core.stack
    }
}

} // verus!
