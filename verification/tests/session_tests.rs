use rung_cli::comment::{generate_stack_comment, PrComment};
use rung_cli::report::{NoticeKind, SubmitAction};
use rung_cli::session::{Event, Op, PullRequest, Step, Submit, SubmitConfig};
use rung_cli::stack::{Stack, StackBranch};

fn br(name: &str, parent: Option<&str>, pr: Option<u64>) -> StackBranch {
    StackBranch { name: name.to_string(), parent: parent.map(|p| p.to_string()), pr }
}

fn config(json: bool, dry_run: bool) -> SubmitConfig {
    SubmitConfig {
        json,
        dry_run,
        draft: true,
        force: false,
        custom_title: Some("Custom".to_string()),
        current_branch: None,
    }
}

fn notes(step: &Step) -> Vec<(NoticeKind, String)> {
    step.notices.iter().map(|n| (n.kind, n.text.clone())).collect()
}

fn info(t: &str) -> (NoticeKind, String) {
    (NoticeKind::Info, t.to_string())
}

fn go(s: Submit, e: Event) -> (Submit, Step) {
    assert!(s.accepts(&e));
    s.step(e)
}

fn remote() -> Event {
    Event::Remote {
        current_branch: Some("b".to_string()),
        owner: "o".to_string(),
        repo: "r".to_string(),
    }
}

fn two_branches() -> Stack {
    Stack { branches: vec![br("a", Some("main"), Some(1)), br("b", Some("a"), None)] }
}

#[test]
fn empty_stack_reports_nothing_to_submit() {
    let s = Submit::new(config(false, false), Stack { branches: vec![] });
    let (s, st) = go(s, Event::Begin);
    assert_eq!(notes(&st), vec![info("No branches in stack - nothing to submit")]);
    assert!(matches!(st.op, Op::Finish));
    assert!(!s.accepts(&Event::Done));
}

#[test]
fn empty_stack_json_output() {
    let s = Submit::new(config(true, true), Stack { branches: vec![] });
    let (_, st) = go(s, Event::Begin);
    assert!(st.notices.is_empty());
    match st.op {
        Op::Output { output } => {
            assert_eq!(output.prs_created, 0);
            assert_eq!(output.prs_updated, 0);
            assert!(output.branches.is_empty());
            assert!(output.dry_run);
        },
        _ => panic!("expected output"),
    }
}

#[test]
fn full_run_updates_creates_and_comments() {
    let s = Submit::new(config(false, false), two_branches());
    assert!(!s.accepts(&Event::Done));
    let (s, st) = go(s, Event::Begin);
    assert!(matches!(st.op, Op::ResolveRemote));
    let (s, st) = go(s, remote());
    assert_eq!(notes(&st), vec![info("Submitting to o/r...")]);
    assert!(matches!(st.op, Op::Connect));
    let (s, st) = go(s, Event::Done);
    assert_eq!(notes(&st), vec![info("Processing a..."), info("  Pushing a...")]);
    assert!(matches!(&st.op, Op::Push { branch, force: false } if branch == "a"));
    let (s, st) = go(s, Event::Done);
    assert!(matches!(&st.op, Op::ReadCommitMessage { branch } if branch == "a"));
    let (s, st) = go(s, Event::CommitMessage { text: Some("A title".to_string()) });
    assert_eq!(notes(&st), vec![info("  Updating PR #1...")]);
    assert!(matches!(&st.op, Op::UpdatePrBase { number: 1, base } if base == "main"));
    let (s, st) = go(s, Event::Done);
    assert_eq!(notes(&st), vec![info("Processing b..."), info("  Pushing b...")]);
    let (s, st) = go(s, Event::Done);
    assert!(matches!(&st.op, Op::ReadCommitMessage { branch } if branch == "b"));
    let (s, st) = go(s, Event::CommitMessage { text: None });
    assert!(st.notices.is_empty());
    assert!(matches!(&st.op, Op::FindPr { branch } if branch == "b"));
    let (s, st) = go(s, Event::Found { existing: None });
    assert_eq!(notes(&st), vec![info("  Creating PR (b → a)...")]);
    match &st.op {
        Op::CreatePr { request } => {
            assert_eq!(request.title, "Custom");
            assert_eq!(request.body, "");
            assert_eq!(request.head, "b");
            assert_eq!(request.base, "a");
            assert!(request.draft);
        },
        _ => panic!("expected a new pull request"),
    }
    let url2 = "https://github.com/o/r/pull/2".to_string();
    let (s, st) = go(s, Event::Created { pr: PullRequest { number: 2, url: url2.clone() } });
    assert_eq!(
        notes(&st),
        vec![(NoticeKind::Success, format!("  Created PR #2: {url2}"))]
    );
    assert!(matches!(st.op, Op::SaveStack));
    assert_eq!(s.stack().branches[1].pr, Some(2));
    let (s, st) = go(s, Event::Done);
    assert_eq!(notes(&st), vec![info("Updating stack comments...")]);
    assert!(matches!(st.op, Op::ListComments { number: 1 }));
    let expected1 = generate_stack_comment(&s.stack().branches, 1);
    let comments = vec![
        PrComment { id: 10, body: Some("hello".to_string()) },
        PrComment { id: 11, body: Some("x <!-- rung-stack --> y".to_string()) },
    ];
    let (s, st) = go(s, Event::Comments { comments });
    assert!(matches!(&st.op, Op::UpdateComment { id: 11, body } if *body == expected1));
    let (s, st) = go(s, Event::Done);
    assert!(matches!(st.op, Op::ListComments { number: 2 }));
    let expected2 = generate_stack_comment(&s.stack().branches, 2);
    let (s, st) = go(s, Event::Comments { comments: vec![] });
    assert!(matches!(&st.op, Op::CreateComment { number: 2, body } if *body == expected2));
    let (s, st) = go(s, Event::Done);
    assert_eq!(
        notes(&st),
        vec![
            (NoticeKind::Success, "Done! PRs: 1 created, 1 updated".to_string()),
            (NoticeKind::Essential, "https://github.com/o/r/pull/1".to_string()),
            (NoticeKind::Essential, url2),
        ]
    );
    assert!(matches!(st.op, Op::Finish));
    assert!(!s.accepts(&Event::Done));
}

#[test]
fn found_pull_request_is_updated() {
    let s = Submit::new(config(false, false), Stack { branches: vec![br("b", None, None)] });
    let (s, _) = go(s, Event::Begin);
    let (s, _) = go(s, remote());
    let (s, _) = go(s, Event::Done);
    let (s, _) = go(s, Event::Done);
    let (s, _) = go(s, Event::CommitMessage { text: Some("Title".to_string()) });
    let url = "https://github.com/o/r/pull/9".to_string();
    let (s, st) = go(s, Event::Found { existing: Some(PullRequest { number: 9, url: url.clone() }) });
    assert_eq!(notes(&st), vec![info("  Found existing PR #9...")]);
    assert!(matches!(&st.op, Op::UpdatePrBase { number: 9, base } if base == "main"));
    let (s, st) = go(s, Event::Done);
    assert!(matches!(st.op, Op::SaveStack));
    assert_eq!(s.stack().branches[0].pr, Some(9));
}

#[test]
fn dry_run_pushes_nothing_and_summarizes() {
    let s = Submit::new(config(false, true), two_branches());
    let (s, _) = go(s, Event::Begin);
    let (s, st) = go(s, remote());
    assert!(st.notices.is_empty());
    let (s, st) = go(s, Event::Done);
    assert!(st.notices.is_empty());
    assert!(matches!(&st.op, Op::ReadCommitMessage { branch } if branch == "a"));
    let (s, st) = go(s, Event::CommitMessage { text: None });
    assert!(matches!(&st.op, Op::ReadCommitMessage { branch } if branch == "b"));
    let (s, st) = go(s, Event::CommitMessage { text: None });
    assert!(matches!(&st.op, Op::FindPr { branch } if branch == "b"));
    let (s, st) = go(s, Event::Found { existing: None });
    assert!(matches!(st.op, Op::GetDefaultBranch));
    let (s, st) = go(s, Event::DefaultBranch { name: "main".to_string() });
    assert_eq!(
        notes(&st),
        vec![(
            NoticeKind::Success,
            "→ Would push 1 branches:\n  - a (PR #1)\n\n→ Would create 1 new PRs for branches:\n  - b → a\n\n(dry run - no changes made)"
                .to_string()
        )]
    );
    assert!(matches!(st.op, Op::Finish));
    assert!(!s.accepts(&Event::Done));
}

#[test]
fn json_run_outputs_records() {
    let s = Submit::new(config(true, false), two_branches());
    let (s, _) = go(s, Event::Begin);
    let (s, st) = go(s, remote());
    assert!(st.notices.is_empty());
    let (s, st) = go(s, Event::Done);
    assert!(st.notices.is_empty());
    let (s, _) = go(s, Event::Done);
    let (s, st) = go(s, Event::CommitMessage { text: None });
    assert!(st.notices.is_empty());
    let (s, _) = go(s, Event::Done);
    let (s, _) = go(s, Event::Done);
    let (s, _) = go(s, Event::CommitMessage { text: None });
    let (s, _) = go(s, Event::Found { existing: None });
    let (s, st) = go(s, Event::Created {
        pr: PullRequest { number: 3, url: "u3".to_string() },
    });
    assert!(st.notices.is_empty());
    let (s, st) = go(s, Event::Done);
    assert!(st.notices.is_empty());
    let (s, _) = go(s, Event::Comments { comments: vec![] });
    let (s, _) = go(s, Event::Done);
    let (s, _) = go(s, Event::Comments { comments: vec![] });
    let (_, st) = go(s, Event::Done);
    assert!(st.notices.is_empty());
    match st.op {
        Op::Output { output } => {
            assert_eq!(output.prs_created, 1);
            assert_eq!(output.prs_updated, 1);
            assert!(!output.dry_run);
            assert_eq!(output.branches.len(), 2);
            assert_eq!(output.branches[0].branch, "a");
            assert_eq!(output.branches[0].action, SubmitAction::Updated);
            assert_eq!(output.branches[0].pr_url.as_deref(), Some("https://github.com/o/r/pull/1"));
            assert_eq!(output.branches[1].branch, "b");
            assert_eq!(output.branches[1].action, SubmitAction::Created);
            assert_eq!(output.branches[1].pr_number, Some(3));
        },
        _ => panic!("expected output"),
    }
}

#[test]
fn push_failure_ends_the_run() {
    let s = Submit::new(config(false, false), two_branches());
    let (s, _) = go(s, Event::Begin);
    let (s, _) = go(s, remote());
    let (s, _) = go(s, Event::Done);
    let (s, st) = go(s, Event::Failed { message: "boom".to_string() });
    assert!(matches!(&st.op, Op::Fail { message } if message == "Failed to push a"));
    assert!(!s.accepts(&Event::Done));
}

#[test]
fn remote_failure_passes_message_through() {
    let s = Submit::new(config(false, false), two_branches());
    let (s, _) = go(s, Event::Begin);
    let (_, st) = go(s, Event::Failed { message: "No origin remote configured".to_string() });
    assert!(matches!(&st.op, Op::Fail { message } if message == "No origin remote configured"));
}

#[test]
fn update_failure_names_the_pull_request() {
    let s = Submit::new(config(false, false), two_branches());
    let (s, _) = go(s, Event::Begin);
    let (s, _) = go(s, remote());
    let (s, _) = go(s, Event::Done);
    let (s, _) = go(s, Event::Done);
    let (s, _) = go(s, Event::CommitMessage { text: None });
    let (_, st) = go(s, Event::Failed { message: "http 500".to_string() });
    assert!(matches!(&st.op, Op::Fail { message } if message == "Failed to update PR #1"));
}

fn at_find() -> Submit {
    let s = Submit::new(config(false, false), Stack { branches: vec![br("b", None, None)] });
    let (s, _) = go(s, Event::Begin);
    let (s, _) = go(s, remote());
    let (s, _) = go(s, Event::Done);
    let (s, _) = go(s, Event::Done);
    let (s, _) = go(s, Event::CommitMessage { text: None });
    s
}

#[test]
fn find_and_create_failures() {
    let (_, st) = go(at_find(), Event::Failed { message: "x".to_string() });
    assert!(matches!(&st.op, Op::Fail { message } if message == "Failed to check for existing PR"));
    let (s, _) = go(at_find(), Event::Found { existing: None });
    let (_, st) = go(s, Event::Failed { message: "x".to_string() });
    assert!(matches!(&st.op, Op::Fail { message } if message == "Failed to create PR for b"));
}

#[test]
fn comment_failures() {
    let (s, _) = go(at_find(), Event::Found { existing: None });
    let (s, _) = go(s, Event::Created { pr: PullRequest { number: 5, url: "u".to_string() } });
    let (s, _) = go(s, Event::Done);
    let (s2, _) = go(s, Event::Comments { comments: vec![] });
    let (_, st) = go(s2, Event::Failed { message: "x".to_string() });
    assert!(matches!(&st.op, Op::Fail { message } if message == "Failed to create comment on PR #5"));
}

#[test]
fn save_and_list_failures() {
    let (s, _) = go(at_find(), Event::Found { existing: None });
    let (s, _) = go(s, Event::Created { pr: PullRequest { number: 5, url: "u".to_string() } });
    let (_, st) = go(s, Event::Failed { message: "disk full".to_string() });
    assert!(matches!(&st.op, Op::Fail { message } if message == "disk full"));
    let (s, _) = go(at_find(), Event::Found { existing: None });
    let (s, _) = go(s, Event::Created { pr: PullRequest { number: 5, url: "u".to_string() } });
    let (s, _) = go(s, Event::Done);
    let (_, st) = go(s, Event::Failed { message: "x".to_string() });
    assert!(matches!(&st.op, Op::Fail { message } if message == "Failed to list comments on PR #5"));
}

#[test]
fn update_comment_failure() {
    let (s, _) = go(at_find(), Event::Found { existing: None });
    let (s, _) = go(s, Event::Created { pr: PullRequest { number: 5, url: "u".to_string() } });
    let (s, _) = go(s, Event::Done);
    let comments = vec![PrComment { id: 1, body: Some("<!-- rung-stack -->".to_string()) }];
    let (s, _) = go(s, Event::Comments { comments });
    let (_, st) = go(s, Event::Failed { message: "x".to_string() });
    assert!(matches!(&st.op, Op::Fail { message } if message == "Failed to update comment on PR #5"));
}

#[test]
fn default_branch_failure() {
    let s = Submit::new(config(false, true), Stack { branches: vec![br("a", None, Some(1))] });
    let (s, _) = go(s, Event::Begin);
    let (s, _) = go(s, remote());
    let (s, _) = go(s, Event::Done);
    let (s, st) = go(s, Event::CommitMessage { text: None });
    assert!(matches!(st.op, Op::GetDefaultBranch));
    let (_, st) = go(s, Event::Failed { message: "x".to_string() });
    assert!(matches!(&st.op, Op::Fail { message } if message == "Failed to get default branch"));
}

#[test]
fn cyclic_stack_comment_is_refused() {
    let stack = Stack { branches: vec![br("x", Some("y"), Some(1)), br("y", Some("x"), Some(2))] };
    let s = Submit::new(config(false, false), stack);
    let (s, _) = go(s, Event::Begin);
    let (s, _) = go(s, remote());
    let (s, _) = go(s, Event::Done);
    let (s, _) = go(s, Event::Done);
    let (s, _) = go(s, Event::CommitMessage { text: None });
    let (s, _) = go(s, Event::Done);
    let (s, _) = go(s, Event::Done);
    let (s, _) = go(s, Event::CommitMessage { text: None });
    let (s, st) = go(s, Event::Done);
    assert!(matches!(st.op, Op::SaveStack));
    let (s, st) = go(s, Event::Done);
    assert!(matches!(st.op, Op::ListComments { number: 1 }));
    assert!(!s.accepts(&Event::Comments { comments: vec![] }));
    assert!(s.accepts(&Event::Failed { message: "x".to_string() }));
}
