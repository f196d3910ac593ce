use rung_cli::report::{
    print_dry_run_summary, print_summary, BranchSubmitInfo, NoticeKind, SubmitAction,
};
use rung_cli::stack::{Stack, StackBranch};

fn br(name: &str, parent: Option<&str>, pr: Option<u64>) -> StackBranch {
    StackBranch { name: name.to_string(), parent: parent.map(|p| p.to_string()), pr }
}

fn rec(branch: &str, pr: Option<u64>, action: SubmitAction) -> BranchSubmitInfo {
    BranchSubmitInfo {
        branch: branch.to_string(),
        pr_number: pr,
        pr_url: pr.map(|n| format!("https://github.com/o/r/pull/{n}")),
        action,
    }
}

#[test]
fn summary_counts_both() {
    let n = print_summary(2, 1);
    assert_eq!(n.kind, NoticeKind::Success);
    assert_eq!(n.text, "Done! PRs: 2 created, 1 updated");
}

#[test]
fn summary_counts_one_kind() {
    assert_eq!(print_summary(0, 3).text, "Done! PRs: 3 updated");
    assert_eq!(print_summary(5, 0).text, "Done! PRs: 5 created");
    assert_eq!(print_summary(12, 0).kind, NoticeKind::Success);
}

#[test]
fn summary_without_changes() {
    let n = print_summary(0, 0);
    assert_eq!(n.kind, NoticeKind::Info);
    assert_eq!(n.text, "No changes to submit");
}

#[test]
fn dry_run_summary_lists_both_kinds() {
    let stack = Stack { branches: vec![br("a", None, Some(1)), br("c", Some("b"), None)] };
    let infos = vec![rec("a", Some(1), SubmitAction::Updated), rec("c", None, SubmitAction::Created)];
    let notices = print_dry_run_summary(1, 1, "main", &infos, &stack);
    assert_eq!(notices.len(), 1);
    assert_eq!(notices[0].kind, NoticeKind::Success);
    assert_eq!(
        notices[0].text,
        "→ Would push 1 branches:\n  - a (PR #1)\n\n→ Would create 1 new PRs for branches:\n  - c → b\n\n(dry run - no changes made)"
    );
}

#[test]
fn dry_run_summary_uses_default_branch() {
    let stack = Stack { branches: vec![br("x", None, None)] };
    let infos = vec![rec("x", None, SubmitAction::Created), rec("gone", None, SubmitAction::Created)];
    let notices = print_dry_run_summary(2, 0, "trunk", &infos, &stack);
    assert_eq!(
        notices[0].text,
        "→ Would create 2 new PRs for branches:\n  - x → trunk\n  - gone → trunk\n\n(dry run - no changes made)"
    );
}

#[test]
fn dry_run_summary_updated_without_number() {
    let stack = Stack { branches: vec![] };
    let infos = vec![rec("a", None, SubmitAction::Updated)];
    let notices = print_dry_run_summary(0, 1, "main", &infos, &stack);
    assert_eq!(
        notices[0].text,
        "→ Would push 1 branches:\n  - a (PR #0)\n\n(dry run - no changes made)"
    );
}

#[test]
fn dry_run_summary_of_nothing() {
    let stack = Stack { branches: vec![] };
    let notices = print_dry_run_summary(0, 0, "main", &[], &stack);
    assert_eq!(notices.len(), 2);
    assert_eq!(notices[0].kind, NoticeKind::Info);
    assert_eq!(notices[0].text, "No branches to submit");
    assert_eq!(notices[1].kind, NoticeKind::Success);
    assert_eq!(notices[1].text, "(dry run - no changes made)");
}
