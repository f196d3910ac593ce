//! What the submit command reports: notices for the user, the record of
//! each submitted branch, and the summaries printed at the end.
use vstd::prelude::*;

use crate::stack::{Stack, StackBranch, first_named, parent_of};
use crate::text::{decimal, decimal_chars, join, string_of};

verus! {

/// How a notice is shown: as information, as a success, or as essential
/// output that is printed even when informational output is suppressed.
#[derive(Clone, Copy, Debug, PartialEq, Eq, Structural)]
pub enum NoticeKind {
    Info,
    Success,
    Essential,
}

/// A line of output for the user.
pub struct Notice {
    pub kind: NoticeKind,
    pub text: String,
}

/// What was done with a branch's pull request.
#[derive(Clone, Copy, Debug, PartialEq, Eq, Structural)]
pub enum SubmitAction {
    Created,
    Updated,
}

/// Information about a submitted branch.
pub struct BranchSubmitInfo {
    pub branch: String,
    pub pr_number: Option<u64>,
    pub pr_url: Option<String>,
    pub action: SubmitAction,
}

/// The result of the submit command, as its JSON output lists it.
pub struct SubmitOutput {
    pub prs_created: usize,
    pub prs_updated: usize,
    pub branches: Vec<BranchSubmitInfo>,
    pub dry_run: bool,
}

/// A notice, with its text as characters.
pub struct NoticeView {
    pub kind: NoticeKind,
    pub text: Seq<char>,
}

impl View for Notice {
    type V = NoticeView;

    open spec fn view(&self) -> NoticeView {
        NoticeView { kind: self.kind, text: self.text@ }
    }
}

/// The record of a submitted branch, with its texts as characters.
pub struct InfoView {
    pub branch: Seq<char>,
    pub pr_number: Option<u64>,
    pub pr_url: Option<Seq<char>>,
    pub action: SubmitAction,
}

impl View for BranchSubmitInfo {
    type V = InfoView;

    open spec fn view(&self) -> InfoView {
        InfoView {
            branch: self.branch@,
            pr_number: self.pr_number,
            pr_url: crate::stack::opt_chars(self.pr_url),
            action: self.action,
        }
    }
}

/// The JSON output, with its texts as characters.
pub struct OutputView {
    pub prs_created: nat,
    pub prs_updated: nat,
    pub branches: Seq<InfoView>,
    pub dry_run: bool,
}

impl View for SubmitOutput {
    type V = OutputView;

    open spec fn view(&self) -> OutputView {
        OutputView {
            prs_created: self.prs_created as nat,
            prs_updated: self.prs_updated as nat,
            branches: infos_view(self.branches@),
            dry_run: self.dry_run,
        }
    }
}

/// The views of a sequence of records.
pub open spec fn infos_view(v: Seq<BranchSubmitInfo>) -> Seq<InfoView> {
    v.map_values(|i: BranchSubmitInfo| i@)
}

/// The views of a sequence of notices.
pub open spec fn notices_view(v: Seq<Notice>) -> Seq<NoticeView> {
    v.map_values(|n: Notice| n@)
}

/// An informational notice.
pub open spec fn info(text: Seq<char>) -> NoticeView {
    NoticeView { kind: NoticeKind::Info, text }
}

/// A success notice.
pub open spec fn success(text: Seq<char>) -> NoticeView {
    NoticeView { kind: NoticeKind::Success, text }
}

/// A copy of a record.
pub fn copy_info(i: &BranchSubmitInfo) -> (r: BranchSubmitInfo)
    ensures
        r@ == i@,
{
    BranchSubmitInfo {
        branch: i.branch.clone(),
        pr_number: i.pr_number,
        pr_url: match &i.pr_url {
            Some(u) => Some(u.clone()),
            None => None,
        },
        action: i.action,
    }
}

/// Copies of the records `v`.
pub fn copy_infos(v: &Vec<BranchSubmitInfo>) -> (r: Vec<BranchSubmitInfo>)
    ensures
        infos_view(r@) == infos_view(v@),
{
    let mut r: Vec<BranchSubmitInfo> = Vec::new();
    let mut i: usize = 0;
    while i < v.len()
        invariant
            i <= v@.len(),
            infos_view(r@) =~= infos_view(v@).take(i as int),
        decreases v.len() - i,
    {
        r.push(copy_info(&v[i]));
        assert(infos_view(v@).take(i + 1) =~= infos_view(v@).take(i as int).push(v@[i as int]@));
        i = i + 1;
    }
    assert(infos_view(v@).take(v@.len() as int) =~= infos_view(v@));
    r
}

/// The text of the closing summary of a submit run.
pub open spec fn summary_text(created: nat, updated: nat) -> Seq<char> {
    let parts = (if created > 0 {
        seq![decimal(created) + " created"@]
    } else {
        Seq::empty()
    }) + (if updated > 0 {
        seq![decimal(updated) + " updated"@]
    } else {
        Seq::empty()
    });
    "Done! PRs: "@ + join(parts, ", "@)
}

/// The closing summary notice.
pub open spec fn summary_notice(created: nat, updated: nat) -> NoticeView {
    if created > 0 || updated > 0 {
        success(summary_text(created, updated))
    } else {
        info("No changes to submit"@)
    }
}

/// The closing summary of a submit run: a success that counts the created
/// and the updated pull requests, or, when there are none, the information
/// that there was nothing to submit.
pub fn print_summary(created: usize, updated: usize) -> (n: Notice)
    ensures
        n@ == summary_notice(created as nat, updated as nat),
{
    if created > 0 || updated > 0 {
        let mut text = String::from_str("Done! PRs: ");
        let ghost parts = (if created > 0 {
            seq![decimal(created as nat) + " created"@]
        } else {
            Seq::empty()
        }) + (if updated > 0 {
            seq![decimal(updated as nat) + " updated"@]
        } else {
            Seq::empty()
        });
        if created > 0 {
            let digits = string_of(&decimal_chars(created as u64));
            text.append(digits.as_str());
            text.append(" created");
        }
        if updated > 0 {
            if created > 0 {
                text.append(", ");
            }
            let digits = string_of(&decimal_chars(updated as u64));
            text.append(digits.as_str());
            text.append(" updated");
        }
        proof {
            if created > 0 && updated > 0 {
                assert(parts.drop_last() =~= seq![decimal(created as nat) + " created"@]);
                assert(join(parts.drop_last(), ", "@) == parts[0]);
            } else if created > 0 {
                assert(parts =~= seq![decimal(created as nat) + " created"@]);
            } else {
                assert(parts =~= seq![decimal(updated as nat) + " updated"@]);
            }
        }
        assert(text@ == summary_text(created as nat, updated as nat));
        Notice { kind: NoticeKind::Success, text }
    } else {
        Notice { kind: NoticeKind::Info, text: String::from_str("No changes to submit") }
    }
}

/// The line of the dry-run summary for a branch whose pull request would be
/// updated.
pub open spec fn push_line(info: InfoView) -> Seq<char> {
    let n: u64 = match info.pr_number {
        Some(n) => n,
        None => 0,
    };
    "  - "@ + info.branch + " (PR #"@ + decimal(n as nat) + ")"@
}

/// The base a new pull request for `branch` would have: the parent recorded
/// on the first branch of the stack with that name, else `default_branch`.
pub open spec fn base_or_default(bs: Seq<StackBranch>, branch: Seq<char>, default_branch: Seq<char>) -> Seq<char> {
    match first_named(bs, branch) {
        Some(k) => match parent_of(bs[k]) {
            Some(p) => p,
            None => default_branch,
        },
        None => default_branch,
    }
}

/// The line of the dry-run summary for a branch whose pull request would be
/// created.
pub open spec fn create_line(info: InfoView, bs: Seq<StackBranch>, default_branch: Seq<char>) -> Seq<char> {
    "  - "@ + info.branch + " → "@ + base_or_default(bs, info.branch, default_branch)
}

/// The push lines of the branches whose pull request would be updated, in
/// order.
pub open spec fn push_lines(infos: Seq<InfoView>) -> Seq<Seq<char>>
    decreases infos.len(),
{
    if infos.len() == 0 {
        Seq::empty()
    } else {
        let r = push_lines(infos.drop_last());
        if infos.last().action == SubmitAction::Updated {
            r.push(push_line(infos.last()))
        } else {
            r
        }
    }
}

/// The create lines of the branches whose pull request would be created,
/// in order.
pub open spec fn create_lines(infos: Seq<InfoView>, bs: Seq<StackBranch>, default_branch: Seq<char>) -> Seq<Seq<char>>
    decreases infos.len(),
{
    if infos.len() == 0 {
        Seq::empty()
    } else {
        let r = create_lines(infos.drop_last(), bs, default_branch);
        if infos.last().action == SubmitAction::Created {
            r.push(create_line(infos.last(), bs, default_branch))
        } else {
            r
        }
    }
}

/// The lines of the dry-run summary.
pub open spec fn dry_run_lines(
    created: nat,
    updated: nat,
    default_branch: Seq<char>,
    infos: Seq<InfoView>,
    bs: Seq<StackBranch>,
) -> Seq<Seq<char>> {
    (if updated > 0 {
        seq!["→ Would push "@ + decimal(updated) + " branches:"@] + push_lines(infos) + seq![
            Seq::empty(),
        ]
    } else {
        Seq::empty()
    }) + (if created > 0 {
        seq!["→ Would create "@ + decimal(created) + " new PRs for branches:"@] + create_lines(
            infos,
            bs,
            default_branch,
        ) + seq![Seq::empty()]
    } else {
        Seq::empty()
    }) + seq!["(dry run - no changes made)"@]
}

/// Appends `s` to `lines`.
fn push_seq(lines: &mut Vec<String>, s: String)
    ensures
        final(lines)@.len() == old(lines)@.len() + 1,
        forall|i: int| 0 <= i < old(lines)@.len() ==> #[trigger] final(lines)@[i] == old(lines)@[i],
        final(lines)@[old(lines)@.len() as int] == s,
{
    lines.push(s);
}

/// The lines of the dry-run summary that list the pull requests that would be
/// updated (`tag` is `Updated`) or created (`tag` is `Created`).
fn action_lines(
    lines: &mut Vec<String>,
    infos: &[BranchSubmitInfo],
    tag: SubmitAction,
    default_branch: &str,
    stack: &Stack,
)
    ensures
        crate::stack::names_of(final(lines)@) == crate::stack::names_of(old(lines)@) + (if tag
            == SubmitAction::Updated {
            push_lines(infos_view(infos@))
        } else {
            create_lines(infos_view(infos@), stack.branches@, default_branch@)
        }),
{
    let ghost start = crate::stack::names_of(lines@);
    let mut i: usize = 0;
    while i < infos.len()
        invariant
            i <= infos@.len(),
            crate::stack::names_of(lines@) == start + (if tag == SubmitAction::Updated {
                push_lines(infos_view(infos@).take(i as int))
            } else {
                create_lines(infos_view(infos@).take(i as int), stack.branches@, default_branch@)
            }),
        decreases infos.len() - i,
    {
        let info = &infos[i];
        proof {
            let iv = infos_view(infos@);
            assert(iv.take(i + 1).drop_last() =~= iv.take(i as int));
            assert(iv.take(i + 1).last() == infos@[i as int]@);
        }
        let ghost before = crate::stack::names_of(lines@);
        if info.action == tag {
            let mut line = String::from_str("  - ");
            line.append(info.branch.as_str());
            if tag == SubmitAction::Updated {
                line.append(" (PR #");
                let n: u64 = match info.pr_number {
                    Some(n) => n,
                    None => 0,
                };
                let digits = string_of(&decimal_chars(n));
                line.append(digits.as_str());
                line.append(")");
            } else {
                line.append(" → ");
                match stack.find_branch(&info.branch) {
                    Some(b) => match &b.parent {
                        Some(p) => line.append(p.as_str()),
                        None => line.append(default_branch),
                    },
                    None => line.append(default_branch),
                }
            }
            let ghost l = line@;
            push_seq(lines, line);
            assert(crate::stack::names_of(lines@) =~= before.push(l));
        }
        i = i + 1;
    }
    assert(infos_view(infos@).take(infos@.len() as int) =~= infos_view(infos@));
}

/// The notices of the dry-run summary.
pub open spec fn dry_run_notices(
    created: nat,
    updated: nat,
    default_branch: Seq<char>,
    infos: Seq<InfoView>,
    bs: Seq<StackBranch>,
) -> Seq<NoticeView> {
    (if infos.len() == 0 {
        seq![info("No branches to submit"@)]
    } else {
        Seq::empty()
    }) + seq![
        success(join(dry_run_lines(created, updated, default_branch, infos, bs), seq!['\n'])),
    ]
}

/// The dry-run summary: the information that there are no branches when
/// `branch_infos` is empty, then a success that lists the pull requests
/// that would be updated and those that would be created, with the base
/// each new one would have.
pub fn print_dry_run_summary(
    created: usize,
    updated: usize,
    default_branch: &str,
    branch_infos: &[BranchSubmitInfo],
    stack: &Stack,
) -> (notices: Vec<Notice>)
    ensures
        notices_view(notices@) == dry_run_notices(
            created as nat,
            updated as nat,
            default_branch@,
            infos_view(branch_infos@),
            stack.branches@,
        ),
{
    let mut notices: Vec<Notice> = Vec::new();
    if branch_infos.len() == 0 {
        notices.push(Notice { kind: NoticeKind::Info, text: String::from_str("No branches to submit") });
        assert(notices_view(notices@) =~= seq![info("No branches to submit"@)]);
    } else {
        assert(notices_view(notices@) =~= Seq::empty());
    }
    let mut parts: Vec<String> = Vec::new();
    let ghost bs = stack.branches@;
    let ghost d = default_branch@;
    let ghost upd = if updated > 0 {
        seq!["→ Would push "@ + decimal(updated as nat) + " branches:"@] + push_lines(infos_view(branch_infos@))
            + seq![Seq::<char>::empty()]
    } else {
        Seq::empty()
    };
    let ghost cre = if created > 0 {
        seq!["→ Would create "@ + decimal(created as nat) + " new PRs for branches:"@]
            + create_lines(infos_view(branch_infos@), bs, d) + seq![Seq::<char>::empty()]
    } else {
        Seq::empty()
    };
    if updated > 0 {
        let mut head = String::from_str("→ Would push ");
        let digits = string_of(&decimal_chars(updated as u64));
        head.append(digits.as_str());
        head.append(" branches:");
        parts.push(head);
        action_lines(&mut parts, branch_infos, SubmitAction::Updated, default_branch, stack);
        let ghost p1 = crate::stack::names_of(parts@);
        parts.push(String::new());
        assert(crate::stack::names_of(parts@) =~= p1.push(Seq::empty()));
    }
    assert(crate::stack::names_of(parts@) =~= upd);
    let ghost p2 = crate::stack::names_of(parts@);
    if created > 0 {
        let mut head = String::from_str("→ Would create ");
        let digits = string_of(&decimal_chars(created as u64));
        head.append(digits.as_str());
        head.append(" new PRs for branches:");
        parts.push(head);
        assert(crate::stack::names_of(parts@) =~= p2.push(head@));
        action_lines(&mut parts, branch_infos, SubmitAction::Created, default_branch, stack);
        let ghost p3 = crate::stack::names_of(parts@);
        parts.push(String::new());
        assert(crate::stack::names_of(parts@) =~= p3.push(Seq::empty()));
    }
    assert(crate::stack::names_of(parts@) =~= upd + cre);
    let ghost p4 = crate::stack::names_of(parts@);
    let last = String::from_str("(dry run - no changes made)");
    parts.push(last);
    assert(crate::stack::names_of(parts@) =~= p4.push("(dry run - no changes made)"@));
    assert(crate::stack::names_of(parts@) =~= dry_run_lines(
        created as nat,
        updated as nat,
        default_branch@,
        infos_view(branch_infos@),
        stack.branches@,
    ));
    let ghost n0 = notices_view(notices@);
    let text = join_strings(&parts);
    notices.push(Notice { kind: NoticeKind::Success, text });
    assert(notices_view(notices@) =~= n0.push(notices@.last()@));
    notices
}

/// The strings of `parts` joined by line feeds.
pub fn join_strings(parts: &Vec<String>) -> (r: String)
    ensures
        r@ == join(crate::stack::names_of(parts@), seq!['\n']),
{
    let mut v: Vec<Vec<char>> = Vec::new();
    let mut i: usize = 0;
    while i < parts.len()
        invariant
            i <= parts@.len(),
            v@.map_values(|p: Vec<char>| p@) =~= crate::stack::names_of(parts@).take(i as int),
        decreases parts.len() - i,
    {
        v.push(crate::text::chars_of(parts[i].as_str()));
        assert(crate::stack::names_of(parts@).take(i + 1) =~= crate::stack::names_of(parts@).take(
            i as int,
        ).push(parts@[i as int]@));
        i = i + 1;
    }
    assert(crate::stack::names_of(parts@).take(parts@.len() as int) =~= crate::stack::names_of(
        parts@,
    ));
    let mut nl: Vec<char> = Vec::new();
    nl.push('\n');
    assert(nl@ =~= seq!['\n']);
    string_of(&crate::text::join_chars(&v, &nl))
}

} // verus!
