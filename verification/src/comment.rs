//! The stack comment that each pull request of the stack carries: a list of
//! the related pull requests, newest first, ending with the base branch.
use vstd::prelude::*;

use crate::stack::{
    StackBranch, ancestry_ends, branch_chain, build_branch_chain, find_named, first_named,
    lemma_walk_bound, names_of, parent_of, step_up, up, walk, walk_ends,
};
use crate::text::{chars_of, decimal, decimal_chars, has_infix, has_infix_chars, join, string_of};

verus! {

/// Marker that identifies stack comments.
pub const STACK_COMMENT_MARKER: &'static str = "<!-- rung-stack -->";

/// A comment on a pull request: its id and its text, if it has one.
pub struct PrComment {
    pub id: u64,
    pub body: Option<String>,
}

/// `k` is the position of the first branch whose pull request is `pr`.
pub open spec fn is_first_with_pr(bs: Seq<StackBranch>, pr: u64, k: int) -> bool {
    &&& 0 <= k < bs.len()
    &&& bs[k].pr == Some(pr)
    &&& forall|j: int| 0 <= j < k ==> #[trigger] bs[j].pr != Some(pr)
}

/// The position of the first branch whose pull request is `pr`, if any.
pub open spec fn first_with_pr(bs: Seq<StackBranch>, pr: u64) -> Option<int> {
    if exists|k: int| is_first_with_pr(bs, pr, k) {
        Some(choose|k: int| is_first_with_pr(bs, pr, k))
    } else {
        None
    }
}

/// The name of the branch whose pull request is `pr`; empty when there is
/// none.
pub open spec fn current_name(bs: Seq<StackBranch>, pr: u64) -> Seq<char> {
    match first_with_pr(bs, pr) {
        Some(k) => bs[k].name@,
        None => Seq::empty(),
    }
}

/// Where the walk up from `name` stops, in at most `fuel` steps.
pub open spec fn climb(bs: Seq<StackBranch>, name: Seq<char>, fuel: nat) -> Seq<char>
    decreases fuel,
{
    if fuel == 0 {
        name
    } else {
        match up(bs, name) {
            Some(p) => climb(bs, p, (fuel - 1) as nat),
            None => name,
        }
    }
}

/// The base below the last name `z` of a walk: `z` itself when no branch has
/// that name, otherwise that branch's parent, or `main` when it records none.
pub open spec fn base_below(bs: Seq<StackBranch>, z: Seq<char>) -> Seq<char> {
    match first_named(bs, z) {
        None => z,
        Some(k) => match parent_of(bs[k]) {
            Some(p) => p,
            None => "main"@,
        },
    }
}

/// The base branch that the stack of pull request `pr` rests on.
pub open spec fn stack_base(bs: Seq<StackBranch>, pr: u64) -> Seq<char> {
    match first_with_pr(bs, pr) {
        None => "main"@,
        Some(k) => match parent_of(bs[k]) {
            None => "main"@,
            Some(p) => base_below(bs, climb(bs, p, (bs.len() + 1) as nat)),
        },
    }
}

/// The pointer that marks the entry of the commented pull request.
pub open spec fn pointer(is_current: bool) -> Seq<char> {
    if is_current {
        " 👈"@
    } else {
        Seq::empty()
    }
}

/// The line of the comment for branch `b`, listed under `name`.
pub open spec fn entry_line(b: StackBranch, name: Seq<char>, is_current: bool) -> Seq<char> {
    match b.pr {
        Some(n) => "* **#"@ + decimal(n as nat) + "**"@ + pointer(is_current) + "\n"@,
        None => "* *(pending)* `"@ + name + "`"@ + pointer(is_current) + "\n"@,
    }
}

/// The line for the chain entry `name`: empty when no branch has that name.
pub open spec fn chain_line(bs: Seq<StackBranch>, name: Seq<char>, current: Seq<char>) -> Seq<
    char,
> {
    match first_named(bs, name) {
        Some(k) => entry_line(bs[k], name, name == current),
        None => Seq::empty(),
    }
}

/// The lines of the chain, newest first.
pub open spec fn chain_lines(bs: Seq<StackBranch>, pr: u64) -> Seq<Seq<char>> {
    let cur = current_name(bs, pr);
    let chain = branch_chain(bs, cur);
    Seq::new(chain.len(), |i: int| chain_line(bs, chain[chain.len() - 1 - i], cur))
}

/// The comment for pull request `pr`.
pub open spec fn stack_comment(bs: Seq<StackBranch>, pr: u64) -> Seq<char> {
    STACK_COMMENT_MARKER@ + "\n"@ + join(chain_lines(bs, pr), Seq::empty()) + "* `"@
        + stack_base(bs, pr) + "`\n"@ + "\n---\n*Managed by [rung](https://github.com/auswm85/rung)*"@
}

/// The comment of pull request `pr` is defined: both walks it takes, from
/// the branch and from its parent, come to an end.
pub open spec fn comment_defined(bs: Seq<StackBranch>, pr: u64) -> bool {
    &&& walk_ends(bs, current_name(bs, pr))
    &&& (match first_with_pr(bs, pr) {
        Some(k) => match parent_of(bs[k]) {
            Some(p) => walk_ends(bs, p),
            None => true,
        },
        None => true,
    })
}

/// The comment is a stack comment: it holds the marker.
pub open spec fn is_stack_comment(c: PrComment) -> bool {
    match c.body {
        Some(b) => has_infix(b@, STACK_COMMENT_MARKER@),
        None => false,
    }
}

proof fn lemma_first_with_pr(bs: Seq<StackBranch>, pr: u64, k: int)
    requires
        is_first_with_pr(bs, pr, k),
    ensures
        first_with_pr(bs, pr) == Some(k),
{
    let k2 = choose|k2: int| is_first_with_pr(bs, pr, k2);
    if k2 < k {
        assert(bs[k2].pr != Some(pr));
    } else if k < k2 {
        assert(bs[k].pr != Some(pr));
    }
}

/// The position of the first branch whose pull request is `pr`.
pub fn find_with_pr(bs: &[StackBranch], pr: u64) -> (r: Option<usize>)
    ensures
        match r {
            Some(k) => first_with_pr(bs@, pr) == Some(k as int),
            None => first_with_pr(bs@, pr) is None,
        },
{
    let mut i: usize = 0;
    while i < bs.len()
        invariant
            i <= bs@.len(),
            forall|j: int| 0 <= j < i ==> #[trigger] bs@[j].pr != Some(pr),
        decreases bs.len() - i,
    {
        if bs[i].pr == Some(pr) {
            proof {
                lemma_first_with_pr(bs@, pr, i as int);
            }
            return Some(i);
        }
        i = i + 1;
    }
    None
}

/// Whether the comment of pull request `pr` is defined (see
/// `comment_defined`).
pub fn stack_comment_defined(branches: &[StackBranch], current_pr: u64) -> (r: bool)
    ensures
        r == comment_defined(branches@, current_pr),
{
    let (name, parent) = match find_with_pr(branches, current_pr) {
        Some(k) => (branches[k].name.clone(), branches[k].parent.clone()),
        None => (String::new(), None),
    };
    if !ancestry_ends(branches, &name) {
        return false;
    }
    match parent {
        Some(p) => ancestry_ends(branches, &p),
        None => true,
    }
}

/// The base below the walk up from `start` (see `stack_base`).
fn base_from(bs: &[StackBranch], start: &String) -> (r: String)
    requires
        walk_ends(bs@, start@),
    ensures
        r@ == base_below(bs@, climb(bs@, start@, (bs@.len() + 1) as nat)),
{
    let ghost n = (bs@.len() + 1) as nat;
    proof {
        lemma_walk_bound(bs@, start@);
    }
    let mut cur = start.clone();
    let ghost mut k: nat = 0;
    loop
        invariant
            k <= n,
            n == bs@.len() + 1,
            climb(bs@, start@, n) == climb(bs@, cur@, (n - k) as nat),
            walk(bs@, cur@, (n - k) as nat) is None,
        ensures
            climb(bs@, start@, n) == cur@,
            up(bs@, cur@) is None,
        decreases n - k,
    {
        match step_up(bs, &cur) {
            None => {
                assert((n - k) as nat > 0);
                break ;
            },
            Some(p) => {
                assert(walk(bs@, cur@, (n - k) as nat) == walk(bs@, p@, (n - k - 1) as nat));
                cur = p;
                proof {
                    k = k + 1;
                }
            },
        }
    }
    match find_named(bs, &cur) {
        None => cur,
        Some(j) => match &bs[j].parent {
            Some(p) => p.clone(),
            None => String::from_str("main"),
        },
    }
}

/// Generates the stack comment for pull request `current_pr`: the marker,
/// one line per branch of the chain of that pull request's branch, newest
/// first (its pull request number, or its name while it has none, and a
/// pointer on the commented one), then the base branch and a footer.
pub fn generate_stack_comment(branches: &[StackBranch], current_pr: u64) -> (comment: String)
    requires
        comment_defined(branches@, current_pr),
    ensures
        comment@ == stack_comment(branches@, current_pr),
{
    let ghost bs = branches@;
    let mut comment = String::from_str(STACK_COMMENT_MARKER);
    comment.append("\n");
    let current = find_with_pr(branches, current_pr);
    let current_name = match current {
        Some(k) => branches[k].name.clone(),
        None => String::new(),
    };
    assert(current_name@ == crate::comment::current_name(bs, current_pr));
    let chain = build_branch_chain(branches, current_name.as_str());
    let ghost lines = chain_lines(bs, current_pr);
    let ghost head = comment@;
    let mut i: usize = chain.len();
    while i > 0
        invariant
            i <= chain@.len(),
            bs == branches@,
            names_of(chain@) == branch_chain(bs, current_name@),
            current_name@ == crate::comment::current_name(bs, current_pr),
            lines == chain_lines(bs, current_pr),
            lines.len() == chain@.len(),
            comment@ == head + join(lines.take(chain@.len() - i), Seq::empty()),
        decreases i,
    {
        i = i - 1;
        let name = &chain[i];
        let ghost before = comment@;
        assert(names_of(chain@)[i as int] == name@);
        assert(lines[chain@.len() - 1 - i] == chain_line(bs, name@, current_name@));
        match find_named(branches, name) {
            Some(k) => {
                let b = &branches[k];
                let is_current = *name == current_name;
                match b.pr {
                    Some(n) => {
                        comment.append("* **#");
                        let digits = string_of(&decimal_chars(n));
                        comment.append(digits.as_str());
                        comment.append("**");
                    },
                    None => {
                        comment.append("* *(pending)* `");
                        comment.append(name.as_str());
                        comment.append("`");
                    },
                }
                if is_current {
                    comment.append(" 👈");
                }
                comment.append("\n");
                proof {
                    assert(comment@ =~= before + entry_line(*b, name@, is_current));
                }
            },
            None => {
                assert(comment@ =~= before + Seq::<char>::empty());
            },
        }
        proof {
            let t = lines.take(chain@.len() - i);
            assert(t.drop_last() =~= lines.take(chain@.len() - i - 1));
            assert(t.last() == lines[chain@.len() - 1 - i]);
            crate::text::lemma_join_push(t.drop_last(), Seq::empty(), t.last());
            assert(t.drop_last().push(t.last()) =~= t);
            if t.drop_last().len() > 0 {
                assert(join(t.drop_last(), Seq::empty()) + Seq::<char>::empty() =~= join(
                    t.drop_last(),
                    Seq::empty(),
                ));
            }
        }
    }
    assert(lines.take(chain@.len() as int) =~= lines);
    comment.append("* `");
    let base = match current {
        None => String::from_str("main"),
        Some(k) => match &branches[k].parent {
            None => String::from_str("main"),
            Some(p) => base_from(branches, p),
        },
    };
    comment.append(base.as_str());
    comment.append("`\n");
    comment.append("\n---\n*Managed by [rung](https://github.com/auswm85/rung)*");
    comment
}

/// The position of the first comment that holds the stack comment marker.
pub fn find_stack_comment(comments: &Vec<PrComment>) -> (r: Option<usize>)
    ensures
        match r {
            Some(k) => k < comments@.len() && is_stack_comment(comments@[k as int]) && forall|
                j: int,
            | 0 <= j < k ==> !is_stack_comment(#[trigger] comments@[j]),
            None => forall|j: int|
                0 <= j < comments@.len() ==> !is_stack_comment(#[trigger] comments@[j]),
        },
{
    let marker = chars_of(STACK_COMMENT_MARKER);
    let mut i: usize = 0;
    while i < comments.len()
        invariant
            i <= comments@.len(),
            marker@ == STACK_COMMENT_MARKER@,
            forall|j: int| 0 <= j < i ==> !is_stack_comment(#[trigger] comments@[j]),
        decreases comments.len() - i,
    {
        let found = match &comments[i].body {
            Some(b) => has_infix_chars(&chars_of(b.as_str()), &marker),
            None => false,
        };
        if found {
            return Some(i);
        }
        i = i + 1;
    }
    None
}

} // verus!
