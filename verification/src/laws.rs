//! Properties that hold of the library as a whole: of the chain of related
//! branches, of the stack comment, and of every step of a submit run.
use vstd::prelude::*;

use crate::comment::{
    STACK_COMMENT_MARKER, chain_line, chain_lines, climb, comment_defined, current_name,
    entry_line, first_with_pr, is_first_with_pr, stack_base, stack_comment,
};
use crate::report::{InfoView, SubmitAction};
use crate::session::{
    EventView, OpView, PhaseView, RequestView, SessionView, accepts, base_of, comments_from,
    count_action, counts_ok, cur, finish, next, next_branch, next_with_pr, record,
    record_existing, wf,
};
use crate::text::{decimal, has_infix, is_space, join, occurs_at, split_on, words};
use crate::title::{dashes_to_spaces, last_segment, title_and_body, title_words};
use crate::stack::{
    StackBranch, adopt, ancestors, branch_chain, first_named, has_named, is_first_named,
    lemma_ancestors_walk, lemma_distinct_within, lemma_first_named, lemma_lineage_distinct,
    lemma_walk_bound, lemma_walk_compose, lemma_walk_named, lemma_walk_stops, lineage, parent_of,
    spread, up, walk, walk_ends,
};

verus! {

// ------------------------------------------------------------ the chain

/// A child of `p` among the branches: a branch whose recorded parent is `p`.
pub open spec fn child_named(bs: Seq<StackBranch>, p: Seq<char>, name: Seq<char>) -> bool {
    exists|m: int| 0 <= m < bs.len() && #[trigger] bs[m].name@ == name && parent_of(bs[m]) == Some(p)
}

/// Some entry of `r` before position `k` is the parent of a branch named
/// `r[k]`.
pub open spec fn has_earlier_parent(bs: Seq<StackBranch>, r: Seq<Seq<char>>, k: int) -> bool {
    exists|j: int| 0 <= j < k && #[trigger] child_named(bs, r[j], r[k])
}

/// From position `from` on, no entry of `r` repeats an earlier one.
pub open spec fn fresh_from(r: Seq<Seq<char>>, from: int) -> bool {
    forall|k: int, j: int| from <= k < r.len() && 0 <= j < k ==> #[trigger] r[j] != #[trigger] r[k]
}

/// Every branch whose parent is one of the first `upto` entries of `chain`
/// is in `chain`.
pub open spec fn children_in(bs: Seq<StackBranch>, chain: Seq<Seq<char>>, upto: int) -> bool {
    forall|j: int, m: int|
        0 <= j < upto && 0 <= m < bs.len() && parent_of(#[trigger] bs[m]) == Some(#[trigger] chain[j])
            ==> chain.contains(bs[m].name@)
}

proof fn lemma_adopt(bs: Seq<StackBranch>, chain: Seq<Seq<char>>, p: Seq<char>)
    ensures
        ({
            let r = adopt(bs, chain, p);
            &&& r.len() >= chain.len()
            &&& forall|k: int| 0 <= k < chain.len() ==> #[trigger] r[k] == chain[k]
            &&& forall|k: int, j: int|
                chain.len() <= k < r.len() && 0 <= j < k ==> #[trigger] r[j] != #[trigger] r[k]
            &&& forall|k: int| chain.len() <= k < r.len() ==> child_named(bs, p, #[trigger] r[k])
            &&& forall|m: int|
                0 <= m < bs.len() && parent_of(#[trigger] bs[m]) == Some(p) ==> r.contains(
                    bs[m].name@,
                )
        }),
    decreases bs.len(),
{
    if bs.len() > 0 {
        let d = bs.drop_last();
        lemma_adopt(d, chain, p);
        let c = adopt(d, chain, p);
        let b = bs.last();
        let r = adopt(bs, chain, p);
        assert forall|k: int| chain.len() <= k < r.len() implies child_named(bs, p, #[trigger] r[k]) by {
            if k < c.len() {
                assert(child_named(d, p, c[k]));
                let m = choose|m: int| 0 <= m < d.len() && #[trigger] d[m].name@ == c[k] && parent_of(d[m]) == Some(p);
                assert(bs[m] == d[m]);
            } else {
                assert(bs[bs.len() - 1] == b);
            }
        }
        assert forall|m: int| 0 <= m < bs.len() && parent_of(#[trigger] bs[m]) == Some(p) implies r.contains(
            bs[m].name@,
        ) by {
            if m < d.len() {
                assert(d[m] == bs[m]);
                assert(c.contains(bs[m].name@));
                let q = choose|q: int| 0 <= q < c.len() && c[q] == bs[m].name@;
                assert(r[q] == c[q]);
            } else {
                if !c.contains(b.name@) {
                    assert(r[r.len() - 1] == b.name@);
                }
            }
        }
        assert forall|k: int, j: int| chain.len() <= k < r.len() && 0 <= j < k implies #[trigger] r[j]
            != #[trigger] r[k] by {
            if k < c.len() {
            } else {
                assert(r[j] == c[j]);
                assert(!c.contains(b.name@));
            }
        }
    }
}

proof fn lemma_spread(bs: Seq<StackBranch>, chain: Seq<Seq<char>>, i: nat, fuel: nat)
    requires
        i <= chain.len(),
    ensures
        ({
            let r = spread(bs, chain, i, fuel);
            &&& r.len() >= chain.len()
            &&& forall|k: int| 0 <= k < chain.len() ==> #[trigger] r[k] == chain[k]
            &&& forall|k: int, j: int|
                chain.len() <= k < r.len() && 0 <= j < k ==> #[trigger] r[j] != #[trigger] r[k]
            &&& forall|k: int| chain.len() <= k < r.len() ==> #[trigger] has_earlier_parent(bs, r, k)
            &&& children_in(bs, chain, i as int) ==> (r.len() > i + fuel || children_in(
                bs,
                r,
                r.len() as int,
            ))
        }),
    decreases fuel,
{
    let r = spread(bs, chain, i, fuel);
    if fuel == 0 || i >= chain.len() {
        if i >= chain.len() && children_in(bs, chain, i as int) {
            assert forall|j: int, m: int|
                0 <= j < r.len() && 0 <= m < bs.len() && parent_of(#[trigger] bs[m]) == Some(
                    #[trigger] r[j],
                ) implies r.contains(bs[m].name@) by {
                assert(chain[j] == r[j]);
            }
        }
    } else {
        let c2 = adopt(bs, chain, chain[i as int]);
        lemma_adopt(bs, chain, chain[i as int]);
        lemma_spread(bs, c2, i + 1, (fuel - 1) as nat);
        assert forall|k: int| 0 <= k < chain.len() implies #[trigger] r[k] == chain[k] by {
            assert(r[k] == c2[k]);
        }
        assert forall|k: int, j: int| chain.len() <= k < r.len() && 0 <= j < k implies #[trigger] r[j]
            != #[trigger] r[k] by {
            if k >= c2.len() {
            } else {
                assert(r[j] == c2[j]);
                assert(r[k] == c2[k]);
            }
        }
        assert forall|k: int| chain.len() <= k < r.len() implies #[trigger] has_earlier_parent(bs, r, k) by {
            if k >= c2.len() {
                assert(has_earlier_parent(bs, r, k));
            } else {
                assert(r[k] == c2[k]);
                assert(child_named(bs, chain[i as int], c2[k]));
                assert(r[i as int] == chain[i as int]);
                assert(child_named(bs, r[i as int], r[k]));
            }
        }
        if children_in(bs, chain, i as int) {
            assert forall|j: int, m: int|
                0 <= j < i + 1 && 0 <= m < bs.len() && parent_of(#[trigger] bs[m]) == Some(
                    #[trigger] c2[j],
                ) implies c2.contains(bs[m].name@) by {
                assert(c2[j] == chain[j]);
                if j < i {
                    assert(chain.contains(bs[m].name@));
                    let q = choose|q: int| 0 <= q < chain.len() && chain[q] == bs[m].name@;
                    assert(c2[q] == chain[q]);
                }
            }
        }
    }
}

/// The chain of a branch begins with its lineage: the branch's ancestors,
/// oldest first (each the recorded parent of the next), then the branch
/// itself.
pub proof fn law_chain_starts_with_lineage(bs: Seq<StackBranch>, name: Seq<char>)
    requires
        walk_ends(bs, name),
    ensures
        branch_chain(bs, name).len() >= lineage(bs, name).len(),
        branch_chain(bs, name).take(lineage(bs, name).len() as int) == lineage(bs, name),
        lineage(bs, name).last() == name,
        forall|k: int|
            0 <= k < lineage(bs, name).len() - 1 ==> up(bs, #[trigger] lineage(bs, name)[k + 1])
                == Some(lineage(bs, name)[k]),
{
    let l = lineage(bs, name);
    lemma_spread(bs, l, 0, (l.len() + bs.len()) as nat);
    assert(branch_chain(bs, name).take(l.len() as int) =~= l);
    let n = (bs.len() + 1) as nat;
    let a = ancestors(bs, name, n);
    lemma_ancestors_walk(bs, name, n);
    let m = a.len();
    assert forall|k: int| 0 <= k < l.len() - 1 implies up(bs, #[trigger] l[k + 1]) == Some(l[k]) by {
        // l[k] is reached from `name` in m - k steps, l[k + 1] in one step fewer
        assert(l[k] == a[m - 1 - k]);
        let w1 = walk(bs, name, (m - k) as nat);
        assert(((m - 1 - k) + 1) as nat == (m - k) as nat);
        assert(w1 == Some(l[k]));
        if k + 1 < m {
            assert(l[k + 1] == a[m - 2 - k]);
            assert(((m - 2 - k) + 1) as nat == (m - k - 1) as nat);
        } else {
            assert(l[k + 1] == name);
        }
        let w0 = walk(bs, name, (m - k - 1) as nat);
        assert(w0 == Some(l[k + 1]));
        lemma_walk_compose(bs, name, (m - k - 1) as nat, 1);
        assert(((m - k - 1) + 1) as nat == (m - k) as nat);
        assert(walk(bs, l[k + 1], 1) == match up(bs, l[k + 1]) {
            Some(p) => walk(bs, p, 0),
            None => None,
        });
    }
}

/// No branch appears twice in a chain.
pub proof fn law_chain_distinct(bs: Seq<StackBranch>, name: Seq<char>)
    requires
        walk_ends(bs, name),
    ensures
        branch_chain(bs, name).no_duplicates(),
{
    let l = lineage(bs, name);
    let r = branch_chain(bs, name);
    lemma_lineage_distinct(bs, name);
    lemma_spread(bs, l, 0, (l.len() + bs.len()) as nat);
    assert forall|i: int, j: int| 0 <= i < r.len() && 0 <= j < r.len() && i != j implies r[i]
        != r[j] by {
        if i < l.len() && j < l.len() {
            assert(r[i] == l[i] && r[j] == l[j]);
        } else if i < j {
            assert(r[i] != r[j]);
        } else {
            assert(r[j] != r[i]);
        }
    }
}

/// Every entry of a chain after the lineage is a child of an earlier entry:
/// a branch whose recorded parent comes before it.
pub proof fn law_chain_descendants(bs: Seq<StackBranch>, name: Seq<char>)
    requires
        walk_ends(bs, name),
    ensures
        forall|k: int|
            lineage(bs, name).len() <= k < branch_chain(bs, name).len() ==> #[trigger] has_earlier_parent(
                bs,
                branch_chain(bs, name),
                k,
            ),
{
    let l = lineage(bs, name);
    lemma_spread(bs, l, 0, (l.len() + bs.len()) as nat);
}

/// A chain holds all descendants of its entries: every branch whose recorded
/// parent is in the chain is in the chain too.
pub proof fn law_chain_closed(bs: Seq<StackBranch>, name: Seq<char>)
    requires
        walk_ends(bs, name),
    ensures
        forall|m: int|
            0 <= m < bs.len() && (#[trigger] parent_of(bs[m])) is Some && branch_chain(
                bs,
                name,
            ).contains(parent_of(bs[m])->0) ==> branch_chain(bs, name).contains(bs[m].name@),
{
    let l = lineage(bs, name);
    let f = (l.len() + bs.len()) as nat;
    let r = branch_chain(bs, name);
    lemma_spread(bs, l, 0, f);
    // the entries after the lineage are distinct names of the stack, so the
    // chain is never longer than the fuel
    let t = bs.map_values(|b: StackBranch| b.name@);
    let extra = r.skip(l.len() as int);
    assert forall|q: int| 0 <= q < extra.len() implies t.contains(#[trigger] extra[q]) by {
        let k = q + l.len();
        assert(extra[q] == r[k]);
        assert(has_earlier_parent(bs, r, k));
        let j = choose|j: int| 0 <= j < k && #[trigger] child_named(bs, r[j], r[k]);
        let m = choose|m: int| 0 <= m < bs.len() && #[trigger] bs[m].name@ == r[k] && parent_of(bs[m]) == Some(r[j]);
        assert(t[m] == extra[q]);
    }
    assert forall|a: int, b: int| 0 <= a < extra.len() && 0 <= b < extra.len() && a != b implies extra[a]
        != extra[b] by {
        let ka = a + l.len();
        let kb = b + l.len();
        if a < b {
            assert(r[ka] != r[kb]);
        } else {
            assert(r[kb] != r[ka]);
        }
    }
    lemma_distinct_within(extra, t);
    assert(children_in(bs, r, r.len() as int));
    assert forall|m: int|
        0 <= m < bs.len() && (#[trigger] parent_of(bs[m])) is Some && r.contains(parent_of(bs[m])->0)
            implies r.contains(bs[m].name@) by {
        let j = choose|j: int| 0 <= j < r.len() && r[j] == parent_of(bs[m])->0;
        assert(parent_of(bs[m]) == Some(r[j]));
    }
}

// ------------------------------------------------------------ the comment

/// A generated stack comment is recognized as one: it holds the marker, so
/// the next submit updates it instead of adding another.
pub proof fn law_comment_recognized(bs: Seq<StackBranch>, pr: u64)
    ensures
        has_infix(stack_comment(bs, pr), STACK_COMMENT_MARKER@),
{
    let c = stack_comment(bs, pr);
    let m = STACK_COMMENT_MARKER@;
    assert(c.subrange(0, m.len() as int) =~= m);
    assert(occurs_at(c, m, 0));
}

/// Each part of a concatenation occurs in it.
proof fn lemma_part_in_join(parts: Seq<Seq<char>>, i: int)
    requires
        0 <= i < parts.len(),
    ensures
        has_infix(join(parts, Seq::empty()), parts[i]),
    decreases parts.len(),
{
    let d = parts.drop_last();
    let x = parts.last();
    let j = join(parts, Seq::empty());
    assert(d.push(x) =~= parts);
    crate::text::lemma_join_push(d, Seq::empty(), x);
    let jd = join(d, Seq::empty());
    if d.len() == 0 {
        assert(j == x);
        assert(j.subrange(0, x.len() as int) =~= x);
        assert(occurs_at(j, parts[i], 0));
    } else {
        assert(j =~= jd + x);
        if i == parts.len() - 1 {
            assert(j.subrange(jd.len() as int, (jd.len() + x.len()) as int) =~= x);
            assert(occurs_at(j, parts[i], jd.len() as int));
        } else {
            lemma_part_in_join(d, i);
            let q = choose|q: int| occurs_at(jd, d[i], q);
            assert(j.subrange(q, q + d[i].len()) =~= jd.subrange(q, q + d[i].len()));
            assert(occurs_at(j, parts[i], q));
        }
    }
}

/// The stack comment of a pull request has a line for every entry of the
/// chain of its branch.
pub proof fn law_comment_lists_chain(bs: Seq<StackBranch>, pr: u64, k: int)
    requires
        comment_defined(bs, pr),
        0 <= k < branch_chain(bs, current_name(bs, pr)).len(),
    ensures
        has_infix(
            stack_comment(bs, pr),
            chain_line(bs, branch_chain(bs, current_name(bs, pr))[k], current_name(bs, pr)),
        ),
{
    let cur = current_name(bs, pr);
    let chain = branch_chain(bs, cur);
    let lines = chain_lines(bs, pr);
    let i = chain.len() - 1 - k;
    assert(lines[i] == chain_line(bs, chain[k], cur));
    lemma_part_in_join(lines, i);
    let body = join(lines, Seq::empty());
    let q = choose|q: int| occurs_at(body, lines[i], q);
    let pre = STACK_COMMENT_MARKER@ + "\n"@;
    let c = stack_comment(bs, pr);
    let rest = "* `"@ + crate::comment::stack_base(bs, pr) + "`\n"@
        + "\n---\n*Managed by [rung](https://github.com/auswm85/rung)*"@;
    assert(c =~= pre + body + rest);
    let at = pre.len() + q;
    assert(c.subrange(at, at + lines[i].len()) =~= body.subrange(q, q + lines[i].len()));
    assert(occurs_at(c, lines[i], at));
}

/// The comment of a pull request points at it: when branch names are
/// unique, it holds the line `* **#<number>** 👈` of that pull request.
pub proof fn law_comment_points_at_its_pr(bs: Seq<StackBranch>, pr: u64)
    requires
        comment_defined(bs, pr),
        first_with_pr(bs, pr) is Some,
        forall|a: int, b: int|
            0 <= a < bs.len() && 0 <= b < bs.len() && a != b ==> #[trigger] bs[a].name@
                != #[trigger] bs[b].name@,
    ensures
        has_infix(stack_comment(bs, pr), "* **#"@ + decimal(pr as nat) + "**"@ + " 👈"@ + "\n"@),
{
    let cur = current_name(bs, pr);
    let k = first_with_pr(bs, pr)->0;
    assert(is_first_with_pr(bs, pr, k));
    law_chain_starts_with_lineage(bs, cur);
    let l = lineage(bs, cur);
    let chain = branch_chain(bs, cur);
    let j = l.len() - 1;
    assert(chain[j] == l[j]);
    assert(chain[j] == cur);
    crate::stack::lemma_first_named(bs, cur, k);
    assert(chain_line(bs, cur, cur) == entry_line(bs[k], cur, true));
    law_comment_lists_chain(bs, pr, j);
}

// ------------------------------------------------------------ titles

proof fn lemma_split_pieces(s: Seq<char>, sep: char)
    ensures
        forall|i: int, k: int|
            0 <= i < split_on(s, sep).len() && 0 <= k < split_on(s, sep)[i].len() ==> #[trigger] split_on(
                s,
                sep,
            )[i][k] != sep && s.contains(split_on(s, sep)[i][k]),
    decreases s.len(),
{
    if s.len() > 0 {
        let d = s.drop_last();
        lemma_split_pieces(d, sep);
        crate::text::lemma_split_on_nonempty(d, sep);
        let p = split_on(d, sep);
        let r = split_on(s, sep);
        assert forall|i: int, k: int| 0 <= i < r.len() && 0 <= k < r[i].len() implies #[trigger] r[i][k]
            != sep && s.contains(r[i][k]) by {
            if s.last() == sep {
                if i < p.len() {
                    assert(r[i] == p[i]);
                    let q = choose|q: int| 0 <= q < d.len() && d[q] == p[i][k];
                    assert(s[q] == d[q]);
                }
            } else {
                if i < p.len() - 1 {
                    assert(r[i] == p[i]);
                    let q = choose|q: int| 0 <= q < d.len() && d[q] == p[i][k];
                    assert(s[q] == d[q]);
                } else {
                    assert(r[i] == p.last().push(s.last()));
                    if k < p.last().len() {
                        assert(r[i][k] == p[p.len() - 1][k]);
                        let q = choose|q: int| 0 <= q < d.len() && d[q] == p[p.len() - 1][k];
                        assert(s[q] == d[q]);
                    } else {
                        assert(s[s.len() - 1] == s.last());
                    }
                }
            }
        }
    }
}

proof fn lemma_word_chars(s: Seq<char>)
    ensures
        forall|i: int, k: int|
            0 <= i < words(s).len() && 0 <= k < words(s)[i].len() ==> !is_space(#[trigger] words(s)[i][k])
                && s.contains(words(s)[i][k]),
    decreases s.len(),
{
    if s.len() > 0 {
        let d = s.drop_last();
        lemma_word_chars(d);
        let w = words(d);
        let r = words(s);
        let c = s.last();
        if !is_space(c) && s.len() >= 2 && !is_space(s[s.len() - 2]) {
            crate::text::lemma_words_last(d);
            assert(d.last() == s[s.len() - 2]);
        }
        assert forall|i: int, k: int| 0 <= i < r.len() && 0 <= k < r[i].len() implies !is_space(
            #[trigger] r[i][k],
        ) && s.contains(r[i][k]) by {
            assert(s[s.len() - 1] == c);
            if is_space(c) {
                let q = choose|q: int| 0 <= q < d.len() && d[q] == w[i][k];
                assert(s[q] == d[q]);
            } else if s.len() >= 2 && !is_space(s[s.len() - 2]) {
                if i < w.len() - 1 {
                    assert(r[i] == w[i]);
                    let q = choose|q: int| 0 <= q < d.len() && d[q] == w[i][k];
                    assert(s[q] == d[q]);
                } else if k < w.last().len() {
                    assert(r[i][k] == w[w.len() - 1][k]);
                    let q = choose|q: int| 0 <= q < d.len() && d[q] == w[w.len() - 1][k];
                    assert(s[q] == d[q]);
                }
            } else {
                if i < w.len() {
                    assert(r[i] == w[i]);
                    let q = choose|q: int| 0 <= q < d.len() && d[q] == w[i][k];
                    assert(s[q] == d[q]);
                }
            }
        }
    }
}

/// The words of a title made from a branch name hold no whitespace and no
/// `-`, `_` or `/`: the name is cut at its last `/` and its dashes and
/// underscores separate words.
pub proof fn law_title_words_plain(branch: Seq<char>)
    ensures
        forall|i: int, k: int|
            0 <= i < title_words(branch).len() && 0 <= k < title_words(branch)[i].len() ==> {
                let c = #[trigger] title_words(branch)[i][k];
                !is_space(c) && c != '-' && c != '_' && c != '/'
            },
{
    crate::text::lemma_split_on_nonempty(branch, '/');
    lemma_split_pieces(branch, '/');
    let seg = last_segment(branch);
    let p = split_on(branch, '/');
    assert(seg == p[p.len() - 1]);
    let sp = dashes_to_spaces(seg);
    lemma_word_chars(sp);
    let ws = title_words(branch);
    assert forall|i: int, k: int| 0 <= i < ws.len() && 0 <= k < ws[i].len() implies {
        let c = #[trigger] ws[i][k];
        !is_space(c) && c != '-' && c != '_' && c != '/'
    } by {
        let c = ws[i][k];
        assert(!is_space(c) && sp.contains(c));
        let q = choose|q: int| 0 <= q < sp.len() && sp[q] == c;
        assert(sp[q] == (if seg[q] == '-' || seg[q] == '_' { ' ' } else { seg[q] }));
        assert(is_space(' '));
        assert(seg[q] == p[p.len() - 1][q]);
    }
}

// ------------------------------------------------------------ the run

/// An operation that changes something: a push, a pull request, a comment,
/// or the saved stack.
pub open spec fn changes_something(op: OpView) -> bool {
    ||| op is Push
    ||| op is UpdatePrBase
    ||| op is CreatePr
    ||| op is SaveStack
    ||| op is UpdateComment
    ||| op is CreateComment
}

/// A dry run makes no changes: no step of it pushes, updates or creates a
/// pull request or a comment, or saves the stack.
pub proof fn law_dry_run_changes_nothing(s: SessionView, e: EventView)
    requires
        wf(s),
        accepts(s, e),
        s.config.dry_run,
    ensures
        !changes_something(next(s, e).1.op),
{
}

/// With JSON output no step prints a notice.
pub proof fn law_json_prints_no_notice(s: SessionView, e: EventView)
    requires
        wf(s),
        accepts(s, e),
        s.config.json,
    ensures
        next(s, e).1.notices.len() == 0,
{
}

proof fn lemma_count_push(infos: Seq<InfoView>, x: InfoView, a: SubmitAction)
    ensures
        count_action(infos.push(x), a) == count_action(infos, a) + if x.action == a {
            1nat
        } else {
            0nat
        },
{
    assert(infos.push(x).drop_last() =~= infos);
}

proof fn lemma_record_existing(s: SessionView, n: u64)
    requires
        counts_ok(s),
        s.index < s.branches.len(),
    ensures
        counts_ok(record_existing(s, n)),
        record_existing(s, n).branches == s.branches,
        record_existing(s, n).config == s.config,
{
    let r = record_existing(s, n);
    lemma_count_push(s.infos, r.infos.last(), SubmitAction::Created);
    lemma_count_push(s.infos, r.infos.last(), SubmitAction::Updated);
}

proof fn lemma_record(s: SessionView, number: Option<u64>, was_created: bool, url: Option<Seq<char>>)
    requires
        counts_ok(s),
        s.index < s.branches.len(),
    ensures
        counts_ok(record(s, number, was_created, url)),
        record(s, number, was_created, url).config == s.config,
        record(s, number, was_created, url).branches.len() == s.branches.len(),
        forall|i: int|
            0 <= i < s.branches.len() && i != s.index ==> #[trigger] record(
                s,
                number,
                was_created,
                url,
            ).branches[i] == s.branches[i],
        record(s, number, was_created, url).branches[s.index as int].name == cur(s).name,
        record(s, number, was_created, url).branches[s.index as int].parent == cur(s).parent,
{
    let r = record(s, number, was_created, url);
    lemma_count_push(s.infos, r.infos.last(), SubmitAction::Created);
    lemma_count_push(s.infos, r.infos.last(), SubmitAction::Updated);
}

proof fn lemma_next_with_pr(bs: Seq<StackBranch>, j: nat)
    ensures
        next_with_pr(bs, j) matches Some(k) ==> j <= k < bs.len() && bs[k as int].pr is Some,
    decreases bs.len() - j,
{
    if j < bs.len() && bs[j as int].pr is None {
        lemma_next_with_pr(bs, j + 1);
    }
}

proof fn lemma_finish(s: SessionView)
    requires
        counts_ok(s),
    ensures
        wf(finish(s).0),
        finish(s).0.branches == s.branches,
        finish(s).1.op matches OpView::Output { output } ==> output.prs_created == s.created
            && output.prs_updated == s.updated && output.branches == s.infos,
{
}

proof fn lemma_comments_from(s: SessionView, j: nat)
    requires
        counts_ok(s),
        !s.config.dry_run,
    ensures
        wf(comments_from(s, j).0),
        comments_from(s, j).0.branches == s.branches,
        comments_from(s, j).1.op matches OpView::Output { output } ==> output.prs_created
            == s.created && output.prs_updated == s.updated && output.branches == s.infos,
{
    lemma_next_with_pr(s.branches, j);
    lemma_finish(s);
}

proof fn lemma_next_branch(s: SessionView)
    requires
        counts_ok(s),
    ensures
        wf(next_branch(s).0),
        next_branch(s).0.branches == s.branches,
        next_branch(s).1.op matches OpView::Output { output } ==> output.prs_created == s.created
            && output.prs_updated == s.updated && output.branches == s.infos,
{
    lemma_finish(s);
}

proof fn lemma_next_with_pr_skips(bs: Seq<StackBranch>, j: nat)
    ensures
        match next_with_pr(bs, j) {
            Some(k) => forall|i: int| j <= i < k ==> (#[trigger] bs[i]).pr is None,
            None => forall|i: int| j <= i < bs.len() ==> (#[trigger] bs[i]).pr is None,
        },
    decreases bs.len() - j,
{
    if j < bs.len() && bs[j as int].pr is None {
        lemma_next_with_pr_skips(bs, j + 1);
    }
}

/// Stack comments are written on every pull request of the stack, in stack
/// order: from branch `j` on, the comments listed next are those of the
/// first branch that has a pull request, and the run only finishes when no
/// branch from `j` on has one.
pub proof fn law_comments_reach_every_pr(s: SessionView, j: nat)
    requires
        counts_ok(s),
        !s.config.dry_run,
    ensures
        match comments_from(s, j).0.phase {
            PhaseView::AwaitComments { at, number } => j <= at < s.branches.len() && s.branches[at as int].pr
                == Some(number) && forall|i: int| j <= i < at ==> (#[trigger] s.branches[i]).pr is None,
            _ => forall|i: int| j <= i < s.branches.len() ==> (#[trigger] s.branches[i]).pr is None,
        },
{
    lemma_next_with_pr(s.branches, j);
    lemma_next_with_pr_skips(s.branches, j);
}

/// Every step keeps the state consistent (see `wf`).
pub proof fn law_step_keeps_consistency(s: SessionView, e: EventView)
    requires
        wf(s),
        accepts(s, e),
    ensures
        wf(next(s, e).0),
{
    lemma_step(s, e);
}

proof fn lemma_step(s: SessionView, e: EventView)
    requires
        wf(s),
        accepts(s, e),
    ensures
        wf(next(s, e).0),
        next(s, e).1.op matches OpView::Output { output } ==> output.prs_created == count_action(
            output.branches,
            SubmitAction::Created,
        ) && output.prs_updated == count_action(output.branches, SubmitAction::Updated),
        next(s, e).0.branches.len() == s.branches.len(),
        forall|i: int|
            0 <= i < s.branches.len() ==> (#[trigger] next(s, e).0.branches[i]).name
                == s.branches[i].name && next(s, e).0.branches[i].parent == s.branches[i].parent
                && (s.branches[i].pr is Some ==> next(s, e).0.branches[i].pr == s.branches[i].pr),
{
    match s.phase {
        PhaseView::AwaitConnect => {
            lemma_next_branch(s);
        },
        PhaseView::AwaitMessage => {
            if let EventView::CommitMessage { text } = e {
                if cur(s).pr is Some && s.config.dry_run {
                    let n = cur(s).pr->0;
                    lemma_record_existing(s, n);
                    lemma_next_branch(record_existing(s, n));
                }
            }
        },
        PhaseView::AwaitUpdateExisting { number } => {
            lemma_record_existing(s, number);
            lemma_next_branch(record_existing(s, number));
        },
        PhaseView::AwaitFind { title, body, base } => {
            if let EventView::Found { existing } = e {
                match existing {
                    Some(p) => {
                        lemma_record(s, Some(p.number), false, Some(p.url));
                        lemma_next_branch(record(s, Some(p.number), false, Some(p.url)));
                    },
                    None => {
                        lemma_record(s, None, true, None);
                        lemma_next_branch(record(s, None, true, None));
                    },
                }
            }
        },
        PhaseView::AwaitUpdateFound { number, url } => {
            lemma_record(s, Some(number), false, Some(url));
            lemma_next_branch(record(s, Some(number), false, Some(url)));
        },
        PhaseView::AwaitCreate => {
            if let EventView::Created { pr } = e {
                lemma_record(s, Some(pr.number), true, Some(pr.url));
                lemma_next_branch(record(s, Some(pr.number), true, Some(pr.url)));
            }
        },
        PhaseView::AwaitSave => {
            lemma_comments_from(s, 0);
        },
        PhaseView::AwaitCommentWrite { at, .. } => {
            lemma_comments_from(s, at + 1);
        },
        _ => {},
    }
}

/// The counts of the JSON output agree with the branches it lists.
pub proof fn law_output_counts(s: SessionView, e: EventView)
    requires
        wf(s),
        accepts(s, e),
    ensures
        next(s, e).1.op matches OpView::Output { output } ==> output.prs_created == count_action(
            output.branches,
            SubmitAction::Created,
        ) && output.prs_updated == count_action(output.branches, SubmitAction::Updated),
{
    lemma_step(s, e);
}

/// A step keeps the stack's branches, their names and parents; a branch that
/// has a pull request keeps its number.
pub proof fn law_stack_kept(s: SessionView, e: EventView)
    requires
        wf(s),
        accepts(s, e),
    ensures
        next(s, e).0.branches.len() == s.branches.len(),
        forall|i: int|
            0 <= i < s.branches.len() ==> (#[trigger] next(s, e).0.branches[i]).name
                == s.branches[i].name && next(s, e).0.branches[i].parent == s.branches[i].parent
                && (s.branches[i].pr is Some ==> next(s, e).0.branches[i].pr == s.branches[i].pr),
{
    lemma_step(s, e);
}

/// A new pull request has the branch as head, the branch's parent (or
/// `main`) as base, and is a draft exactly when drafts were asked for.
pub proof fn law_new_pr_request(s: SessionView, e: EventView)
    requires
        wf(s),
        accepts(s, e),
        s.phase is AwaitFind,
        e == (EventView::Found { existing: None }),
        !s.config.dry_run,
    ensures
        next(s, e).1.op == (OpView::CreatePr {
            request: RequestView {
                title: s.phase->AwaitFind_title,
                body: s.phase->AwaitFind_body,
                head: cur(s).name@,
                base: base_of(cur(s)),
                draft: s.config.draft,
            },
        }),
{
}

/// The base a branch's pull request gets is its recorded parent, or `main`;
/// a custom title replaces the derived one for the checked-out branch.
pub proof fn law_custom_title(s: SessionView, text: Option<Seq<char>>, t: Seq<char>)
    requires
        wf(s),
        s.phase is AwaitMessage,
        cur(s).pr is None,
        s.config.current_branch == Some(cur(s).name@),
        s.config.custom_title == Some(t),
    ensures
        next(s, EventView::CommitMessage { text }).0.phase == (PhaseView::AwaitFind {
            title: t,
            body: title_and_body(text, cur(s).name@).1,
            base: base_of(cur(s)),
        }),
{
}

/// A failed operation ends the run with a failure.
pub proof fn law_failure_ends_run(s: SessionView, message: Seq<char>)
    requires
        wf(s),
        accepts(s, EventView::Failed { message }),
    ensures
        next(s, EventView::Failed { message }).1.op is Fail,
        next(s, EventView::Failed { message }).0.phase is Finished,
{
}

/// A run ends exactly when a step finishes, outputs or fails; an ended run
/// accepts no event.
pub proof fn law_run_ends(s: SessionView, e: EventView, e2: EventView)
    requires
        wf(s),
        accepts(s, e),
    ensures
        (next(s, e).0.phase is Finished) <==> (next(s, e).1.op is Finish || next(s, e).1.op is Output
            || next(s, e).1.op is Fail),
        next(s, e).0.phase is Finished ==> !accepts(next(s, e).0, e2),
{
}


// ------------------------------------------------- roots and bases

/// The chain of a branch reaches the root of its stack: its first entry has
/// no parent among the branches, and every name met on the walk up from the
/// branch is in the chain.
pub proof fn law_chain_reaches_root(bs: Seq<StackBranch>, name: Seq<char>)
    requires
        walk_ends(bs, name),
    ensures
        branch_chain(bs, name).len() > 0,
        up(bs, branch_chain(bs, name)[0]) is None,
        forall|i: nat|
            #[trigger] walk(bs, name, i) is Some ==> branch_chain(bs, name).contains(
                walk(bs, name, i)->0,
            ),
{
    let l = lineage(bs, name);
    let r = branch_chain(bs, name);
    lemma_spread(bs, l, 0, (l.len() + bs.len()) as nat);
    let n = (bs.len() + 1) as nat;
    let a = ancestors(bs, name, n);
    lemma_walk_bound(bs, name);
    lemma_ancestors_walk(bs, name, n);
    let m = a.len();
    assert(walk(bs, name, (m + 1) as nat) is None);
    // l[k] is the name reached after m - k steps
    assert forall|k: int| 0 <= k < l.len() implies walk(bs, name, (m - k) as nat) == Some(
        #[trigger] l[k],
    ) by {
        if k < m {
            assert(l[k] == a.reverse()[k]);
            assert(a.reverse()[k] == a[m - 1 - k]);
            assert(((m - 1 - k) + 1) as nat == (m - k) as nat);
        } else {
            assert(l[k] == name);
        }
    }
    assert(r[0] == l[0]);
    let z = l[0];
    assert(walk(bs, name, m as nat) == Some(z));
    lemma_walk_compose(bs, name, m as nat, 1);
    assert(walk(bs, z, 1) == match up(bs, z) {
        Some(p) => walk(bs, p, 0),
        None => None,
    });
    assert forall|i: nat| #[trigger] walk(bs, name, i) is Some implies r.contains(
        walk(bs, name, i)->0,
    ) by {
        if i > m {
            lemma_walk_stops(bs, name, (m + 1) as nat, i);
        }
        let k = m - i;
        assert(walk(bs, name, (m - k) as nat) == Some(l[k]));
        assert(r[k] == l[k]);
    }
}

/// A branch named `name` at `k` means there is a first one.
proof fn lemma_has_first(bs: Seq<StackBranch>, name: Seq<char>, k: int)
    requires
        0 <= k < bs.len(),
        bs[k].name@ == name,
    ensures
        first_named(bs, name) is Some,
    decreases k,
{
    if exists|j: int| 0 <= j < k && #[trigger] bs[j].name@ == name {
        let j = choose|j: int| 0 <= j < k && #[trigger] bs[j].name@ == name;
        lemma_has_first(bs, name, j);
    } else {
        assert(is_first_named(bs, name, k));
        lemma_first_named(bs, name, k);
    }
}

/// Where the climb from `name` stops, and after how many steps.
proof fn lemma_climb(bs: Seq<StackBranch>, name: Seq<char>, fuel: nat) -> (i: nat)
    ensures
        i <= fuel,
        walk(bs, name, i) == Some(climb(bs, name, fuel)),
        up(bs, climb(bs, name, fuel)) is None || i == fuel,
    decreases fuel,
{
    if fuel == 0 {
        0
    } else {
        match up(bs, name) {
            Some(q) => {
                let j = lemma_climb(bs, q, (fuel - 1) as nat);
                assert(walk(bs, name, j + 1) == walk(bs, q, j));
                j + 1
            },
            None => 0,
        }
    }
}

/// The base line of a stack comment names what the whole stack rests on:
/// the walk up from the commented branch's parent stops at a name with no
/// parent among the branches, and the base is that name when it is no
/// branch, else the parent that branch records, else `main`. So the base
/// is `main` or no branch of the stack at all.
pub proof fn law_comment_base(bs: Seq<StackBranch>, pr: u64)
    requires
        comment_defined(bs, pr),
    ensures
        stack_base(bs, pr) == "main"@ || !has_named(bs, stack_base(bs, pr)),
        match first_with_pr(bs, pr) {
            Some(k) => match parent_of(bs[k]) {
                Some(p) => exists|i: nat|
                    #[trigger] walk(bs, p, i) matches Some(z) && up(bs, z) is None
                        && stack_base(bs, pr) == match first_named(bs, z) {
                        None => z,
                        Some(m) => match parent_of(bs[m]) {
                            Some(q) => q,
                            None => "main"@,
                        },
                    },
                None => stack_base(bs, pr) == "main"@,
            },
            None => stack_base(bs, pr) == "main"@,
        },
{
    if let Some(k) = first_with_pr(bs, pr) {
        if let Some(p) = parent_of(bs[k]) {
            let n = (bs.len() + 1) as nat;
            lemma_walk_bound(bs, p);
            let i = lemma_climb(bs, p, n);
            let z = climb(bs, p, n);
            assert(up(bs, z) is None);
            assert(walk(bs, p, i) == Some(z));
            match first_named(bs, z) {
                None => {
                    if i >= 1 {
                        lemma_walk_named(bs, p, i);
                        let j = choose|j: int| 0 <= j < bs.len() && #[trigger] bs[j].name@ == z;
                        lemma_has_first(bs, z, j);
                    }
                    if has_named(bs, z) {
                        let j = choose|j: int| 0 <= j < bs.len() && #[trigger] bs[j].name@ == z;
                        lemma_has_first(bs, z, j);
                    }
                },
                Some(m) => {},
            }
        }
    }
}


// ------------------------------------------------- the run's options

/// Every push a step asks for uses the run's force option.
pub proof fn law_push_uses_force(s: SessionView, e: EventView)
    ensures
        next(s, e).1.op matches OpView::Push { force, .. } ==> force == s.config.force,
{
}

/// Every JSON output reports whether the run was a dry run.
pub proof fn law_output_reports_dry_run(s: SessionView, e: EventView)
    ensures
        next(s, e).1.op matches OpView::Output { output } ==> output.dry_run == s.config.dry_run,
{
}


// ------------------------------------------------- title words

/// A character that separates words in a branch name.
pub open spec fn breaks_word(c: char) -> bool {
    is_space(c) || c == '-' || c == '_'
}

/// The characters of `s` that are not word breaks, in order.
pub open spec fn word_chars(s: Seq<char>) -> Seq<char> {
    s.filter(|c: char| !breaks_word(c))
}

/// The characters of `s` that are not whitespace, in order.
pub open spec fn non_space(s: Seq<char>) -> Seq<char> {
    s.filter(|c: char| !is_space(c))
}

/// How many words `s` has: the positions holding a character that is no
/// word break and comes first or after a word break.
pub open spec fn word_count(s: Seq<char>) -> nat
    decreases s.len(),
{
    if s.len() == 0 {
        0
    } else {
        word_count(s.drop_last()) + if !breaks_word(s.last()) && (s.len() == 1 || breaks_word(
            s[s.len() - 2],
        )) {
            1nat
        } else {
            0nat
        }
    }
}

proof fn lemma_words_flatten(s: Seq<char>)
    ensures
        words(s).flatten_alt() == non_space(s),
    decreases s.len(),
{
    reveal(Seq::filter);
    if s.len() > 0 {
        let d = s.drop_last();
        let w = words(d);
        let c = s.last();
        lemma_words_flatten(d);
        assert(non_space(s) == if !is_space(c) {
            non_space(d).push(c)
        } else {
            non_space(d)
        });
        if is_space(c) {
        } else if s.len() >= 2 && !is_space(s[s.len() - 2]) {
            crate::text::lemma_words_last(d);
            assert(d.last() == s[s.len() - 2]);
            let u = w.update(w.len() - 1, w.last().push(c));
            assert(words(s) == u);
            assert(u.drop_last() =~= w.drop_last());
            assert(u.last() == w.last().push(c));
            assert(w.flatten_alt() == w.drop_last().flatten_alt() + w.last());
            assert(u.flatten_alt() == u.drop_last().flatten_alt() + u.last());
            assert(u.flatten_alt() =~= w.flatten_alt().push(c));
        } else {
            let u = w.push(seq![c]);
            assert(words(s) == u);
            assert(u.drop_last() =~= w);
            assert(u.flatten_alt() == u.drop_last().flatten_alt() + u.last());
            assert(u.flatten_alt() =~= w.flatten_alt().push(c));
        }
    }
}

proof fn lemma_spaced(s: Seq<char>)
    ensures
        non_space(dashes_to_spaces(s)) == word_chars(s),
        words(dashes_to_spaces(s)).len() == word_count(s),
    decreases s.len(),
{
    reveal(Seq::filter);
    if s.len() > 0 {
        let d = s.drop_last();
        let t = dashes_to_spaces(s);
        lemma_spaced(d);
        assert(t.drop_last() =~= dashes_to_spaces(d));
        let c = s.last();
        assert(t.last() == if c == '-' || c == '_' { ' ' } else { c });
        assert(is_space(' '));
        assert(is_space(t.last()) == breaks_word(c));
        assert(non_space(t) == if !is_space(t.last()) {
            non_space(t.drop_last()).push(t.last())
        } else {
            non_space(t.drop_last())
        });
        assert(word_chars(s) == if !breaks_word(c) {
            word_chars(d).push(c)
        } else {
            word_chars(d)
        });
        if s.len() >= 2 {
            assert(t[t.len() - 2] == dashes_to_spaces(d).last());
            assert(is_space(t[t.len() - 2]) == breaks_word(s[s.len() - 2]));
            assert(d.last() == s[s.len() - 2]);
        }
        let w = words(dashes_to_spaces(d));
        if !is_space(t.last()) && t.len() >= 2 && !is_space(t[t.len() - 2]) {
            crate::text::lemma_words_last(dashes_to_spaces(d));
        }
    }
}

/// The title made from a branch name keeps every word of the name's last
/// segment, in order: as many words as the segment has, and together
/// exactly its characters other than whitespace, `-` and `_`.
pub proof fn law_title_keeps_words(branch: Seq<char>)
    ensures
        title_words(branch).len() == word_count(last_segment(branch)),
        title_words(branch).flatten() == word_chars(last_segment(branch)),
{
    let seg = last_segment(branch);
    lemma_spaced(seg);
    lemma_words_flatten(dashes_to_spaces(seg));
    words(dashes_to_spaces(seg)).lemma_flatten_and_flatten_alt_are_equivalent();
}

} // verus!
