//! The stack of branches, the walk from a branch up through its parents,
//! and the chain of related branches that a stack comment lists.
use vstd::prelude::*;
use vstd::set_lib::lemma_len_subset;
use vstd::seq_lib::seq_to_set_is_finite;

verus! {

/// A branch of the stack: its name, the branch it was made on (if that is
/// recorded) and the number of its pull request (once there is one).
pub struct StackBranch {
    pub name: String,
    pub parent: Option<String>,
    pub pr: Option<u64>,
}

/// The stack: its branches, oldest first.
pub struct Stack {
    pub branches: Vec<StackBranch>,
}

/// The names of a sequence of strings.
pub open spec fn names_of(v: Seq<String>) -> Seq<Seq<char>> {
    v.map_values(|s: String| s@)
}

/// An optional string, as characters.
pub open spec fn opt_chars(o: Option<String>) -> Option<Seq<char>> {
    match o {
        Some(s) => Some(s@),
        None => None,
    }
}

/// The recorded parent of a branch.
pub open spec fn parent_of(b: StackBranch) -> Option<Seq<char>> {
    opt_chars(b.parent)
}

/// Some branch of `bs` is named `name`.
pub open spec fn has_named(bs: Seq<StackBranch>, name: Seq<char>) -> bool {
    exists|k: int| 0 <= k < bs.len() && #[trigger] bs[k].name@ == name
}

/// `k` is the position of the first branch of `bs` named `name`.
pub open spec fn is_first_named(bs: Seq<StackBranch>, name: Seq<char>, k: int) -> bool {
    &&& 0 <= k < bs.len()
    &&& bs[k].name@ == name
    &&& forall|j: int| 0 <= j < k ==> #[trigger] bs[j].name@ != name
}

/// The position of the first branch of `bs` named `name`, if any.
pub open spec fn first_named(bs: Seq<StackBranch>, name: Seq<char>) -> Option<int> {
    if exists|k: int| is_first_named(bs, name, k) {
        Some(choose|k: int| is_first_named(bs, name, k))
    } else {
        None
    }
}

/// One step up from `name`: the parent recorded on the first branch named
/// `name`, when that parent is itself a branch of the stack.
pub open spec fn up(bs: Seq<StackBranch>, name: Seq<char>) -> Option<Seq<char>> {
    match first_named(bs, name) {
        Some(k) => match parent_of(bs[k]) {
            Some(p) => if has_named(bs, p) {
                Some(p)
            } else {
                None
            },
            None => None,
        },
        None => None,
    }
}

/// Where `i` steps up from `name` lead, or `None` when the walk has run out
/// of parents before that.
pub open spec fn walk(bs: Seq<StackBranch>, name: Seq<char>, i: nat) -> Option<Seq<char>>
    decreases i,
{
    if i == 0 {
        Some(name)
    } else {
        match up(bs, name) {
            Some(p) => walk(bs, p, (i - 1) as nat),
            None => None,
        }
    }
}

/// The walk up from `name` comes to an end (it does not go round a cycle of
/// parents).
pub open spec fn walk_ends(bs: Seq<StackBranch>, name: Seq<char>) -> bool {
    exists|f: nat| #[trigger] walk(bs, name, f) is None
}

/// The names met on the way up from `name`, nearest first, in at most
/// `fuel` steps.
pub open spec fn ancestors(bs: Seq<StackBranch>, name: Seq<char>, fuel: nat) -> Seq<Seq<char>>
    decreases fuel,
{
    if fuel == 0 {
        Seq::empty()
    } else {
        match up(bs, name) {
            Some(p) => seq![p] + ancestors(bs, p, (fuel - 1) as nat),
            None => Seq::empty(),
        }
    }
}

/// The ancestors of `name`, oldest first, followed by `name` itself. A walk
/// that ends takes at most `bs.len()` steps (`lemma_walk_bound`).
pub open spec fn lineage(bs: Seq<StackBranch>, name: Seq<char>) -> Seq<Seq<char>> {
    ancestors(bs, name, (bs.len() + 1) as nat).reverse().push(name)
}

/// `chain` with the names of the branches of `bs` whose parent is `parent`
/// appended, in stack order, each unless `chain` already holds it.
pub open spec fn adopt(bs: Seq<StackBranch>, chain: Seq<Seq<char>>, parent: Seq<char>) -> Seq<
    Seq<char>,
>
    decreases bs.len(),
{
    if bs.len() == 0 {
        chain
    } else {
        let c = adopt(bs.drop_last(), chain, parent);
        let b = bs.last();
        if parent_of(b) == Some(parent) && !c.contains(b.name@) {
            c.push(b.name@)
        } else {
            c
        }
    }
}

/// Breadth-first growth of `chain`: the children of `chain[i]`, then those of
/// `chain[i + 1]`, and so on, for at most `fuel` entries.
pub open spec fn spread(bs: Seq<StackBranch>, chain: Seq<Seq<char>>, i: nat, fuel: nat) -> Seq<
    Seq<char>,
>
    decreases fuel,
{
    if fuel == 0 || i >= chain.len() {
        chain
    } else {
        spread(bs, adopt(bs, chain, chain[i as int]), i + 1, (fuel - 1) as nat)
    }
}

/// The chain of branches related to `name`: its ancestors oldest first,
/// `name`, then its descendants breadth first. The fuel is the most
/// entries the chain can have, so it never runs out first
/// (`law_chain_closed`).
pub open spec fn branch_chain(bs: Seq<StackBranch>, name: Seq<char>) -> Seq<Seq<char>> {
    let l = lineage(bs, name);
    spread(bs, l, 0, (l.len() + bs.len()) as nat)
}

// ---------------------------------------------------------------- lemmas

pub proof fn lemma_first_named(bs: Seq<StackBranch>, name: Seq<char>, k: int)
    requires
        is_first_named(bs, name, k),
    ensures
        first_named(bs, name) == Some(k),
{
    let k2 = choose|k2: int| is_first_named(bs, name, k2);
    if k2 < k {
        assert(bs[k2].name@ != name);
    } else if k < k2 {
        assert(bs[k].name@ != name);
    }
}

pub proof fn lemma_first_named_none(bs: Seq<StackBranch>, name: Seq<char>)
    requires
        forall|j: int| 0 <= j < bs.len() ==> #[trigger] bs[j].name@ != name,
    ensures
        first_named(bs, name) is None,
        !has_named(bs, name),
{
}

/// A walk that has stopped stays stopped.
pub proof fn lemma_walk_stops(bs: Seq<StackBranch>, name: Seq<char>, a: nat, b: nat)
    requires
        walk(bs, name, a) is None,
        a <= b,
    ensures
        walk(bs, name, b) is None,
    decreases a,
{
    if a > 0 {
        if let Some(p) = up(bs, name) {
            lemma_walk_stops(bs, p, (a - 1) as nat, (b - 1) as nat);
        }
    }
}

/// Walking `a + b` steps is walking `a` steps and then `b` more.
pub proof fn lemma_walk_compose(bs: Seq<StackBranch>, name: Seq<char>, a: nat, b: nat)
    requires
        walk(bs, name, a) is Some,
    ensures
        walk(bs, name, a + b) == walk(bs, walk(bs, name, a)->0, b),
    decreases a,
{
    if a > 0 {
        let p = up(bs, name)->0;
        lemma_walk_compose(bs, p, (a - 1) as nat, b);
        assert((a + b - 1) as nat == (a - 1) as nat + b);
    }
}

/// Every name reached after at least one step is a branch of the stack.
pub proof fn lemma_walk_named(bs: Seq<StackBranch>, name: Seq<char>, i: nat)
    requires
        i >= 1,
        walk(bs, name, i) is Some,
    ensures
        has_named(bs, walk(bs, name, i)->0),
    decreases i,
{
    let p = up(bs, name)->0;
    assert(walk(bs, name, i) == walk(bs, p, (i - 1) as nat));
    if i > 1 {
        lemma_walk_named(bs, p, (i - 1) as nat);
    } else {
        let k = first_named(bs, name)->0;
        assert(parent_of(bs[k]) == Some(p));
        assert(has_named(bs, p));
    }
}

/// A name that comes back to itself is on a cycle that never ends.
pub proof fn lemma_cycle_never_ends(bs: Seq<StackBranch>, x: Seq<char>, d: nat, n: nat)
    requires
        d >= 1,
        walk(bs, x, d) == Some(x),
    ensures
        walk(bs, x, n) is Some,
    decreases n,
{
    if n > d {
        lemma_cycle_never_ends(bs, x, d, (n - d) as nat);
        lemma_walk_compose(bs, x, d, (n - d) as nat);
    } else if walk(bs, x, n) is None {
        lemma_walk_stops(bs, x, n, d);
    }
}

/// On a walk that ends, no name is met twice.
pub proof fn lemma_walk_distinct(bs: Seq<StackBranch>, name: Seq<char>, a: nat, b: nat)
    requires
        walk_ends(bs, name),
        a < b,
        walk(bs, name, b) is Some,
    ensures
        walk(bs, name, a) is Some,
        walk(bs, name, a) != walk(bs, name, b),
{
    if walk(bs, name, a) is None {
        lemma_walk_stops(bs, name, a, b);
    }
    if walk(bs, name, a) == walk(bs, name, b) {
        let x = walk(bs, name, a)->0;
        let d = (b - a) as nat;
        lemma_walk_compose(bs, name, a, d);
        let f = choose|f: nat| #[trigger] walk(bs, name, f) is None;
        if f <= a {
            lemma_walk_stops(bs, name, f, a);
        } else {
            lemma_walk_compose(bs, name, a, (f - a) as nat);
            lemma_cycle_never_ends(bs, x, d, (f - a) as nat);
        }
    }
}

/// A sequence without repeats, all of whose items occur in `t`, is no
/// longer than `t`.
pub proof fn lemma_distinct_within<A>(s: Seq<A>, t: Seq<A>)
    requires
        s.no_duplicates(),
        forall|i: int| 0 <= i < s.len() ==> t.contains(#[trigger] s[i]),
    ensures
        s.len() <= t.len(),
{
    s.unique_seq_to_set();
    t.lemma_cardinality_of_set();
    seq_to_set_is_finite(t);
    assert forall|x: A| s.to_set().contains(x) implies t.to_set().contains(x) by {
        let i = choose|i: int| 0 <= i < s.len() && s[i] == x;
        assert(t.contains(s[i]));
    }
    lemma_len_subset(s.to_set(), t.to_set());
}

/// A walk that ends does so within `bs.len() + 1` steps: it meets no name
/// twice, and every name after the first is one of the stack's.
pub proof fn lemma_walk_bound(bs: Seq<StackBranch>, name: Seq<char>)
    requires
        walk_ends(bs, name),
    ensures
        walk(bs, name, (bs.len() + 1) as nat) is None,
{
    let n = (bs.len() + 1) as nat;
    if walk(bs, name, n) is Some {
        let s = Seq::new(n, |i: int| walk(bs, name, (i + 1) as nat)->0);
        let t = bs.map_values(|b: StackBranch| b.name@);
        assert forall|i: int| 0 <= i < s.len() implies t.contains(#[trigger] s[i]) by {
            let w = walk(bs, name, (i + 1) as nat);
            if w is None {
                lemma_walk_stops(bs, name, (i + 1) as nat, n);
            }
            lemma_walk_named(bs, name, (i + 1) as nat);
            let k = choose|k: int| 0 <= k < bs.len() && #[trigger] bs[k].name@ == w->0;
            assert(t[k] == s[i]);
        }
        assert forall|i: int, j: int| 0 <= i < s.len() && 0 <= j < s.len() && i != j implies s[i]
            != s[j] by {
            lemma_walk_stops_contra(bs, name, (j + 1) as nat, n);
            lemma_walk_stops_contra(bs, name, (i + 1) as nat, n);
            if i < j {
                lemma_walk_distinct(bs, name, (i + 1) as nat, (j + 1) as nat);
            } else {
                lemma_walk_distinct(bs, name, (j + 1) as nat, (i + 1) as nat);
            }
        }
        lemma_distinct_within(s, t);
    }
}

proof fn lemma_walk_stops_contra(bs: Seq<StackBranch>, name: Seq<char>, a: nat, b: nat)
    requires
        walk(bs, name, b) is Some,
        a <= b,
    ensures
        walk(bs, name, a) is Some,
{
    if walk(bs, name, a) is None {
        lemma_walk_stops(bs, name, a, b);
    }
}

/// The ancestors are the names the walk meets after the first, in order.
pub proof fn lemma_ancestors_walk(bs: Seq<StackBranch>, name: Seq<char>, fuel: nat)
    ensures
        ancestors(bs, name, fuel).len() <= fuel,
        forall|i: int|
            0 <= i < ancestors(bs, name, fuel).len() ==> walk(bs, name, (i + 1) as nat) == Some(
                #[trigger] ancestors(bs, name, fuel)[i],
            ),
        walk(bs, name, fuel) is None ==> walk(
            bs,
            name,
            (ancestors(bs, name, fuel).len() + 1) as nat,
        ) is None,
    decreases fuel,
{
    if fuel > 0 {
        if let Some(p) = up(bs, name) {
            lemma_ancestors_walk(bs, p, (fuel - 1) as nat);
            let a = ancestors(bs, name, fuel);
            let r = ancestors(bs, p, (fuel - 1) as nat);
            assert forall|i: int| 0 <= i < a.len() implies walk(bs, name, (i + 1) as nat) == Some(
                #[trigger] a[i],
            ) by {
                assert(walk(bs, name, (i + 1) as nat) == walk(bs, p, i as nat));
                if i > 0 {
                    assert(a[i] == r[i - 1]);
                    assert(((i - 1) + 1) as nat == (i as nat));
                } else {
                    assert(a[0] == p);
                }
            }
        }
    }
}

/// On a walk that ends, the lineage has no repeats.
pub proof fn lemma_lineage_distinct(bs: Seq<StackBranch>, name: Seq<char>)
    requires
        walk_ends(bs, name),
    ensures
        lineage(bs, name).no_duplicates(),
{
    let n = (bs.len() + 1) as nat;
    let a = ancestors(bs, name, n);
    lemma_ancestors_walk(bs, name, n);
    let l = lineage(bs, name);
    let m = a.len();
    // l[k] is the name reached after m - k steps.
    assert forall|k: int| 0 <= k < l.len() implies walk(bs, name, (m - k) as nat) == Some(
        #[trigger] l[k],
    ) by {
        if k < m {
            assert(l[k] == a.reverse()[k]);
            assert(a.reverse()[k] == a[m - 1 - k]);
            assert(((m - 1 - k) + 1) as nat == (m - k) as nat);
        } else {
            assert(l[k] == name);
        }
    }
    assert forall|i: int, j: int| 0 <= i < l.len() && 0 <= j < l.len() && i != j implies l[i]
        != l[j] by {
        let wi = walk(bs, name, (m - i) as nat);
        let wj = walk(bs, name, (m - j) as nat);
        assert(wi == Some(l[i]));
        assert(wj == Some(l[j]));
        if i < j {
            lemma_walk_distinct(bs, name, (m - j) as nat, (m - i) as nat);
        } else {
            lemma_walk_distinct(bs, name, (m - i) as nat, (m - j) as nat);
        }
    }
}

// ---------------------------------------------------------------- exec

/// The position of the first branch of `bs` named `name`.
pub fn find_named(bs: &[StackBranch], name: &String) -> (r: Option<usize>)
    ensures
        match r {
            Some(k) => is_first_named(bs@, name@, k as int),
            None => forall|j: int| 0 <= j < bs@.len() ==> #[trigger] bs@[j].name@ != name@,
        },
        r matches Some(k) ==> first_named(bs@, name@) == Some(k as int),
        r is None ==> first_named(bs@, name@) is None && !has_named(bs@, name@),
{
    let mut i: usize = 0;
    while i < bs.len()
        invariant
            i <= bs@.len(),
            forall|j: int| 0 <= j < i ==> #[trigger] bs@[j].name@ != name@,
        decreases bs.len() - i,
    {
        if bs[i].name == *name {
            proof {
                lemma_first_named(bs@, name@, i as int);
            }
            return Some(i);
        }
        i = i + 1;
    }
    proof {
        lemma_first_named_none(bs@, name@);
    }
    None
}

/// One step up from `name` (see `up`).
pub fn step_up(bs: &[StackBranch], name: &String) -> (r: Option<String>)
    ensures
        opt_chars(r) == up(bs@, name@),
{
    match find_named(bs, name) {
        Some(k) => match &bs[k].parent {
            Some(p) => {
                match find_named(bs, p) {
                    Some(j) => {
                        assert(bs@[j as int].name@ == p@);
                        Some(p.clone())
                    },
                    None => None,
                }
            },
            None => None,
        },
        None => None,
    }
}

/// Whether the walk up from `name` comes to an end. The chain and the
/// stack comment of a branch are only defined when it does.
pub fn ancestry_ends(bs: &[StackBranch], name: &String) -> (r: bool)
    ensures
        r == walk_ends(bs@, name@),
{
    let mut cur = name.clone();
    let mut k: usize = 0;
    loop
        invariant
            k <= bs@.len(),
            walk(bs@, name@, k as nat) == Some(cur@),
        decreases bs@.len() - k,
    {
        let next = step_up(bs, &cur);
        proof {
            lemma_walk_compose(bs@, name@, k as nat, 1);
            assert(walk(bs@, cur@, 1) == match up(bs@, cur@) {
                Some(p) => walk(bs@, p, 0),
                None => None,
            });
        }
        match next {
            None => {
                assert(walk(bs@, name@, (k + 1) as nat) is None);
                return true;
            },
            Some(p) => {
                if k == bs.len() {
                    proof {
                        if walk_ends(bs@, name@) {
                            lemma_walk_bound(bs@, name@);
                        }
                    }
                    return false;
                }
                cur = p;
                k = k + 1;
            },
        }
    }
}

/// Whether `v` holds `name`.
pub fn contains_name(v: &Vec<String>, name: &String) -> (r: bool)
    ensures
        r == names_of(v@).contains(name@),
{
    let mut i: usize = 0;
    while i < v.len()
        invariant
            i <= v@.len(),
            forall|j: int| 0 <= j < i ==> v@[j]@ != name@,
        decreases v.len() - i,
    {
        if v[i] == *name {
            assert(names_of(v@)[i as int] == name@);
            return true;
        }
        i = i + 1;
    }
    assert forall|j: int| 0 <= j < names_of(v@).len() implies names_of(v@)[j] != name@ by {
        assert(names_of(v@)[j] == v@[j]@);
    }
    false
}

/// The lineage of `name` (see `lineage`).
fn lineage_of(bs: &[StackBranch], name: &String) -> (r: Vec<String>)
    requires
        walk_ends(bs@, name@),
    ensures
        names_of(r@) == lineage(bs@, name@),
{
    let ghost n = (bs@.len() + 1) as nat;
    proof {
        lemma_walk_bound(bs@, name@);
    }
    let mut anc: Vec<String> = Vec::new();
    let mut cur = name.clone();
    loop
        invariant
            anc@.len() <= n,
            n == bs@.len() + 1,
            ancestors(bs@, name@, n) == names_of(anc@) + ancestors(
                bs@,
                cur@,
                (n - anc@.len()) as nat,
            ),
            walk(bs@, cur@, (n - anc@.len()) as nat) is None,
        ensures
            ancestors(bs@, name@, n) == names_of(anc@),
        decreases n - anc@.len(),
    {
        let next = step_up(bs, &cur);
        match next {
            None => {
                assert(ancestors(bs@, cur@, (n - anc@.len()) as nat) =~= Seq::empty());
                assert(names_of(anc@) + Seq::<Seq<char>>::empty() =~= names_of(anc@));
                break ;
            },
            Some(p) => {
                let ghost m = (n - anc@.len()) as nat;
                assert(m > 0);
                assert(walk(bs@, cur@, m) == walk(bs@, p@, (m - 1) as nat));
                assert(ancestors(bs@, cur@, m) == seq![p@] + ancestors(bs@, p@, (m - 1) as nat));
                let ghost before = names_of(anc@);
                anc.push(p.clone());
                assert(names_of(anc@) =~= before.push(p@));
                assert(names_of(anc@) + ancestors(bs@, p@, (m - 1) as nat) =~= before + (seq![p@]
                    + ancestors(bs@, p@, (m - 1) as nat)));
                cur = p;
            },
        }
    }
    assert(names_of(anc@) =~= ancestors(bs@, name@, n));
    let mut r: Vec<String> = Vec::new();
    let mut j: usize = anc.len();
    while j > 0
        invariant
            j <= anc@.len(),
            names_of(r@) =~= names_of(anc@).reverse().take(anc@.len() - j),
        decreases j,
    {
        j = j - 1;
        r.push(anc[j].clone());
        assert(names_of(anc@).reverse()[anc@.len() - 1 - j] == names_of(anc@)[j as int]);
        assert(names_of(anc@).reverse().take(anc@.len() - j) =~= names_of(anc@).reverse().take(
            anc@.len() - j - 1,
        ).push(names_of(anc@)[j as int]));
    }
    r.push(name.clone());
    assert(names_of(anc@).reverse().take(anc@.len() as int) =~= names_of(anc@).reverse());
    r
}

/// Builds the chain of branches from the oldest ancestor of `current_name`
/// to all its descendants: the ancestors oldest first, then the branch
/// itself, then the branches whose parent is already in the chain, breadth
/// first and in stack order.
pub fn build_branch_chain(branches: &[StackBranch], current_name: &str) -> (chain: Vec<String>)
    requires
        walk_ends(branches@, current_name@),
    ensures
        names_of(chain@) == branch_chain(branches@, current_name@),
{
    let ghost bs = branches@;
    let current = String::from_str(current_name);
    let mut chain = lineage_of(branches, &current);
    let ghost l = names_of(chain@);
    let ghost fuel = (l.len() + bs.len()) as nat;
    let ghost t = bs.map_values(|b: StackBranch| b.name@);
    let mut i: usize = 0;
    while i < chain.len()
        invariant
            bs == branches@,
            l.len() <= chain@.len(),
            names_of(chain@).take(l.len() as int) == l,
            names_of(chain@).skip(l.len() as int).no_duplicates(),
            forall|k: int|
                l.len() <= k < chain@.len() ==> has_named(bs, #[trigger] names_of(chain@)[k]),
            chain@.len() <= fuel,
            fuel == l.len() + bs.len(),
            t == bs.map_values(|b: StackBranch| b.name@),
            i <= chain@.len(),
            spread(bs, l, 0, fuel) == spread(bs, names_of(chain@), i as nat, (fuel - i) as nat),
        decreases fuel - i,
    {
        let parent_name = chain[i].clone();
        let ghost start = names_of(chain@);
        let mut j: usize = 0;
        while j < branches.len()
            invariant
                bs == branches@,
                names_of(chain@) == adopt(bs.take(j as int), start, parent_name@),
                start.len() <= chain@.len(),
                names_of(chain@).take(start.len() as int) == start,
                l.len() <= start.len(),
                start.take(l.len() as int) == l,
                names_of(chain@).skip(l.len() as int).no_duplicates(),
                forall|k: int|
                    l.len() <= k < chain@.len() ==> has_named(bs, #[trigger] names_of(chain@)[k]),
                j <= bs.len(),
            decreases bs.len() - j,
        {
            let b = &branches[j];
            let ghost before = names_of(chain@);
            proof {
                assert(bs.take(j + 1).drop_last() =~= bs.take(j as int));
                assert(bs.take(j + 1).last() == bs[j as int]);
            }
            let is_child = match &b.parent {
                Some(p) => *p == parent_name,
                None => false,
            };
            if is_child && !contains_name(&chain, &b.name) {
                chain.push(b.name.clone());
                proof {
                    let after = names_of(chain@);
                    assert(after =~= before.push(b.name@));
                    assert(after.take(start.len() as int) =~= before.take(start.len() as int));
                    assert(after.skip(l.len() as int) =~= before.skip(l.len() as int).push(
                        b.name@,
                    ));
                    assert(!before.skip(l.len() as int).contains(b.name@)) by {
                        if before.skip(l.len() as int).contains(b.name@) {
                            let q = choose|q: int|
                                0 <= q < before.skip(l.len() as int).len() && before.skip(
                                    l.len() as int,
                                )[q] == b.name@;
                            assert(before[q + l.len()] == b.name@);
                        }
                    }
                    assert(bs[j as int].name@ == b.name@);
                    assert forall|k: int| l.len() <= k < after.len() implies has_named(
                        bs,
                        #[trigger] after[k],
                    ) by {
                        if k == after.len() - 1 {
                            assert(after[k] == bs[j as int].name@);
                        } else {
                            assert(after[k] == before[k]);
                        }
                    }
                }
            }
            j = j + 1;
        }
        proof {
            assert(bs.take(bs.len() as int) =~= bs);
            let c = names_of(chain@);
            // the appended part has no repeats and only names of the stack
            let extra = c.skip(l.len() as int);
            assert forall|q: int| 0 <= q < extra.len() implies t.contains(#[trigger] extra[q]) by {
                assert(extra[q] == c[q + l.len()]);
                assert(has_named(bs, c[q + l.len()]));
                let k = choose|k: int| 0 <= k < bs.len() && #[trigger] bs[k].name@ == c[q
                    + l.len()];
                assert(t[k] == extra[q]);
            }
            lemma_distinct_within(extra, t);
            assert(c.take(l.len() as int) =~= start.take(l.len() as int));
            assert(start[i as int] == parent_name@);
        }
        i = i + 1;
    }
    chain
}

impl Stack {
    /// The first branch of the stack named `name`.
    pub fn find_branch(&self, name: &String) -> (r: Option<&StackBranch>)
        ensures
            match first_named(self.branches@, name@) {
                Some(k) => r == Some(&self.branches@[k]),
                None => r is None,
            },
    {
        match find_named(self.branches.as_slice(), name) {
            Some(k) => Some(&self.branches[k]),
            None => None,
        }
    }
}

} // verus!
