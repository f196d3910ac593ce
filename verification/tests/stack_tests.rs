use rung_cli::comment::{
    find_stack_comment, generate_stack_comment, stack_comment_defined, PrComment,
    STACK_COMMENT_MARKER,
};
use rung_cli::stack::{ancestry_ends, build_branch_chain, Stack, StackBranch};

fn br(name: &str, parent: Option<&str>, pr: Option<u64>) -> StackBranch {
    StackBranch { name: name.to_string(), parent: parent.map(|p| p.to_string()), pr }
}

/// main <- a <- b <- c, and a <- d.
fn sample() -> Vec<StackBranch> {
    vec![
        br("a", Some("main"), Some(1)),
        br("b", Some("a"), Some(2)),
        br("c", Some("b"), None),
        br("d", Some("a"), Some(4)),
    ]
}

#[test]
fn chain_from_middle_branch() {
    assert_eq!(build_branch_chain(&sample(), "b"), vec!["a", "b", "d", "c"]);
}

#[test]
fn chain_from_root_branch() {
    assert_eq!(build_branch_chain(&sample(), "a"), vec!["a", "b", "d", "c"]);
}

#[test]
fn chain_from_leaf_branch() {
    assert_eq!(build_branch_chain(&sample(), "c"), vec!["a", "b", "c", "d"]);
}

#[test]
fn chain_of_unknown_branch() {
    assert_eq!(build_branch_chain(&sample(), "zzz"), vec!["zzz"]);
    assert_eq!(build_branch_chain(&[], "x"), vec!["x"]);
}

#[test]
fn chain_starts_with_lineage_and_is_closed() {
    let bs = sample();
    let chain = build_branch_chain(&bs, "c");
    assert_eq!(&chain[..3], &["a", "b", "c"]);
    for b in &bs {
        if let Some(p) = &b.parent {
            if chain.contains(p) {
                assert!(chain.contains(&b.name));
            }
        }
    }
    let mut seen = chain.clone();
    seen.sort();
    seen.dedup();
    assert_eq!(seen.len(), chain.len());
}

#[test]
fn cycles_are_detected() {
    let bs = vec![br("x", Some("y"), None), br("y", Some("x"), None), br("z", Some("main"), None)];
    assert!(!ancestry_ends(&bs, &"x".to_string()));
    assert!(!ancestry_ends(&bs, &"y".to_string()));
    assert!(ancestry_ends(&bs, &"z".to_string()));
    assert!(ancestry_ends(&bs, &"main".to_string()));
    assert!(ancestry_ends(&sample(), &"c".to_string()));
}

#[test]
fn self_parent_is_a_cycle() {
    let bs = vec![br("x", Some("x"), Some(3))];
    assert!(!ancestry_ends(&bs, &"x".to_string()));
    assert!(!stack_comment_defined(&bs, 3));
}

#[test]
fn find_branch_takes_the_first() {
    let stack = Stack { branches: vec![br("a", None, Some(1)), br("a", Some("x"), Some(2))] };
    assert_eq!(stack.find_branch(&"a".to_string()).unwrap().pr, Some(1));
    assert!(stack.find_branch(&"b".to_string()).is_none());
}

const FOOTER: &str = "\n---\n*Managed by [rung](https://github.com/auswm85/rung)*";

#[test]
fn stack_comment_lists_chain_newest_first() {
    let bs = sample();
    assert!(stack_comment_defined(&bs, 2));
    let expected = format!(
        "<!-- rung-stack -->\n* *(pending)* `c`\n* **#4**\n* **#2** 👈\n* **#1**\n* `main`\n{}",
        FOOTER
    );
    assert_eq!(generate_stack_comment(&bs, 2), expected);
}

#[test]
fn stack_comment_for_unknown_pr() {
    let expected = format!("<!-- rung-stack -->\n* `main`\n{}", FOOTER);
    assert_eq!(generate_stack_comment(&sample(), 99), expected);
}

#[test]
fn stack_comment_base_outside_stack() {
    let bs = vec![br("x", Some("develop"), Some(7)), br("y", Some("x"), Some(8))];
    let expected = format!("<!-- rung-stack -->\n* **#8** 👈\n* **#7**\n* `develop`\n{}", FOOTER);
    assert_eq!(generate_stack_comment(&bs, 8), expected);
}

#[test]
fn stack_comment_without_parent_rests_on_main() {
    let bs = vec![br("solo", None, Some(5))];
    let expected = format!("<!-- rung-stack -->\n* **#5** 👈\n* `main`\n{}", FOOTER);
    assert_eq!(generate_stack_comment(&bs, 5), expected);
}

#[test]
fn generated_comment_is_found_again() {
    let body = generate_stack_comment(&sample(), 1);
    let comments = vec![
        PrComment { id: 1, body: None },
        PrComment { id: 2, body: Some("looks good".to_string()) },
        PrComment { id: 3, body: Some(body) },
        PrComment { id: 4, body: Some(STACK_COMMENT_MARKER.to_string()) },
    ];
    assert_eq!(find_stack_comment(&comments), Some(2));
    assert_eq!(find_stack_comment(&comments[..2].to_vec_comments()), None);
}

trait ToVecComments {
    fn to_vec_comments(&self) -> Vec<PrComment>;
}

impl ToVecComments for [PrComment] {
    fn to_vec_comments(&self) -> Vec<PrComment> {
        self.iter().map(|c| PrComment { id: c.id, body: c.body.clone() }).collect()
    }
}
