use rung_cli::title::{generate_title, get_pr_title_and_body, title_from_words, title_words_of};

#[test]
fn title_from_branch_name() {
    assert_eq!(generate_title("feature/add-user_auth"), "Add User Auth");
    assert_eq!(generate_title("fix--double__under"), "Fix Double Under");
    assert_eq!(generate_title("main"), "Main");
    assert_eq!(generate_title("a/b/c-d"), "C D");
    assert_eq!(generate_title("UPPER-case"), "UPPER Case");
}

#[test]
fn title_of_empty_names() {
    assert_eq!(generate_title(""), "");
    assert_eq!(generate_title("feat/"), "");
    assert_eq!(generate_title("--"), "");
}

#[test]
fn title_upper_cases_beyond_ascii() {
    assert_eq!(generate_title("feat/éclair"), "Éclair");
    assert_eq!(generate_title("ß-straße"), "SS Straße");
}

#[test]
fn title_pieces() {
    assert_eq!(title_words_of("x/add-user_auth"), vec!["add", "user", "auth"]);
    let words = vec!["add".to_string(), "auth".to_string()];
    let firsts = vec!["A".to_string(), "Au".to_string()];
    assert_eq!(title_from_words(&words, &firsts), "Add Auuth");
}

#[test]
fn title_and_body_from_message() {
    let (t, b) = get_pr_title_and_body(
        Some("Add login\n\nThis adds login.\n\n  - detail\n\n"),
        "feat/x",
    );
    assert_eq!(t, "Add login");
    assert_eq!(b, "This adds login.\n\n  - detail");
}

#[test]
fn title_only_message() {
    let (t, b) = get_pr_title_and_body(Some("  Title with spaces  \n"), "feat/x");
    assert_eq!(t, "Title with spaces");
    assert_eq!(b, "");
}

#[test]
fn crlf_message() {
    let (t, b) = get_pr_title_and_body(Some("Fix bug\r\n\r\nDetails\r\n"), "feat/x");
    assert_eq!(t, "Fix bug");
    assert_eq!(b, "Details");
}

#[test]
fn blank_title_falls_back_to_branch_name() {
    let (t, b) = get_pr_title_and_body(Some("\n\nBody"), "feat/my-branch");
    assert_eq!(t, "My Branch");
    assert_eq!(b, "");
    let (t, b) = get_pr_title_and_body(Some(""), "feat/my-branch");
    assert_eq!(t, "My Branch");
    assert_eq!(b, "");
}

#[test]
fn unreadable_message_falls_back_to_branch_name() {
    let (t, b) = get_pr_title_and_body(None, "feat/my-branch");
    assert_eq!(t, "My Branch");
    assert_eq!(b, "");
}
