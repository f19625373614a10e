use eocc_core::difit::{
    calculate_diff_hash, diff_type_from_str, finalize_diff_content, generate_diff_window_label,
    html_escape, parse_difit_ready_line, DiffType,
};

#[test]
fn git_args_per_diff_kind() {
    assert_eq!(DiffType::Unstaged.git_diff_args(None).unwrap(), vec!["diff"]);
    assert_eq!(DiffType::Staged.git_diff_args(None).unwrap(), vec!["diff", "--cached"]);
    assert_eq!(
        DiffType::LatestCommit.git_diff_args(None).unwrap(),
        vec!["diff", "HEAD~1", "HEAD"]
    );
    assert_eq!(DiffType::Branch.git_diff_args(None).unwrap(), vec!["diff", "main", "HEAD"]);
    assert_eq!(
        DiffType::Branch.git_diff_args(Some("develop")).unwrap(),
        vec!["diff", "develop", "HEAD"]
    );
}

#[test]
fn branch_names_starting_with_a_dash_are_rejected() {
    let err = DiffType::Branch.git_diff_args(Some("--exec=boom")).unwrap_err();
    assert_eq!(err, "Invalid branch name: --exec=boom");
    // only a leading dash is an injection risk
    assert!(DiffType::Branch.git_diff_args(Some("fix-1")).is_ok());
}

#[test]
fn diff_kind_names() {
    assert_eq!(diff_type_from_str("unstaged"), Some(DiffType::Unstaged));
    assert_eq!(diff_type_from_str("staged"), Some(DiffType::Staged));
    assert_eq!(diff_type_from_str("commit"), Some(DiffType::LatestCommit));
    assert_eq!(diff_type_from_str("branch"), Some(DiffType::Branch));
    assert_eq!(diff_type_from_str("weird"), None);
}

#[test]
fn unstaged_content_takes_untracked_diffs_along() {
    let r = finalize_diff_content(b"main".to_vec(), b"+new".to_vec(), DiffType::Unstaged);
    assert_eq!(r.unwrap(), b"main+new".to_vec());
    let r = finalize_diff_content(b"main".to_vec(), b"+new".to_vec(), DiffType::Staged);
    assert_eq!(r.unwrap(), b"main".to_vec());
}

#[test]
fn empty_diff_content_is_an_error_not_a_page() {
    let r = finalize_diff_content(Vec::new(), Vec::new(), DiffType::Unstaged);
    assert_eq!(r.unwrap_err(), "No diff content to display");
    // untracked content alone keeps an unstaged diff alive
    let r = finalize_diff_content(Vec::new(), b"x".to_vec(), DiffType::Unstaged);
    assert_eq!(r.unwrap(), b"x".to_vec());
    let r = finalize_diff_content(Vec::new(), b"x".to_vec(), DiffType::Branch);
    assert!(r.is_err());
}

#[test]
fn content_hash_is_deterministic_per_content() {
    let h1 = calculate_diff_hash(b"diff --git a b");
    let h2 = calculate_diff_hash(b"diff --git a b");
    assert_eq!(h1, h2);
    // a change-detection fingerprint must react to a change
    let h3 = calculate_diff_hash(b"diff --git a c");
    assert_ne!(h1, h3);
}

#[test]
fn window_labels_are_stable_and_distinguish_requests() {
    let l1 = generate_diff_window_label("/repo", "unstaged");
    let l2 = generate_diff_window_label("/repo", "unstaged");
    assert_eq!(l1, l2);
    assert!(l1.starts_with("difit-"));
    let l3 = generate_diff_window_label("/repo", "staged");
    let l4 = generate_diff_window_label("/other", "unstaged");
    assert_ne!(l1, l3);
    assert_ne!(l1, l4);
}

#[test]
fn ready_line_yields_the_bound_port() {
    assert_eq!(
        parse_difit_ready_line("difit server started on http://localhost:4970"),
        Some(4970)
    );
    assert_eq!(
        parse_difit_ready_line("[info] difit server started on http://localhost:5000 "),
        Some(5000)
    );
}

#[test]
fn other_diagnostic_lines_yield_nothing() {
    assert_eq!(parse_difit_ready_line("listening on http://localhost:4970"), None);
    assert_eq!(parse_difit_ready_line("difit server started on port 4970"), None);
    assert_eq!(parse_difit_ready_line("difit server started on http://0.0.0.0:4970"), None);
    assert_eq!(parse_difit_ready_line("difit server started on http://localhost:notaport"), None);
    assert_eq!(parse_difit_ready_line("difit server started on http://localhost:99999"), None);
    assert_eq!(parse_difit_ready_line(""), None);
}

#[test]
fn html_escaping_is_exact() {
    assert_eq!(html_escape("a<b>&\"c\""), "a&lt;b&gt;&amp;&quot;c&quot;");
    assert_eq!(html_escape("plain"), "plain");
    assert_eq!(html_escape(""), "");
}
