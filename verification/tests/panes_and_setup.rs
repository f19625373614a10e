use eocc_core::event::{EventInfo, EventType, NotificationType, SessionStatus};
use eocc_core::git::{branch_from_remote_head, get_git_info, GitInfo};
use eocc_core::menu::parse_opacity_menu_id;
use eocc_core::paths::{get_config_dir, get_events_file, get_log_dir, get_settings_file};
use eocc_core::setup::{is_eocc_hook_command, strip_jsonc_comments};
use eocc_core::tmux::{get_pane_size, list_panes, validate_pane_id, TmuxPaneSize};

#[test]
fn pane_ids_are_percent_and_digits() {
    assert!(validate_pane_id("%0").is_ok());
    assert!(validate_pane_id("%123").is_ok());
    assert_eq!(validate_pane_id("%").unwrap_err(), "Invalid pane ID format: %");
    assert!(validate_pane_id("123").is_err());
    assert!(validate_pane_id("%12a").is_err());
    assert!(validate_pane_id("").is_err());
}

#[test]
fn pane_listings_parse_line_by_line() {
    let out = "main|1|editor|0|%3|1\nmain|2|logs|1|%7|0\nbroken|line\n";
    let panes = list_panes(out);
    assert_eq!(panes.len(), 2);
    assert_eq!(panes[0].session_name, "main");
    assert_eq!(panes[0].window_index, 1);
    assert_eq!(panes[0].window_name, "editor");
    assert_eq!(panes[0].pane_index, 0);
    assert_eq!(panes[0].pane_id, "%3");
    assert!(panes[0].is_active);
    assert!(!panes[1].is_active);
}

#[test]
fn malformed_pane_indices_become_zero() {
    let panes = list_panes("s|x|w|y|%1|0\n");
    assert_eq!(panes.len(), 1);
    assert_eq!(panes[0].window_index, 0);
    assert_eq!(panes[0].pane_index, 0);
}

#[test]
fn pane_size_reports_parse() {
    assert_eq!(get_pane_size("80x24\n").unwrap(), TmuxPaneSize { width: 80, height: 24 });
    assert_eq!(get_pane_size("  120x40  ").unwrap(), TmuxPaneSize { width: 120, height: 40 });
    assert_eq!(get_pane_size("junk").unwrap_err(), "Invalid pane size format: junk");
    assert_eq!(get_pane_size("ax24").unwrap_err(), "Invalid width: a");
    assert_eq!(get_pane_size("80xb").unwrap_err(), "Invalid height: b");
    assert!(get_pane_size("80x24x1").is_err());
}

#[test]
fn hook_commands_are_recognised_in_every_spelling() {
    assert!(is_eocc_hook_command("eocc-hook session_start"));
    assert!(is_eocc_hook_command("eocc-hook"));
    assert!(is_eocc_hook_command("/usr/local/bin/eocc-hook stop"));
    assert!(is_eocc_hook_command("~/.local/bin/eocc-hook"));
    assert!(!is_eocc_hook_command("other-hook stop"));
    assert!(!is_eocc_hook_command("eocc-hooked"));
    assert!(!is_eocc_hook_command("run my-eocc-hooks"));
}

#[test]
fn jsonc_comments_are_stripped_outside_strings() {
    let src = "{\n  // a comment\n  \"a\": \"x // not a comment\", /* block */ \"b\": 1\n}";
    let out = strip_jsonc_comments(src);
    assert_eq!(out, "{\n  \n  \"a\": \"x // not a comment\",  \"b\": 1\n}");
}

#[test]
fn jsonc_block_comment_unterminated_swallows_the_rest() {
    assert_eq!(strip_jsonc_comments("{\"a\":1} /* open"), "{\"a\":1} ");
    assert_eq!(strip_jsonc_comments("a/*x*/b"), "ab");
}

#[test]
fn jsonc_escaped_quotes_keep_string_state() {
    let src = "{\"a\": \"he said \\\"hi\\\" // ok\"}// tail";
    assert_eq!(strip_jsonc_comments(src), "{\"a\": \"he said \\\"hi\\\" // ok\"}");
}

#[test]
fn per_user_paths_are_spelled_from_home() {
    assert_eq!(get_config_dir("/home/u"), "/home/u/.eocc");
    assert_eq!(get_log_dir("/home/u"), "/home/u/.eocc/logs");
    assert_eq!(get_events_file("/home/u"), "/home/u/.eocc/logs/events.jsonl");
    assert_eq!(get_settings_file("/home/u"), "/home/u/.eocc/settings.json");
}

#[test]
fn opacity_menu_ids_parse() {
    assert_eq!(parse_opacity_menu_id("opacity_active_70"), Some((true, 70)));
    assert_eq!(parse_opacity_menu_id("opacity_inactive_30"), Some((false, 30)));
    assert_eq!(parse_opacity_menu_id("opacity_active_100"), Some((true, 100)));
    assert_eq!(parse_opacity_menu_id("opacity_bogus_10"), None);
    assert_eq!(parse_opacity_menu_id("opacity_active_x"), None);
    assert_eq!(parse_opacity_menu_id("always_on_top"), None);
    assert_eq!(parse_opacity_menu_id("opacity_"), None);
}

#[test]
fn git_info_is_blank_for_non_repositories() {
    let g = get_git_info(false, true, None, String::new(), String::new(), String::new(), false, false);
    assert!(!g.is_git_repo);
    assert_eq!(g.branch, "");
    let g = GitInfo::default();
    assert!(!g.is_git_repo);
    assert_eq!(g.default_branch, "");
}

#[test]
fn git_info_carries_probe_results() {
    let g = get_git_info(
        true,
        true,
        Some("feat".to_string()),
        "main".to_string(),
        "abc123".to_string(),
        "2 days ago".to_string(),
        true,
        false,
    );
    assert!(g.is_git_repo);
    assert_eq!(g.branch, "feat");
    assert_eq!(g.default_branch, "main");
    assert_eq!(g.latest_commit_hash, "abc123");
    assert!(g.has_unstaged_changes);
    assert!(!g.has_staged_changes);
}

#[test]
fn remote_head_references_name_their_branch() {
    assert_eq!(
        branch_from_remote_head("refs/remotes/origin/main"),
        Some("main".to_string())
    );
    assert_eq!(branch_from_remote_head("refs/remotes/origin/"), None);
    assert_eq!(branch_from_remote_head("refs/heads/main"), None);
}

#[test]
fn status_emojis_and_event_names() {
    assert_eq!(SessionStatus::Active.emoji(), "\u{1F7E2}");
    assert_eq!(SessionStatus::WaitingPermission.emoji(), "\u{1F510}");
    assert_eq!(SessionStatus::WaitingInput.emoji(), "\u{23F3}");
    assert_eq!(SessionStatus::Completed.emoji(), "\u{2705}");
    let e = EventInfo {
        timestamp: "t".to_string(),
        event_type: EventType::Stop,
        matcher: String::new(),
        project_name: "p".to_string(),
        project_dir: "/a".to_string(),
        session_id: "s".to_string(),
        message: String::new(),
        notification_type: NotificationType::Other,
        tool_name: String::new(),
    };
    assert_eq!(eocc_core::event::get_event_emoji(&e), "\u{2705}");
    assert_eq!(eocc_core::event::get_event_name(&e.event_type), "stop");
    let c = e.clone();
    assert_eq!(c.project_dir, "/a");
}
