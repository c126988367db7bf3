use onetcli::history::{
    collect_history_search_results, collect_history_suggestions, normalize_history_command,
    parse_shell_history, push_history_entry, rank_history_commands, ShellHistoryFormat,
};
use std::collections::VecDeque;

#[test]
fn normalize_history_command_trims_and_rejects_blank_input() {
    assert_eq!(
        normalize_history_command("  git status  "),
        Some("git status".to_string())
    );
    assert_eq!(normalize_history_command("   "), None);
    assert_eq!(normalize_history_command("\n\t"), None);
}

#[test]
fn parse_shell_history_supports_zsh_extended_format() {
    let commands = parse_shell_history(
        ": 1710000000:0;git status\n: 1710000001:0;cargo test\n",
        ShellHistoryFormat::Zsh,
    );

    assert_eq!(commands, vec!["git status", "cargo test"]);
}

#[test]
fn push_history_entry_dedupes_adjacent_duplicates() {
    let mut entries = VecDeque::new();
    push_history_entry(&mut entries, "git status", 5);
    push_history_entry(&mut entries, "git status", 5);
    push_history_entry(&mut entries, "cargo test", 5);

    assert_eq!(
        entries.into_iter().collect::<Vec<_>>(),
        vec!["git status", "cargo test"]
    );
}

#[test]
fn collect_history_suggestions_prioritizes_session_history() {
    let session = VecDeque::from([
        "git status".to_string(),
        "git stash".to_string(),
        "cargo test".to_string(),
    ]);
    let persisted = vec![
        "git status".to_string(),
        "git switch main".to_string(),
        "git commit".to_string(),
    ];

    let matches = collect_history_suggestions(&session, &persisted, "git s", 4);

    assert_eq!(
        matches,
        vec![
            "git stash".to_string(),
            "git status".to_string(),
            "git switch main".to_string()
        ]
    );
}

#[test]
fn collect_history_suggestions_skips_empty_prefix() {
    let session = VecDeque::from(["git status".to_string()]);
    let persisted = vec!["git switch".to_string()];

    let matches = collect_history_suggestions(&session, &persisted, "   ", 5);

    assert!(matches.is_empty());
}

#[test]
fn collect_history_search_results_prefers_prefix_then_token_then_subsequence() {
    let session = VecDeque::from([
        "git log".to_string(),
        "git status".to_string(),
        "git stash".to_string(),
        "cargo test".to_string(),
    ]);
    let persisted = vec![
        "status report".to_string(),
        "cargo status".to_string(),
        "gitstatus checkout".to_string(),
    ];

    let matches = collect_history_search_results(&session, &persisted, "status", 5);

    assert_eq!(
        matches,
        vec![
            "status report".to_string(),
            "git status".to_string(),
            "cargo status".to_string(),
            "gitstatus checkout".to_string(),
        ]
    );
}

#[test]
fn collect_history_search_results_breaks_ties_by_session_recency() {
    let session = VecDeque::from([
        "git status".to_string(),
        "git stash".to_string(),
        "go test ./...".to_string(),
    ]);
    let persisted = vec![
        "gh stack sync".to_string(),
        "git switch main".to_string(),
        "cargo test".to_string(),
    ];

    let matches = collect_history_search_results(&session, &persisted, "gsta", 3);

    assert_eq!(
        matches,
        vec![
            "git stash".to_string(),
            "git status".to_string(),
            "git switch main".to_string(),
        ]
    );
}

#[test]
fn parse_shell_history_bash_keeps_every_non_blank_line() {
    let commands = parse_shell_history("ls -la\r\n\n   \ncd /tmp\nexit", ShellHistoryFormat::Bash);
    assert_eq!(commands, vec!["ls -la", "cd /tmp", "exit"]);
}

#[test]
fn parse_shell_history_zsh_line_without_separator_is_kept_whole() {
    let commands = parse_shell_history("plain command\n: 1:0;\n", ShellHistoryFormat::Zsh);
    assert_eq!(commands, vec!["plain command"]);
}

#[test]
fn push_history_entry_drops_oldest_beyond_limit_and_rejects_blank() {
    let mut entries = VecDeque::new();
    assert!(push_history_entry(&mut entries, "a", 2));
    assert!(push_history_entry(&mut entries, "b", 2));
    assert!(push_history_entry(&mut entries, " c ", 2));
    assert!(!push_history_entry(&mut entries, "   ", 2));
    assert!(!push_history_entry(&mut entries, "c", 2));
    assert_eq!(entries.iter().cloned().collect::<Vec<_>>(), vec!["b", "c"]);
    assert!(push_history_entry(&mut entries, "d", 0));
    assert_eq!(entries.iter().cloned().collect::<Vec<_>>(), vec!["d"]);
}

#[test]
fn collect_history_search_results_matches_case_insensitively_and_lists_all_for_blank_query() {
    let session = VecDeque::from(["Git Status".to_string(), "ls".to_string()]);
    let persisted = vec!["ls".to_string(), "make".to_string()];
    assert_eq!(
        collect_history_search_results(&session, &persisted, "  GIT ", 5),
        vec!["Git Status".to_string()]
    );
    assert_eq!(
        collect_history_search_results(&session, &persisted, " ", 2),
        vec!["ls".to_string(), "Git Status".to_string()]
    );
}

#[test]
fn rank_history_commands_orders_by_rank_then_position() {
    let commands = vec!["xay".to_string(), "b a".to_string(), "ab".to_string(), "zz".to_string()];
    let lowered = commands.clone();
    assert_eq!(
        rank_history_commands(&commands, &lowered, "a", 10),
        vec!["ab".to_string(), "b a".to_string(), "xay".to_string()]
    );
    assert_eq!(
        rank_history_commands(&commands, &lowered, "a", 0),
        vec!["ab".to_string()]
    );
}
