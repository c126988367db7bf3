use onetcli::history_prompt::{HistoryPromptAccept, HistoryPromptMode, HistoryPromptState};

#[test]
fn history_prompt_invalidate_suspends_tracking_until_clear() {
    let mut state = HistoryPromptState::from_input("git");

    state.invalidate();
    state.append_text(" status");

    assert!(!state.is_valid());
    assert_eq!(state.input(), "git");
    assert!(state.matches().is_empty());

    state.clear();
    state.append_text("cargo");

    assert!(state.is_valid());
    assert_eq!(state.input(), "cargo");
}

#[test]
fn history_prompt_navigation_does_not_overwrite_input_query() {
    let mut state = HistoryPromptState::from_input("git s");
    state.set_matches(vec![
        "git status".to_string(),
        "git stash".to_string(),
        "git switch".to_string(),
    ]);

    assert_eq!(state.navigate_previous().as_deref(), Some("git status"));
    assert_eq!(state.input(), "git s");
    assert_eq!(state.query_input(), "git s");

    assert_eq!(state.navigate_previous().as_deref(), Some("git stash"));
    assert_eq!(state.input(), "git s");
    assert_eq!(state.query_input(), "git s");
}

#[test]
fn history_prompt_search_mode_tracks_query_without_mutating_shell_input() {
    let mut state = HistoryPromptState::from_input("git st");

    state.enter_search();
    state.append_text("status");

    assert_eq!(state.mode(), HistoryPromptMode::Search);
    assert_eq!(state.input(), "git st");
    assert_eq!(state.query_input(), "status");

    state.exit_search();

    assert_eq!(state.mode(), HistoryPromptMode::InlineSuggest);
    assert_eq!(state.input(), "git st");
    assert_eq!(state.query_input(), "git st");
    assert!(state.is_valid());
}

#[test]
fn history_prompt_search_mode_accepts_selection_as_full_replacement() {
    let mut state = HistoryPromptState::from_input("git st");
    state.enter_search();
    state.append_text("cargo");
    state.set_matches(vec!["cargo test".to_string(), "cargo check".to_string()]);

    let accepted = state.accept_selected_suggestion();

    assert_eq!(
        accepted,
        Some(HistoryPromptAccept::ReplaceLine("cargo test".to_string()))
    );
    assert_eq!(state.mode(), HistoryPromptMode::InlineSuggest);
    assert_eq!(state.input(), "cargo test");
    assert_eq!(state.query_input(), "cargo test");
}

#[test]
fn history_prompt_invalidate_exits_search_and_restores_shell_input() {
    let mut state = HistoryPromptState::from_input("git st");
    state.enter_search();
    state.append_text("cargo");
    state.set_matches(vec!["cargo test".to_string()]);

    state.invalidate();

    assert_eq!(state.mode(), HistoryPromptMode::InlineSuggest);
    assert_eq!(state.input(), "git st");
    assert_eq!(state.query_input(), "git st");
    assert!(!state.is_valid());
    assert!(state.matches().is_empty());
}

#[test]
fn history_prompt_inline_accept_appends_missing_suffix() {
    let mut state = HistoryPromptState::from_input("git s");
    state.set_matches(vec!["git status".to_string(), "cargo".to_string()]);
    assert_eq!(state.selected_match(), Some("git status"));
    assert_eq!(
        state.accept_selected_suggestion(),
        Some(HistoryPromptAccept::AppendSuffix("tatus".to_string()))
    );
    assert_eq!(state.input(), "git status");

    state.set_matches(vec!["git status".to_string()]);
    assert_eq!(state.accept_selected_suggestion(), None);

    state.set_matches(vec!["cargo".to_string()]);
    assert_eq!(state.accept_selected_suggestion(), None);
    assert_eq!(state.input(), "git status");
}

#[test]
fn history_prompt_navigate_next_returns_to_the_shell_line() {
    let mut state = HistoryPromptState::from_input("g");
    state.set_matches(vec!["git a".to_string(), "git b".to_string()]);
    assert_eq!(state.navigate_previous().as_deref(), Some("git a"));
    assert_eq!(state.navigate_previous().as_deref(), Some("git b"));
    assert_eq!(state.navigate_previous().as_deref(), Some("git b"));
    assert_eq!(state.selected_index(), 1);
    assert_eq!(state.navigate_next().as_deref(), Some("git a"));
    assert_eq!(state.navigate_next().as_deref(), Some("g"));
    assert_eq!(state.selected_index(), 0);
    assert_eq!(state.navigate_next().as_deref(), Some("git a"));
}

#[test]
fn history_prompt_paste_with_newline_invalidates_and_backspace_edits() {
    let mut state = HistoryPromptState::from_input("ab");
    state.backspace();
    assert_eq!(state.input(), "a");
    state.apply_paste("cd");
    assert_eq!(state.input(), "acd");
    state.apply_paste("x\ny");
    assert!(!state.is_valid());
    assert_eq!(state.input(), "acd");
    state.set_matches(vec!["acdx".to_string()]);
    assert!(state.matches().is_empty());
    assert_eq!(state.select_match(0), None);
}

#[test]
fn history_prompt_search_mode_selects_first_match_and_set_input_keeps_matches() {
    let mut state = HistoryPromptState::from_input("x");
    state.enter_search();
    state.set_matches(vec!["a".to_string(), "b".to_string()]);
    assert_eq!(state.selected_index(), 0);
    assert_eq!(state.select_match(1), Some("b".to_string()));
    state.set_matches(vec!["c".to_string()]);
    assert_eq!(state.selected_match(), Some("c"));
    assert_eq!(state.navigate_next().as_deref(), Some("c"));
    state.set_input("y".to_string());
    assert_eq!(state.mode(), HistoryPromptMode::InlineSuggest);
    assert_eq!(state.matches().len(), 1);
    assert_eq!(state.selected_match(), Some("c"));
}

#[test]
fn history_prompt_search_round_trip_restores_the_shell_line() {
    let mut state = HistoryPromptState::from_input("cargo b");
    state.enter_search();
    state.append_text("tes");
    state.backspace();
    state.append_text("st");
    state.set_matches(vec!["cargo test".to_string(), "cargo test --all".to_string()]);
    assert_eq!(state.navigate_previous(), Some("cargo test --all".to_string()));
    assert_eq!(state.navigate_next(), Some("cargo test".to_string()));
    assert_eq!(state.select_match(1), Some("cargo test --all".to_string()));
    state.dismiss_matches();
    assert_eq!(state.mode(), HistoryPromptMode::Search);
    assert_eq!(state.query_input(), "test");
    assert_eq!(state.input(), "cargo b");

    state.exit_search();
    assert_eq!(state.mode(), HistoryPromptMode::InlineSuggest);
    assert_eq!(state.input(), "cargo b");
    assert_eq!(state.query_input(), "cargo b");
    assert!(state.matches().is_empty());
}
