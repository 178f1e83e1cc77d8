use photosort::session::{
    finish_commit, parse_delete_command, parse_review_command, step, Action, Command, Mode,
    SessionState,
};

#[test]
fn mode_toggles_both_ways() {
    assert_eq!(Mode::Copy.other(), Mode::Move);
    assert_eq!(Mode::Move.other(), Mode::Copy);
    assert_eq!(Mode::Copy.name(), "copy");
    assert_eq!(Mode::Move.name(), "move");
}

#[test]
fn scenario_abort_while_reviewing_mutates_nothing() {
    // the operator inspects the plan, toggles the mode, mistypes, and aborts:
    // no action of the whole session touches the filesystem
    let mut state = SessionState::Reviewing(Mode::Copy);
    let commands = vec![
        Command::ShowReady,
        Command::ShowConflicts,
        Command::ToggleMode,
        Command::Unknown,
        Command::Abort,
        Command::Confirm,
    ];
    for c in commands {
        let (next, action) = step(state, c);
        assert!(!matches!(action, Action::Execute(_)));
        assert!(!matches!(action, Action::DeleteSources));
        state = next;
    }
    assert_eq!(state, SessionState::Aborted);
}

#[test]
fn confirm_freezes_the_mode_and_executes() {
    let (state, action) = step(SessionState::Reviewing(Mode::Move), Command::Confirm);
    assert_eq!(state, SessionState::Committed(Mode::Move));
    assert_eq!(action, Action::Execute(Mode::Move));
    assert_eq!(finish_commit(state), SessionState::Done);
}

#[test]
fn copy_commit_offers_the_cleanup_review() {
    let (state, action) = step(SessionState::Reviewing(Mode::Copy), Command::Confirm);
    assert_eq!(state, SessionState::Committed(Mode::Copy));
    assert_eq!(action, Action::Execute(Mode::Copy));
    let state = finish_commit(state);
    assert_eq!(state, SessionState::DeletionReviewing);
    let (state, action) = step(state, Command::ConfirmDelete);
    assert_eq!(action, Action::DeleteSources);
    assert_eq!(state, SessionState::Done);
}

#[test]
fn declining_the_cleanup_deletes_nothing() {
    let (state, action) = step(SessionState::DeletionReviewing, Command::Decline);
    assert_eq!(action, Action::Quiet);
    assert_eq!(state, SessionState::Done);
}

#[test]
fn toggling_switches_the_reviewing_mode() {
    let (state, action) = step(SessionState::Reviewing(Mode::Copy), Command::ToggleMode);
    assert_eq!(state, SessionState::Reviewing(Mode::Move));
    assert_eq!(action, Action::Quiet);
}

#[test]
fn stray_input_is_rejected_in_place() {
    let (state, action) = step(SessionState::Reviewing(Mode::Copy), Command::Unknown);
    assert_eq!(state, SessionState::Reviewing(Mode::Copy));
    assert_eq!(action, Action::Reject);
    let (state, action) = step(SessionState::DeletionReviewing, Command::Confirm);
    assert_eq!(state, SessionState::DeletionReviewing);
    assert_eq!(action, Action::Reject);
}

#[test]
fn terminal_states_ignore_commands() {
    let (state, action) = step(SessionState::Aborted, Command::Confirm);
    assert_eq!(state, SessionState::Aborted);
    assert_eq!(action, Action::Quiet);
    let (state, action) = step(SessionState::Done, Command::ConfirmDelete);
    assert_eq!(state, SessionState::Done);
    assert_eq!(action, Action::Quiet);
}

#[test]
fn review_commands_match_up_to_case() {
    assert_eq!(parse_review_command("more", Mode::Copy), Command::ShowReady);
    assert_eq!(parse_review_command("MORE", Mode::Copy), Command::ShowReady);
    assert_eq!(parse_review_command("audit", Mode::Copy), Command::ShowConflicts);
    assert_eq!(parse_review_command("abort", Mode::Copy), Command::Abort);
    assert_eq!(parse_review_command("Confirm", Mode::Copy), Command::Confirm);
    assert_eq!(parse_review_command("nonsense", Mode::Copy), Command::Unknown);
}

#[test]
fn toggle_word_names_the_other_mode() {
    assert_eq!(parse_review_command("move", Mode::Copy), Command::ToggleMode);
    assert_eq!(parse_review_command("copy", Mode::Move), Command::ToggleMode);
    // the current mode's own name is not on the menu
    assert_eq!(parse_review_command("copy", Mode::Copy), Command::Unknown);
    assert_eq!(parse_review_command("move", Mode::Move), Command::Unknown);
}

#[test]
fn delete_commands_match_up_to_case() {
    assert_eq!(parse_delete_command("list"), Command::ShowReady);
    assert_eq!(parse_delete_command("LIST"), Command::ShowReady);
    assert_eq!(parse_delete_command("no"), Command::Decline);
    assert_eq!(parse_delete_command("yes"), Command::ConfirmDelete);
    assert_eq!(parse_delete_command("abort"), Command::Abort);
    assert_eq!(parse_delete_command("nope"), Command::Unknown);
}
