//! The operator's review session: a state machine from command to next state
//! and action. The caller performs the actions (listing, executing,
//! deleting); this module decides them, so that no filesystem mutation can
//! happen without the operator's explicit confirmation.

use vstd::prelude::*;

use crate::text::{eq_ignore_case, lower_chars};

verus! {

/// How confirmed plan entries are committed: duplicating the sources or
/// renaming them. May be toggled while reviewing, frozen at confirmation.
#[derive(Clone, Copy, Debug, PartialEq, Eq, Structural)]
pub enum Mode {
    Copy,
    Move,
}

impl Mode {
    /// The other mode: what a toggle switches to.
    pub fn other(&self) -> (m: Mode)
        ensures
            m == other_mode(*self),
    {
        match self {
            Mode::Copy => Mode::Move,
            Mode::Move => Mode::Copy,
        }
    }

    /// The operator-facing name of the mode.
    pub fn name(&self) -> (r: &'static str)
        ensures
            r@ == mode_name(*self),
    {
        proof {
            reveal_strlit("copy");
            reveal_strlit("move");
        }
        match self {
            Mode::Copy => "copy",
            Mode::Move => "move",
        }
    }
}

/// What a toggle switches to.
pub open spec fn other_mode(m: Mode) -> Mode {
    match m {
        Mode::Copy => Mode::Move,
        Mode::Move => Mode::Copy,
    }
}

/// The name of each mode.
pub open spec fn mode_name(m: Mode) -> Seq<char> {
    match m {
        Mode::Copy => "copy"@,
        Mode::Move => "move"@,
    }
}

/// The session's state. `Reviewing` and `DeletionReviewing` await operator
/// commands; `Committed` lasts exactly as long as the caller runs the
/// confirmed execution, closed by [`finish_commit`]; `Done` and `Aborted` are
/// terminal.
#[derive(Clone, Copy, Debug, PartialEq, Eq, Structural)]
pub enum SessionState {
    Reviewing(Mode),
    Committed(Mode),
    DeletionReviewing,
    Done,
    Aborted,
}

/// One operator command, both menus together; each state recognises its own
/// vocabulary and rejects the rest.
#[derive(Clone, Copy, Debug, PartialEq, Eq, Structural)]
pub enum Command {
    ShowReady,
    ShowConflicts,
    ToggleMode,
    Abort,
    Confirm,
    Decline,
    ConfirmDelete,
    Unknown,
}

/// What the caller must do after a step. Only `Execute` and `DeleteSources`
/// touch the filesystem.
#[derive(Clone, Copy, Debug, PartialEq, Eq, Structural)]
pub enum Action {
    ShowReadyList,
    ShowConflictList,
    Execute(Mode),
    DeleteSources,
    Reject,
    Quiet,
}

/// The transition table. While reviewing, the mode may be toggled and the
/// lists inspected; `confirm` freezes the mode and orders execution; `abort`
/// leaves any interactive state with nothing done. After a copy-mode commit
/// the operator reviews the optional cleanup: declining ends the run,
/// confirming orders the deletion of the committed sources. Terminal states
/// ignore every command.
pub open spec fn step_spec(s: SessionState, c: Command) -> (SessionState, Action) {
    match s {
        SessionState::Reviewing(m) => match c {
            Command::ShowReady => (s, Action::ShowReadyList),
            Command::ShowConflicts => (s, Action::ShowConflictList),
            Command::ToggleMode => (SessionState::Reviewing(other_mode(m)), Action::Quiet),
            Command::Abort => (SessionState::Aborted, Action::Quiet),
            Command::Confirm => (SessionState::Committed(m), Action::Execute(m)),
            _ => (s, Action::Reject),
        },
        SessionState::DeletionReviewing => match c {
            Command::ShowReady => (s, Action::ShowReadyList),
            Command::Decline => (SessionState::Done, Action::Quiet),
            Command::ConfirmDelete => (SessionState::Done, Action::DeleteSources),
            Command::Abort => (SessionState::Aborted, Action::Quiet),
            _ => (s, Action::Reject),
        },
        _ => (s, Action::Quiet),
    }
}

/// Performs one step of the session.
pub fn step(s: SessionState, c: Command) -> (r: (SessionState, Action))
    ensures
        r == step_spec(s, c),
{
    match s {
        SessionState::Reviewing(m) => match c {
            Command::ShowReady => (s, Action::ShowReadyList),
            Command::ShowConflicts => (s, Action::ShowConflictList),
            Command::ToggleMode => (SessionState::Reviewing(m.other()), Action::Quiet),
            Command::Abort => (SessionState::Aborted, Action::Quiet),
            Command::Confirm => (SessionState::Committed(m), Action::Execute(m)),
            _ => (s, Action::Reject),
        },
        SessionState::DeletionReviewing => match c {
            Command::ShowReady => (s, Action::ShowReadyList),
            Command::Decline => (SessionState::Done, Action::Quiet),
            Command::ConfirmDelete => (SessionState::Done, Action::DeleteSources),
            Command::Abort => (SessionState::Aborted, Action::Quiet),
            _ => (s, Action::Reject),
        },
        _ => (s, Action::Quiet),
    }
}

/// Where a commit settles once the caller has run the execution: a copy-mode
/// commit moves on to the deletion review, a move-mode commit is done.
pub open spec fn finish_commit_spec(m: Mode) -> SessionState {
    match m {
        Mode::Copy => SessionState::DeletionReviewing,
        Mode::Move => SessionState::Done,
    }
}

/// Closes a commit after the caller has performed the ordered execution.
pub fn finish_commit(s: SessionState) -> (r: SessionState)
    requires
        s is Committed,
    ensures
        r == finish_commit_spec(s->Committed_0),
{
    match s {
        SessionState::Committed(Mode::Copy) => SessionState::DeletionReviewing,
        SessionState::Committed(Mode::Move) => SessionState::Done,
        _ => s,
    }
}

/// Reads one command of the review menu, matching the operator's input up to
/// ASCII letter case. The toggle word names the mode to switch to, as the
/// menu displays it.
pub fn parse_review_command(input: &str, mode: Mode) -> (c: Command)
    ensures
        c == review_command_of(input@, mode),
{
    proof {
        reveal_strlit("more");
        reveal_strlit("audit");
        reveal_strlit("abort");
        reveal_strlit("confirm");
        reveal_strlit("copy");
        reveal_strlit("move");
        lemma_keywords_lower();
    }
    if eq_ignore_case(input, "more") {
        Command::ShowReady
    } else if eq_ignore_case(input, "audit") {
        Command::ShowConflicts
    } else if eq_ignore_case(input, mode.other().name()) {
        Command::ToggleMode
    } else if eq_ignore_case(input, "abort") {
        Command::Abort
    } else if eq_ignore_case(input, "confirm") {
        Command::Confirm
    } else {
        Command::Unknown
    }
}

/// The review-menu vocabulary.
pub open spec fn review_command_of(input: Seq<char>, mode: Mode) -> Command {
    let w = lower_chars(input);
    if w == "more"@ {
        Command::ShowReady
    } else if w == "audit"@ {
        Command::ShowConflicts
    } else if w == mode_name(other_mode(mode)) {
        Command::ToggleMode
    } else if w == "abort"@ {
        Command::Abort
    } else if w == "confirm"@ {
        Command::Confirm
    } else {
        Command::Unknown
    }
}

/// Reads one command of the deletion-review menu.
pub fn parse_delete_command(input: &str) -> (c: Command)
    ensures
        c == delete_command_of(input@),
{
    proof {
        reveal_strlit("list");
        reveal_strlit("no");
        reveal_strlit("yes");
        reveal_strlit("abort");
        lemma_keywords_lower();
    }
    if eq_ignore_case(input, "list") {
        Command::ShowReady
    } else if eq_ignore_case(input, "no") {
        Command::Decline
    } else if eq_ignore_case(input, "yes") {
        Command::ConfirmDelete
    } else if eq_ignore_case(input, "abort") {
        Command::Abort
    } else {
        Command::Unknown
    }
}

/// The deletion-menu vocabulary.
pub open spec fn delete_command_of(input: Seq<char>) -> Command {
    let w = lower_chars(input);
    if w == "list"@ {
        Command::ShowReady
    } else if w == "no"@ {
        Command::Decline
    } else if w == "yes"@ {
        Command::ConfirmDelete
    } else if w == "abort"@ {
        Command::Abort
    } else {
        Command::Unknown
    }
}

/// The menu keywords are already lower case, so matching the lowered input
/// against them is matching up to case.
proof fn lemma_keywords_lower()
    ensures
        lower_chars("more"@) == "more"@,
        lower_chars("audit"@) == "audit"@,
        lower_chars("abort"@) == "abort"@,
        lower_chars("confirm"@) == "confirm"@,
        lower_chars("copy"@) == "copy"@,
        lower_chars("move"@) == "move"@,
        lower_chars("list"@) == "list"@,
        lower_chars("no"@) == "no"@,
        lower_chars("yes"@) == "yes"@,
{
    reveal_strlit("more");
    reveal_strlit("audit");
    reveal_strlit("abort");
    reveal_strlit("confirm");
    reveal_strlit("copy");
    reveal_strlit("move");
    reveal_strlit("list");
    reveal_strlit("no");
    reveal_strlit("yes");
    assert(lower_chars("more"@) =~= "more"@);
    assert(lower_chars("audit"@) =~= "audit"@);
    assert(lower_chars("abort"@) =~= "abort"@);
    assert(lower_chars("confirm"@) =~= "confirm"@);
    assert(lower_chars("copy"@) =~= "copy"@);
    assert(lower_chars("move"@) =~= "move"@);
    assert(lower_chars("list"@) =~= "list"@);
    assert(lower_chars("no"@) =~= "no"@);
    assert(lower_chars("yes"@) =~= "yes"@);
}

/// Whether an action touches the filesystem.
pub open spec fn is_mutating(a: Action) -> bool {
    a is Execute || a is DeleteSources
}

/// A mutating action is ordered only by an explicit confirmation: `Execute`
/// only by `confirm` while reviewing, `DeleteSources` only by the deletion
/// confirmation while reviewing the cleanup.
pub proof fn lemma_mutation_needs_confirmation(s: SessionState, c: Command)
    ensures
        step_spec(s, c).1 is Execute ==> s is Reviewing && c == Command::Confirm,
        step_spec(s, c).1 is DeleteSources ==> s == SessionState::DeletionReviewing && c
            == Command::ConfirmDelete,
{
}

/// The actions a command sequence produces, from a given state.
pub open spec fn run_actions(s: SessionState, cmds: Seq<Command>) -> Seq<Action>
    decreases cmds.len(),
{
    if cmds.len() == 0 {
        Seq::<Action>::empty()
    } else {
        seq![step_spec(s, cmds[0]).1] + run_actions(step_spec(s, cmds[0]).0, cmds.drop_first())
    }
}

/// A review session that is never confirmed mutates nothing: whatever the
/// operator does before aborting — listing, toggling, stray input, the abort
/// itself — no action of the whole run touches the filesystem.
pub proof fn lemma_abort_without_confirm_mutates_nothing(s: SessionState, cmds: Seq<Command>)
    requires
        s is Reviewing || s is Aborted,
        forall|k: int| 0 <= k < cmds.len() ==> cmds[k] != Command::Confirm,
    ensures
        forall|k: int| 0 <= k < run_actions(s, cmds).len() ==> !is_mutating(
            #[trigger] run_actions(s, cmds)[k],
        ),
    decreases cmds.len(),
{
    if cmds.len() > 0 {
        let next = step_spec(s, cmds[0]).0;
        assert(next is Reviewing || next is Aborted);
        assert(!is_mutating(step_spec(s, cmds[0]).1));
        assert(forall|k: int|
            0 <= k < cmds.drop_first().len() ==> cmds.drop_first()[k] != Command::Confirm);
        lemma_abort_without_confirm_mutates_nothing(next, cmds.drop_first());
        assert(forall|k: int|
            1 <= k < run_actions(s, cmds).len() ==> run_actions(s, cmds)[k] == run_actions(
                next,
                cmds.drop_first(),
            )[k - 1]);
    }
}

} // verus!
