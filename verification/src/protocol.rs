//! The view state machine of a session: how the list, detail and command
//! views follow one another, and what a command asks of the caller.
//!
//! A session decides; it never reads or writes a file. Where a command
//! needs a file written, `execute_command` says so in its result, the
//! caller does the writing with the help of the save operations of the
//! session, and `saved` or `save_failed` takes the outcome.

use crate::app_state::{AppState, FileMode, MoveState, View};
use crate::editor::{editor_in_normal_mode, editor_is_normal};
use crate::text::str_eq;
use crate::tree::{first_navigable, last_navigable};
use vstd::prelude::*;
use vstd::string::*;
use vstd::view::View as _;

verus! {

/// What is to happen once the content of the open section was saved.
#[derive(Clone, Copy, Debug, PartialEq, Eq, Structural)]
pub enum AfterSave {
    /// Stay in the detail view.
    Stay,
    /// Leave for the list.
    Leave,
    /// Leave for the list and select the next section.
    Next,
    /// Leave for the list and select the previous section.
    Prev,
}

/// What a command asks of the caller.
#[derive(Clone, Copy, Debug, PartialEq, Eq, Structural)]
pub enum CommandEffect {
    /// Nothing: the session has done all there was to do.
    Done,
    /// Write the reordered sections to their files and parse every file
    /// anew.
    SaveReorder,
    /// Write the content of the open section to its file and parse that
    /// file anew; then go on as `then` says.
    SaveCurrent { then: AfterSave },
    /// Leave the program.
    Quit,
    /// Leave the sections for the selection of a file.
    ShowFiles,
}

/// A key as the list view distinguishes it.
#[derive(Clone, Copy, Debug, PartialEq, Eq, Structural)]
pub enum Key {
    /// A key that stands for a character.
    Char(char),
    Up,
    Down,
    Left,
    Right,
    Home,
    End,
    Enter,
    Esc,
    /// Any other key.
    Other,
}

/// A key together with the modifiers held while it was pressed.
#[derive(Clone, Copy, Debug, PartialEq, Eq, Structural)]
pub struct KeyPress {
    pub key: Key,
    pub ctrl: bool,
    pub shift: bool,
}

/// What a key asks for in the list view.
#[derive(Clone, Copy, Debug, PartialEq, Eq, Structural)]
pub enum ListAction {
    /// Nothing.
    Ignore,
    /// Leave the program.
    Quit,
    /// Leave the sections for the selection of a file.
    ShowFiles,
    /// Mark the section under the selection as the one to move.
    StartMove,
    MoveUp,
    MoveDown,
    MoveIn,
    MoveOut,
    MoveToTop,
    MoveToBottom,
    /// Put the selection on the previous row.
    SelectPrev,
    /// Put the selection on the next row.
    SelectNext,
    SelectPrevSibling,
    SelectNextSibling,
    SelectParent,
    SelectDescendant,
    SelectFirst,
    SelectLast,
    SelectFirstAtLevel,
    SelectLastAtLevel,
    /// Call off a move, if one is under way.
    Escape,
    OpenCommandLine,
    /// Open the section under the selection in the editor.
    EnterDetail,
}

/// What a key asks for in the list view. With the control key held, the
/// arrows and Home and End move the section; a move starts with the first
/// vertical arrow. With the shift key held they go by siblings and levels.
/// A section cannot be opened while one is being moved.
pub open spec fn list_action_of(press: KeyPress, moving: bool, mode: FileMode) -> ListAction {
    match press.key {
        Key::Char(c) => if c == 'q' {
            if mode == FileMode::Multi {
                ListAction::ShowFiles
            } else {
                ListAction::Quit
            }
        } else if c == 'h' {
            sideways(press.ctrl, moving, ListAction::MoveIn, ListAction::SelectParent)
        } else if c == 'l' {
            sideways(press.ctrl, moving, ListAction::MoveOut, ListAction::SelectDescendant)
        } else if c == ':' {
            ListAction::OpenCommandLine
        } else {
            ListAction::Ignore
        },
        Key::Up => if press.ctrl {
            if moving {
                ListAction::MoveUp
            } else {
                ListAction::StartMove
            }
        } else if press.shift {
            ListAction::SelectPrevSibling
        } else {
            ListAction::SelectPrev
        },
        Key::Down => if press.ctrl {
            if moving {
                ListAction::MoveDown
            } else {
                ListAction::StartMove
            }
        } else if press.shift {
            ListAction::SelectNextSibling
        } else {
            ListAction::SelectNext
        },
        Key::Left => sideways(press.ctrl, moving, ListAction::MoveIn, ListAction::SelectParent),
        Key::Right => sideways(
            press.ctrl,
            moving,
            ListAction::MoveOut,
            ListAction::SelectDescendant,
        ),
        Key::Home => if press.ctrl {
            if moving {
                ListAction::MoveToTop
            } else {
                ListAction::Ignore
            }
        } else if press.shift {
            ListAction::SelectFirstAtLevel
        } else {
            ListAction::SelectFirst
        },
        Key::End => if press.ctrl {
            if moving {
                ListAction::MoveToBottom
            } else {
                ListAction::Ignore
            }
        } else if press.shift {
            ListAction::SelectLastAtLevel
        } else {
            ListAction::SelectLast
        },
        Key::Esc => ListAction::Escape,
        Key::Enter => if moving {
            ListAction::Ignore
        } else {
            ListAction::EnterDetail
        },
        Key::Other => ListAction::Ignore,
    }
}

/// What a horizontal key asks for: with the control key a change of level,
/// and that only while a section is being moved; without it a step in the
/// hierarchy.
pub open spec fn sideways(ctrl: bool, moving: bool, level: ListAction, step: ListAction)
    -> ListAction {
    if ctrl {
        if moving {
            level
        } else {
            ListAction::Ignore
        }
    } else {
        step
    }
}

/// A command as the command line understands it.
#[derive(Clone, Copy, Debug, PartialEq, Eq, Structural)]
pub enum Command {
    /// `w`: save and stay.
    Write,
    /// `x`: save and leave.
    WriteQuit,
    /// `q` or `q!`: leave without saving.
    Quit,
    /// `wn`: save and go to the next section.
    WriteNext,
    /// `wp`: save and go to the previous section.
    WritePrev,
    /// Anything else.
    Unknown,
}

/// The command that a line of text stands for.
pub open spec fn command_of(line: Seq<char>) -> Command {
    if line == "w"@ {
        Command::Write
    } else if line == "x"@ {
        Command::WriteQuit
    } else if line == "q"@ || line == "q!"@ {
        Command::Quit
    } else if line == "wn"@ {
        Command::WriteNext
    } else if line == "wp"@ {
        Command::WritePrev
    } else {
        Command::Unknown
    }
}

/// What a command asks of the caller in a given state.
pub open spec fn effect_of(state: AppState, command: Command) -> CommandEffect {
    match command {
        Command::Write => if state.move_state == MoveState::Moved {
            CommandEffect::SaveReorder
        } else if state.editor_state is Some {
            CommandEffect::SaveCurrent { then: AfterSave::Stay }
        } else {
            CommandEffect::Done
        },
        Command::WriteQuit => if state.move_state == MoveState::Moved {
            CommandEffect::SaveReorder
        } else if state.editor_state is Some {
            CommandEffect::SaveCurrent { then: AfterSave::Leave }
        } else {
            CommandEffect::Done
        },
        Command::Quit => if state.editor_state is Some || state.move_state != MoveState::Idle {
            CommandEffect::Done
        } else if state.file_mode == FileMode::Single {
            CommandEffect::Quit
        } else {
            CommandEffect::ShowFiles
        },
        Command::WriteNext => if state.editor_state is Some {
            CommandEffect::SaveCurrent { then: AfterSave::Next }
        } else {
            CommandEffect::Done
        },
        Command::WritePrev => if state.editor_state is Some {
            CommandEffect::SaveCurrent { then: AfterSave::Prev }
        } else {
            CommandEffect::Done
        },
        Command::Unknown => CommandEffect::Done,
    }
}

/// Whether a status message is there and reads `text`.
pub open spec fn says(message: Option<String>, text: Seq<char>) -> bool {
    message matches Some(m) && m@ == text
}

/// Whether `after` is `before` back in the list view with an empty command
/// line, and otherwise changed at most in the editor, the status message
/// and the state of a move.
pub open spec fn command_done(before: AppState, after: AppState) -> bool {
    &&& after.current_view == View::List
    &&& after.command_buffer@.len() == 0
    &&& after == (AppState {
        current_view: after.current_view,
        command_buffer: after.command_buffer,
        editor_state: after.editor_state,
        message: after.message,
        move_state: after.move_state,
        moving_section_index: after.moving_section_index,
        ..before
    })
}

/// The command that a line of text stands for.
pub fn parse_command(line: &str) -> (r: Command)
    ensures
        r == command_of(line@),
{
    if str_eq(line, "w") {
        Command::Write
    } else if str_eq(line, "x") {
        Command::WriteQuit
    } else if str_eq(line, "q") || str_eq(line, "q!") {
        Command::Quit
    } else if str_eq(line, "wn") {
        Command::WriteNext
    } else if str_eq(line, "wp") {
        Command::WritePrev
    } else {
        Command::Unknown
    }
}

/// What a horizontal key asks for.
fn sideways_action(ctrl: bool, moving: bool, level: ListAction, step: ListAction) -> (r:
    ListAction)
    ensures
        r == sideways(ctrl, moving, level, step),
{
    if ctrl {
        if moving {
            level
        } else {
            ListAction::Ignore
        }
    } else {
        step
    }
}

impl AppState {
    /// What a key asks for in the list view, given whether a section is
    /// being moved and how many files show.
    pub fn list_action(&self, press: KeyPress) -> (r: ListAction)
        ensures
            r == list_action_of(press, self.move_state != MoveState::Idle, self.file_mode),
    {
        let moving = self.move_state != MoveState::Idle;
        match press.key {
            Key::Char(c) => {
                if c == 'q' {
                    if self.file_mode == FileMode::Multi {
                        ListAction::ShowFiles
                    } else {
                        ListAction::Quit
                    }
                } else if c == 'h' {
                    sideways_action(
                        press.ctrl,
                        moving,
                        ListAction::MoveIn,
                        ListAction::SelectParent,
                    )
                } else if c == 'l' {
                    sideways_action(
                        press.ctrl,
                        moving,
                        ListAction::MoveOut,
                        ListAction::SelectDescendant,
                    )
                } else if c == ':' {
                    ListAction::OpenCommandLine
                } else {
                    ListAction::Ignore
                }
            },
            Key::Up => {
                if press.ctrl {
                    if moving {
                        ListAction::MoveUp
                    } else {
                        ListAction::StartMove
                    }
                } else if press.shift {
                    ListAction::SelectPrevSibling
                } else {
                    ListAction::SelectPrev
                }
            },
            Key::Down => {
                if press.ctrl {
                    if moving {
                        ListAction::MoveDown
                    } else {
                        ListAction::StartMove
                    }
                } else if press.shift {
                    ListAction::SelectNextSibling
                } else {
                    ListAction::SelectNext
                }
            },
            Key::Left => sideways_action(
                press.ctrl,
                moving,
                ListAction::MoveIn,
                ListAction::SelectParent,
            ),
            Key::Right => sideways_action(
                press.ctrl,
                moving,
                ListAction::MoveOut,
                ListAction::SelectDescendant,
            ),
            Key::Home => {
                if press.ctrl {
                    if moving {
                        ListAction::MoveToTop
                    } else {
                        ListAction::Ignore
                    }
                } else if press.shift {
                    ListAction::SelectFirstAtLevel
                } else {
                    ListAction::SelectFirst
                }
            },
            Key::End => {
                if press.ctrl {
                    if moving {
                        ListAction::MoveToBottom
                    } else {
                        ListAction::Ignore
                    }
                } else if press.shift {
                    ListAction::SelectLastAtLevel
                } else {
                    ListAction::SelectLast
                }
            },
            Key::Esc => ListAction::Escape,
            Key::Enter => {
                if moving {
                    ListAction::Ignore
                } else {
                    ListAction::EnterDetail
                }
            },
            Key::Other => ListAction::Ignore,
        }
    }

    /// Whether a key that could change the view is for the session and not
    /// for the editor: in the detail view that is so only while the editor
    /// is in normal mode.
    pub fn intercepts_keys(&self) -> (r: bool)
        ensures
            r == match self.current_view {
                View::Detail => self.editor_state matches Some(editor) && editor_in_normal_mode(
                    editor,
                ),
                _ => true,
            },
    {
        match self.current_view {
            View::Detail => match &self.editor_state {
                Some(editor) => editor_is_normal(editor),
                None => false,
            },
            _ => true,
        }
    }

    /// Opens the command line, from the list or from the detail view: the
    /// command line is empty and the status message is gone. In the detail
    /// view this happens only while the editor is in normal mode; the
    /// result says whether it happened.
    pub fn open_command_line(&mut self) -> (opened: bool)
        ensures
            opened == (old(self).current_view != View::Command && match old(self).current_view {
                View::Detail => old(self).editor_state matches Some(editor)
                    && editor_in_normal_mode(editor),
                _ => true,
            }),
            if opened {
                &&& final(self).current_view == View::Command
                &&& final(self).command_buffer@.len() == 0
                &&& final(self).message is None
                &&& *final(self) == (AppState {
                    current_view: final(self).current_view,
                    command_buffer: final(self).command_buffer,
                    message: final(self).message,
                    ..*old(self)
                })
            } else {
                *final(self) == *old(self)
            },
    {
        if self.current_view == View::Command || !self.intercepts_keys() {
            return false;
        }
        self.current_view = View::Command;
        self.command_buffer = String::new();
        self.message = None;
        true
    }

    /// Takes an escape: it closes the command line, leaves the detail view
    /// without saving while the editor is in normal mode, and calls off a
    /// move in the list view. The result says whether the escape was for
    /// the session; if not, it is for the editor.
    pub fn escape(&mut self) -> (taken: bool)
        ensures
            match old(self).current_view {
                View::Command => taken && *final(self) == (AppState {
                    current_view: View::List,
                    command_buffer: final(self).command_buffer,
                    ..*old(self)
                }) && final(self).command_buffer@.len() == 0,
                View::Detail => if old(self).editor_state matches Some(editor)
                    && editor_in_normal_mode(editor) {
                    taken && *final(self) == (AppState {
                        editor_state: None,
                        current_view: View::List,
                        ..*old(self)
                    })
                } else {
                    !taken && *final(self) == *old(self)
                },
                View::List => taken && *final(self) == if old(self).move_state
                    != MoveState::Idle {
                    AppState {
                        moving_section_index: None,
                        move_state: MoveState::Idle,
                        ..*old(self)
                    }
                } else {
                    *old(self)
                },
            },
    {
        match self.current_view {
            View::Command => {
                self.current_view = View::List;
                self.command_buffer = String::new();
                true
            },
            View::Detail => {
                if self.intercepts_keys() {
                    self.exit_detail_view(false);
                    true
                } else {
                    false
                }
            },
            View::List => {
                if self.move_state != MoveState::Idle {
                    self.cancel_move();
                }
                true
            },
        }
    }

    /// Executes the command on the command line. The session returns to
    /// the list view with an empty command line, does what it can do by
    /// itself, and says in its result what is left for the caller to do.
    ///
    /// `w` and `x` save a reorder that is under way, else the open section;
    /// `wn` and `wp` save the open section; `q` and `q!` close the editor
    /// without saving, else call off a move, else leave. Saving with
    /// nothing to save and an unknown command leave a message.
    pub fn execute_command(&mut self) -> (effect: CommandEffect)
        ensures
            effect == effect_of(*old(self), command_of(old(self).command_buffer@)),
            command_done(*old(self), *final(self)),
            match command_of(old(self).command_buffer@) {
                Command::Quit => {
                    &&& final(self).editor_state is None
                    &&& final(self).message == old(self).message
                    &&& if old(self).editor_state is None && old(self).move_state
                        != MoveState::Idle {
                        final(self).move_state == MoveState::Idle
                            && final(self).moving_section_index is None
                    } else {
                        final(self).move_state == old(self).move_state
                            && final(self).moving_section_index == old(
                            self,
                        ).moving_section_index
                    }
                },
                command => {
                    &&& final(self).editor_state == old(self).editor_state
                    &&& final(self).move_state == old(self).move_state
                    &&& final(self).moving_section_index == old(self).moving_section_index
                    &&& match command {
                        Command::Write => if effect == CommandEffect::Done {
                            says(final(self).message, "Nothing to save"@)
                        } else {
                            final(self).message == old(self).message
                        },
                        Command::Unknown => says(
                            final(self).message,
                            "Unknown command: "@ + old(self).command_buffer@,
                        ),
                        _ => final(self).message == old(self).message,
                    }
                },
            },
    {
        let command = parse_command(self.command_buffer.as_str());
        self.current_view = View::List;
        let effect = match command {
            Command::Write => {
                if self.move_state == MoveState::Moved {
                    CommandEffect::SaveReorder
                } else if self.editor_state.is_some() {
                    CommandEffect::SaveCurrent { then: AfterSave::Stay }
                } else {
                    self.message = Some(String::from_str("Nothing to save"));
                    CommandEffect::Done
                }
            },
            Command::WriteQuit => {
                if self.move_state == MoveState::Moved {
                    CommandEffect::SaveReorder
                } else if self.editor_state.is_some() {
                    CommandEffect::SaveCurrent { then: AfterSave::Leave }
                } else {
                    CommandEffect::Done
                }
            },
            Command::Quit => {
                if self.editor_state.is_some() {
                    self.editor_state = None;
                    CommandEffect::Done
                } else if self.move_state != MoveState::Idle {
                    self.cancel_move();
                    CommandEffect::Done
                } else if self.file_mode == FileMode::Single {
                    CommandEffect::Quit
                } else {
                    CommandEffect::ShowFiles
                }
            },
            Command::WriteNext => {
                if self.editor_state.is_some() {
                    CommandEffect::SaveCurrent { then: AfterSave::Next }
                } else {
                    CommandEffect::Done
                }
            },
            Command::WritePrev => {
                if self.editor_state.is_some() {
                    CommandEffect::SaveCurrent { then: AfterSave::Prev }
                } else {
                    CommandEffect::Done
                }
            },
            Command::Unknown => {
                let mut text = String::from_str("Unknown command: ");
                text.append(self.command_buffer.as_str());
                self.message = Some(text);
                CommandEffect::Done
            },
        };
        self.command_buffer = String::new();
        effect
    }

    /// Goes on after the content of the open section was saved.
    ///
    /// `Stay` keeps the detail view open. `Leave` closes it, the lines of
    /// the editor staying with the section as its buffered lines. `Next`
    /// and `Prev` do the same and move the selection to the next or
    /// previous row on which it can rest; where there is none, the detail
    /// view stays as it is and a message says so.
    pub fn saved(&mut self, then: AfterSave)
        requires
            old(self).wf(),
        ensures
            final(self).wf(),
            match then {
                AfterSave::Stay => *final(self) == (AppState {
                    current_view: View::Detail,
                    ..*old(self)
                }),
                AfterSave::Leave => left_detail(*old(self), *final(self))
                    && final(self).current_node_index == old(self).current_node_index
                    && final(self).message == old(self).message,
                AfterSave::Next => match first_navigable(
                    old(self).tree_nodes@,
                    old(self).current_node_index + 1,
                ) {
                    Some(k) => left_detail(*old(self), *final(self))
                        && final(self).current_node_index == k && final(self).message == old(
                        self,
                    ).message,
                    None => *final(self) == (AppState {
                        message: final(self).message,
                        ..*old(self)
                    }) && says(final(self).message, "No more sections"@),
                },
                AfterSave::Prev => match last_navigable(
                    old(self).tree_nodes@,
                    if old(self).current_node_index <= old(self).tree_nodes@.len() {
                        old(self).current_node_index - 1
                    } else {
                        old(self).tree_nodes@.len() - 1
                    },
                ) {
                    Some(k) => left_detail(*old(self), *final(self))
                        && final(self).current_node_index == k && final(self).message == old(
                        self,
                    ).message,
                    None => *final(self) == (AppState {
                        message: final(self).message,
                        ..*old(self)
                    }) && says(final(self).message, "No previous sections"@),
                },
            },
    {
        match then {
            AfterSave::Stay => {
                self.current_view = View::Detail;
            },
            AfterSave::Leave => {
                self.exit_detail_view(true);
            },
            AfterSave::Next => match self.find_next_node() {
                Some(k) => {
                    self.exit_detail_view(true);
                    self.current_node_index = k;
                },
                None => {
                    self.message = Some(String::from_str("No more sections"));
                },
            },
            AfterSave::Prev => match self.find_prev_node() {
                Some(k) => {
                    self.exit_detail_view(true);
                    self.current_node_index = k;
                },
                None => {
                    self.message = Some(String::from_str("No previous sections"));
                },
            },
        }
    }

    /// Takes note that a save has failed: the session is back in the list
    /// view with no move under way, and the status line holds the error.
    /// What was written before the failure stays written.
    pub fn save_failed(&mut self, error: &str)
        ensures
            *final(self) == (AppState {
                current_view: View::List,
                move_state: MoveState::Idle,
                moving_section_index: None,
                message: final(self).message,
                ..*old(self)
            }),
            says(final(self).message, "Error saving: "@ + error@),
    {
        let mut text = String::from_str("Error saving: ");
        text.append(error);
        self.message = Some(text);
        self.current_view = View::List;
        self.cancel_move();
    }
}

/// Whether `after` is `before` after the detail view was left with the
/// lines of the editor kept: the editor is gone, the list view shows, and
/// the section under the selection holds the lines as its buffered lines.
pub open spec fn left_detail(before: AppState, after: AppState) -> bool {
    &&& after == (AppState {
        sections: after.sections,
        editor_state: None,
        current_view: View::List,
        current_node_index: after.current_node_index,
        ..before
    })
    &&& match (before.editor_state, before.current_section()) {
        (Some(editor), Some(i)) if i < before.sections@.len() => crate::app_state::buffered_at(
            before.sections@,
            after.sections@,
            i as int,
            crate::editor::editor_rows(editor),
        ),
        _ => after.sections == before.sections,
    }
}

} // verus!
