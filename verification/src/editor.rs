//! The editor buffer of the `edtui` crate, as far as the session needs it:
//! it is loaded from a text, flattened to lines, and asked for its mode.

use crate::text::{lines_of, views};
use edtui::{EditorMode, EditorState, Lines};
use vstd::prelude::*;

verus! {

/// The state of an `edtui` editor, carried through unopened.
#[verifier::external_type_specification]
#[verifier::external_body]
pub struct ExEditorState(EditorState);

/// The rows of text that an editor holds, top to bottom.
pub uninterp spec fn editor_rows(state: EditorState) -> Seq<Seq<char>>;

/// Whether an editor is in normal mode, in which keys are commands and not
/// text.
pub uninterp spec fn editor_in_normal_mode(state: EditorState) -> bool;

/// The rows into which `edtui::Lines::from` breaks a text: its lines, and
/// one empty row more where the text ends with a line feed.
pub open spec fn text_rows(text: Seq<char>) -> Seq<Seq<char>> {
    if text.len() > 0 && text.last() == '\n' {
        lines_of(text).push(Seq::empty())
    } else {
        lines_of(text)
    }
}

/// Calls `EditorState::new(Lines::from(text))`: a fresh editor in normal
/// mode. `Lines::from` walks the text with `str::lines`, makes a row of
/// each line, and adds an empty row where the last character is a line
/// feed.
#[verifier::external_body]
pub(crate) fn editor_with_text(text: &str) -> (state: EditorState)
    ensures
        editor_rows(state) == text_rows(text@),
        editor_in_normal_mode(state),
{
    EditorState::new(Lines::from(text))
}

/// Walks the rows of the editor with `iter_row` and hands each out as a
/// string of its characters.
#[verifier::external_body]
pub(crate) fn editor_lines(state: &EditorState) -> (lines: Vec<String>)
    ensures
        views(lines@) == editor_rows(*state),
{
    state.lines.iter_row().map(|line| line.iter().collect::<String>()).collect()
}

/// Reads the editor's `mode` and says whether it is `EditorMode::Normal`.
#[verifier::external_body]
pub(crate) fn editor_is_normal(state: &EditorState) -> (r: bool)
    ensures
        r == editor_in_normal_mode(*state),
{
    state.mode == EditorMode::Normal
}

} // verus!
