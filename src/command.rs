//! The executable form of the primitive commands.

use vstd::prelude::*;
use crate::cursor::Cursor;
use crate::model::Cmd;

verus! {

/// A primitive edit or motion. Commands are data: the dispatcher treats a
/// live command and a replayed one alike.
pub enum Command {
    InsertChar(char),
    InsertString(String),
    MoveTo(Cursor),
    MoveUp,
    MoveDown,
    MoveLeft,
    MoveRight,
    MovePrevWord,
    MoveNextWord,
    MoveLineStart,
    MoveLineEnd,
    DeleteLine,
    DeleteWord,
    DeleteChar,
    BreakLine,
    Undo,
    Redo,
}

impl View for Command {
    type V = Cmd;

    open spec fn view(&self) -> Cmd {
        match self {
            Command::InsertChar(c) => Cmd::InsertChar(*c),
            Command::InsertString(s) => Cmd::InsertString(s@),
            Command::MoveTo(c) => Cmd::MoveTo(*c),
            Command::MoveUp => Cmd::MoveUp,
            Command::MoveDown => Cmd::MoveDown,
            Command::MoveLeft => Cmd::MoveLeft,
            Command::MoveRight => Cmd::MoveRight,
            Command::MovePrevWord => Cmd::MovePrevWord,
            Command::MoveNextWord => Cmd::MoveNextWord,
            Command::MoveLineStart => Cmd::MoveLineStart,
            Command::MoveLineEnd => Cmd::MoveLineEnd,
            Command::DeleteLine => Cmd::DeleteLine,
            Command::DeleteWord => Cmd::DeleteWord,
            Command::DeleteChar => Cmd::DeleteChar,
            Command::BreakLine => Cmd::BreakLine,
            Command::Undo => Cmd::Undo,
            Command::Redo => Cmd::Redo,
        }
    }
}

impl Command {
    /// An equal command, for the macro recording.
    pub fn duplicate(&self) -> (r: Command)
        ensures
            r@ == self@,
    {
        match self {
            Command::InsertChar(c) => Command::InsertChar(*c),
            Command::InsertString(s) => Command::InsertString(s.clone()),
            Command::MoveTo(c) => Command::MoveTo(*c),
            Command::MoveUp => Command::MoveUp,
            Command::MoveDown => Command::MoveDown,
            Command::MoveLeft => Command::MoveLeft,
            Command::MoveRight => Command::MoveRight,
            Command::MovePrevWord => Command::MovePrevWord,
            Command::MoveNextWord => Command::MoveNextWord,
            Command::MoveLineStart => Command::MoveLineStart,
            Command::MoveLineEnd => Command::MoveLineEnd,
            Command::DeleteLine => Command::DeleteLine,
            Command::DeleteWord => Command::DeleteWord,
            Command::DeleteChar => Command::DeleteChar,
            Command::BreakLine => Command::BreakLine,
            Command::Undo => Command::Undo,
            Command::Redo => Command::Redo,
        }
    }
}

} // verus!
