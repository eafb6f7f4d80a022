//! A modal text-buffer editing engine: document lines, a clamped cursor,
//! snapshot-based undo and redo, a closed command set with macro recording,
//! a mode state machine, pattern search, and a syntax-colouring pipeline.

pub mod chars;
pub mod cursor;
pub mod model;
pub mod command;
pub mod text;
pub mod editor;
pub mod laws;
pub mod search;
pub mod highlight;
pub mod modes;
pub mod session;
pub mod browse;
pub mod tabs;

pub use command::Command;
pub use cursor::Cursor;
pub use editor::TextEditor;
pub use highlight::{Palette, Rgba, TextChunk};
pub use model::Mode;
pub use modes::{Effect, Event, Key};
pub use search::SearchPattern;
pub use session::{Conf, SaveData, Session};
