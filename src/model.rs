//! The mathematical model of a buffer: document lines as sequences of
//! characters, the cursor, the undo and redo stacks of snapshots, the input
//! mode, the macro recording and the command line. Every operation of the
//! editor is stated here as a function from model to model.

use vstd::prelude::*;
use crate::chars::{is_break, is_indent, is_space};
use crate::cursor::Cursor;

verus! {

/// Longest line that an edit may produce.
pub const MAX_LINE_LEN: usize = 100_000_000;

/// Most lines that an edit may produce.
pub const MAX_LINES: usize = 100_000_000;

/// The input modes. `Select` is reachable but inert.
#[derive(Clone, Copy, Debug, PartialEq, Eq, Structural)]
pub enum Mode {
    Normal,
    Insert,
    Select,
    CommandLine,
}

/// The primitive commands, as values.
pub enum Cmd {
    InsertChar(char),
    InsertString(Seq<char>),
    MoveTo(Cursor),
    MoveUp,
    MoveDown,
    MoveLeft,
    MoveRight,
    MovePrevWord,
    MoveNextWord,
    MoveLineStart,
    MoveLineEnd,
    DeleteLine,
    DeleteWord,
    DeleteChar,
    BreakLine,
    Undo,
    Redo,
}

/// Document content, cursor and dirty flag: one unit of undo history.
#[verifier::ext_equal]
pub struct Snapshot {
    pub lines: Seq<Seq<char>>,
    pub cursor: Cursor,
    pub modified: bool,
}

/// The whole state of a buffer that the commands and events act on.
#[verifier::ext_equal]
pub struct Model {
    pub doc: Snapshot,
    pub undo: Seq<Snapshot>,
    pub redo: Seq<Snapshot>,
    pub mode: Mode,
    pub recording: bool,
    pub record: Seq<Cmd>,
    pub cmdline: Seq<char>,
    pub cmdline_pos: nat,
    pub pattern: Option<Seq<char>>,
}

// ---------------------------------------------------------------- validity

/// A line holds no line break.
pub open spec fn no_break(s: Seq<char>) -> bool {
    forall|j: int| 0 <= j < s.len() ==> s[j] != '\n'
}

pub open spec fn lines_ok(ls: Seq<Seq<char>>) -> bool {
    &&& 1 <= ls.len() <= MAX_LINES
    &&& forall|i: int| 0 <= i < ls.len() ==> (#[trigger] ls[i]).len() <= MAX_LINE_LEN
    &&& forall|i: int| 0 <= i < ls.len() ==> no_break(#[trigger] ls[i])
}

/// The text's lines fit the limits on line count and line length.
pub open spec fn text_fits(t: Seq<char>) -> bool {
    &&& text_lines(t).len() <= MAX_LINES
    &&& forall|i: int| 0 <= i < text_lines(t).len() ==> (#[trigger] text_lines(t)[i]).len() <= MAX_LINE_LEN
}

pub open spec fn cursor_ok(ls: Seq<Seq<char>>, c: Cursor) -> bool {
    &&& 1 <= c.line <= ls.len()
    &&& 1 <= c.col <= ls[c.line - 1].len() + 1
}

pub open spec fn snapshot_ok(s: Snapshot) -> bool {
    lines_ok(s.lines) && cursor_ok(s.lines, s.cursor)
}

pub open spec fn model_ok(m: Model) -> bool {
    &&& snapshot_ok(m.doc)
    &&& forall|i: int| 0 <= i < m.undo.len() ==> snapshot_ok(#[trigger] m.undo[i])
    &&& forall|i: int| 0 <= i < m.redo.len() ==> snapshot_ok(#[trigger] m.redo[i])
    &&& m.cmdline_pos <= m.cmdline.len() <= MAX_LINE_LEN
}

// ---------------------------------------------------------------- cursor

pub open spec fn clamp_int(x: int, lo: int, hi: int) -> int {
    if x < lo {
        lo
    } else if x > hi {
        hi
    } else {
        x
    }
}

/// The nearest addressable position: line into `1..=line_count`, then
/// column into `1..=len(line) + 1`.
pub open spec fn clamp(ls: Seq<Seq<char>>, pos: Cursor) -> Cursor {
    let l = clamp_int(pos.line as int, 1, ls.len() as int);
    let c = clamp_int(pos.col as int, 1, ls[l - 1].len() + 1 as int);
    Cursor { line: l as i32, col: c as i32 }
}

/// The line under the cursor.
pub open spec fn cur_line(d: Snapshot) -> Seq<char> {
    d.lines[d.cursor.line - 1]
}

// ---------------------------------------------------------------- words

/// Index of the first break character at or after `from`, or `s.len()`.
pub open spec fn first_break_from(s: Seq<char>, from: int) -> int
    decreases s.len() - from,
{
    if from >= s.len() {
        s.len() as int
    } else if is_break(s[from]) {
        from
    } else {
        first_break_from(s, from + 1)
    }
}

/// Index of the last break character before `end`, or -1.
pub open spec fn last_break_before(s: Seq<char>, end: int) -> int
    decreases end,
{
    if end <= 0 {
        -1
    } else if is_break(s[end - 1]) {
        end - 1
    } else {
        last_break_before(s, end - 1)
    }
}

/// Column that forward word motion reaches from `col` on line `s`: the next
/// break character after the one under the cursor, or the end of the line;
/// none when the cursor already stands at the end.
pub open spec fn next_word_col(s: Seq<char>, col: int) -> Option<int> {
    if col > s.len() {
        None
    } else {
        Some(first_break_from(s, col) + 1)
    }
}

/// Column that backward word motion reaches from `col`: just after the
/// last break character before `col - 1`, or column 1.
pub open spec fn prev_word_col(s: Seq<char>, col: int) -> int {
    last_break_before(s, clamp_int(col - 2, 0, s.len() as int)) + 2
}

/// Index of the first character that is not a space or tab, or `s.len()`.
pub open spec fn first_text_from(s: Seq<char>, from: int) -> int
    decreases s.len() - from,
{
    if from >= s.len() {
        s.len() as int
    } else if !is_indent(s[from]) {
        from
    } else {
        first_text_from(s, from + 1)
    }
}

// ---------------------------------------------------------------- edits

/// Removes the `k`-th line, leaving one empty line rather than none.
pub open spec fn remove_line(ls: Seq<Seq<char>>, k: int) -> Seq<Seq<char>> {
    if ls.len() == 1 {
        seq![Seq::<char>::empty()]
    } else {
        ls.remove(k)
    }
}

/// Appends line `k` onto line `k - 1`.
pub open spec fn join_up(ls: Seq<Seq<char>>, k: int) -> Seq<Seq<char>> {
    ls.update(k - 1, ls[k - 1] + ls[k]).remove(k)
}

/// Splits line `k` at index `at` into two lines.
pub open spec fn split_line(ls: Seq<Seq<char>>, k: int, at: int) -> Seq<Seq<char>> {
    ls.update(k, ls[k].subrange(0, at)).insert(k + 1, ls[k].subrange(at, ls[k].len() as int))
}

/// Backspace at column 1: merge the line onto the previous one, the cursor
/// at the join; nothing when there is no previous line or the merged line
/// would be too long.
pub open spec fn merge_edit(d: Snapshot) -> Option<(Seq<Seq<char>>, Cursor)> {
    let k = d.cursor.line - 1;
    if k >= 1 && d.lines[k - 1].len() + d.lines[k].len() <= MAX_LINE_LEN {
        Some(
            (
                join_up(d.lines, k),
                Cursor { line: (k) as i32, col: (d.lines[k - 1].len() + 1) as i32 },
            ),
        )
    } else {
        None
    }
}

/// What a mutating command does to the document: the new lines and cursor,
/// or `None` where it changes nothing.
pub open spec fn edit(d: Snapshot, cmd: Cmd) -> Option<(Seq<Seq<char>>, Cursor)> {
    let k = d.cursor.line - 1;
    let line = d.lines[k];
    let at = d.cursor.col - 1;
    match cmd {
        Cmd::InsertChar(ch) => {
            if ch != '\n' && line.len() < MAX_LINE_LEN {
                Some(
                    (
                        d.lines.update(k, line.insert(at, ch)),
                        Cursor { line: d.cursor.line, col: (d.cursor.col + 1) as i32 },
                    ),
                )
            } else {
                None
            }
        },
        Cmd::InsertString(t) => {
            if t.len() > 0 && !t.contains('\n') && line.len() + t.len() <= MAX_LINE_LEN {
                Some(
                    (
                        d.lines.update(
                            k,
                            line.subrange(0, at) + t + line.subrange(at, line.len() as int),
                        ),
                        Cursor { line: d.cursor.line, col: (d.cursor.col + t.len()) as i32 },
                    ),
                )
            } else {
                None
            }
        },
        Cmd::DeleteLine => {
            let ls = remove_line(d.lines, k);
            Some((ls, clamp(ls, d.cursor)))
        },
        Cmd::DeleteChar => {
            if d.cursor.col == 1 {
                merge_edit(d)
            } else {
                Some(
                    (
                        d.lines.update(k, line.remove(at - 1)),
                        Cursor { line: d.cursor.line, col: (d.cursor.col - 1) as i32 },
                    ),
                )
            }
        },
        Cmd::DeleteWord => {
            if d.cursor.col == 1 {
                merge_edit(d)
            } else {
                let p = prev_word_col(line, d.cursor.col as int);
                Some(
                    (
                        d.lines.update(
                            k,
                            line.subrange(0, p - 1) + line.subrange(at, line.len() as int),
                        ),
                        Cursor { line: d.cursor.line, col: p as i32 },
                    ),
                )
            }
        },
        Cmd::BreakLine => {
            if d.lines.len() < MAX_LINES {
                Some(
                    (
                        split_line(d.lines, k, at),
                        Cursor { line: (d.cursor.line + 1) as i32, col: 1 },
                    ),
                )
            } else {
                None
            }
        },
        _ => None,
    }
}

/// Where a motion command puts the cursor.
pub open spec fn motion(d: Snapshot, cmd: Cmd) -> Cursor {
    let c = d.cursor;
    let line = cur_line(d);
    match cmd {
        Cmd::MoveTo(p) => clamp(d.lines, p),
        Cmd::MoveUp => clamp(d.lines, Cursor { line: (c.line - 1) as i32, col: c.col }),
        Cmd::MoveDown => clamp(d.lines, Cursor { line: (c.line + 1) as i32, col: c.col }),
        Cmd::MoveLeft => clamp(d.lines, Cursor { line: c.line, col: (c.col - 1) as i32 }),
        Cmd::MoveRight => clamp(d.lines, Cursor { line: c.line, col: (c.col + 1) as i32 }),
        Cmd::MovePrevWord => Cursor { line: c.line, col: prev_word_col(line, c.col as int) as i32 },
        Cmd::MoveNextWord => match next_word_col(line, c.col as int) {
            Some(col) => Cursor { line: c.line, col: col as i32 },
            None => c,
        },
        Cmd::MoveLineStart => Cursor {
            line: c.line,
            col: (first_text_from(line, 0) + 1) as i32,
        },
        Cmd::MoveLineEnd => Cursor { line: c.line, col: (line.len() + 1) as i32 },
        _ => c,
    }
}

pub open spec fn is_motion(cmd: Cmd) -> bool {
    match cmd {
        Cmd::MoveTo(_) | Cmd::MoveUp | Cmd::MoveDown | Cmd::MoveLeft | Cmd::MoveRight
        | Cmd::MovePrevWord | Cmd::MoveNextWord | Cmd::MoveLineStart | Cmd::MoveLineEnd => true,
        _ => false,
    }
}

pub open spec fn is_mutation(cmd: Cmd) -> bool {
    match cmd {
        Cmd::InsertChar(_) | Cmd::InsertString(_) | Cmd::DeleteLine | Cmd::DeleteWord
        | Cmd::DeleteChar | Cmd::BreakLine => true,
        _ => false,
    }
}

// ---------------------------------------------------------------- history

/// Pushes `s` onto a stack unless it equals the top.
pub open spec fn push_dedup(stack: Seq<Snapshot>, s: Snapshot) -> Seq<Snapshot> {
    if stack.len() > 0 && stack.last() == s {
        stack
    } else {
        stack.push(s)
    }
}

/// Installs an edit: the prior document goes onto the undo stack, the redo
/// stack empties, and the buffer becomes modified.
pub open spec fn commit(m: Model, ls: Seq<Seq<char>>, c: Cursor) -> Model {
    Model {
        doc: Snapshot { lines: ls, cursor: c, modified: true },
        undo: push_dedup(m.undo, m.doc),
        redo: Seq::empty(),
        ..m
    }
}

pub open spec fn undo_step(m: Model) -> Model {
    if m.undo.len() > 0 {
        Model {
            doc: m.undo.last(),
            undo: m.undo.drop_last(),
            redo: m.redo.push(m.doc),
            ..m
        }
    } else {
        m
    }
}

pub open spec fn redo_step(m: Model) -> Model {
    if m.redo.len() > 0 {
        Model {
            doc: m.redo.last(),
            redo: m.redo.drop_last(),
            undo: push_dedup(m.undo, m.doc),
            ..m
        }
    } else {
        m
    }
}

/// What one command does to the model.
pub open spec fn step(m: Model, cmd: Cmd) -> Model {
    match cmd {
        Cmd::Undo => undo_step(m),
        Cmd::Redo => redo_step(m),
        _ => if is_motion(cmd) {
            Model { doc: Snapshot { cursor: motion(m.doc, cmd), ..m.doc }, ..m }
        } else {
            match edit(m.doc, cmd) {
                Some(e) => commit(m, e.0, e.1),
                None => m,
            }
        },
    }
}

/// The dispatcher: records the command while recording, then applies it.
pub open spec fn dispatch(m: Model, cmd: Cmd) -> Model {
    let r = if m.recording {
        Model { record: m.record.push(cmd), ..m }
    } else {
        m
    };
    step(r, cmd)
}

/// Dispatches each command in order.
pub open spec fn dispatch_all(m: Model, cmds: Seq<Cmd>) -> Model
    decreases cmds.len(),
{
    if cmds.len() == 0 {
        m
    } else {
        dispatch_all(dispatch(m, cmds[0]), cmds.drop_first())
    }
}

/// Applies each command in order, recording nothing.
pub open spec fn step_all(m: Model, cmds: Seq<Cmd>) -> Model
    decreases cmds.len(),
{
    if cmds.len() == 0 {
        m
    } else {
        step_all(step(m, cmds[0]), cmds.drop_first())
    }
}

/// Undoes `n` times.
pub open spec fn undo_n(m: Model, n: nat) -> Model
    decreases n,
{
    if n == 0 {
        m
    } else {
        undo_n(undo_step(m), (n - 1) as nat)
    }
}

// ---------------------------------------------------------------- text

/// Splits text on `'\n'` into lines.
pub open spec fn split_text(t: Seq<char>) -> Seq<Seq<char>>
    decreases t.len(),
{
    if t.len() == 0 {
        seq![Seq::<char>::empty()]
    } else {
        let p = split_text(t.drop_last());
        if t.last() == '\n' {
            p.push(Seq::empty())
        } else {
            p.update(p.len() - 1, p.last().push(t.last()))
        }
    }
}

/// The lines of a file's text: split on `'\n'`, less one empty line after a
/// final terminator; an empty text gives one empty line.
pub open spec fn text_lines(t: Seq<char>) -> Seq<Seq<char>> {
    let p = split_text(t);
    if p.len() > 1 && p.last().len() == 0 {
        p.drop_last()
    } else {
        p
    }
}

/// Lines joined with `'\n'` between them.
pub open spec fn join_lines(ls: Seq<Seq<char>>) -> Seq<char>
    decreases ls.len(),
{
    if ls.len() == 0 {
        Seq::empty()
    } else if ls.len() == 1 {
        ls[0]
    } else {
        join_lines(ls.drop_last()) + seq!['\n'] + ls.last()
    }
}

/// A line without its trailing white space.
pub open spec fn trim_end(s: Seq<char>) -> Seq<char>
    decreases s.len(),
{
    if s.len() > 0 && is_space(s.last()) {
        trim_end(s.drop_last())
    } else {
        s
    }
}

pub open spec fn trim_all(ls: Seq<Seq<char>>) -> Seq<Seq<char>> {
    Seq::new(ls.len(), |i: int| trim_end(ls[i]))
}

/// A fresh buffer on the given text.
pub open spec fn initial(t: Seq<char>) -> Model {
    initial_with(text_lines(t))
}

/// A fresh buffer on the given lines.
pub open spec fn initial_with(ls: Seq<Seq<char>>) -> Model {
    Model {
        doc: Snapshot { lines: ls, cursor: Cursor { line: 1, col: 1 }, modified: false },
        undo: Seq::empty(),
        redo: Seq::empty(),
        mode: Mode::Normal,
        recording: false,
        record: Seq::empty(),
        cmdline: Seq::empty(),
        cmdline_pos: 0,
        pattern: None,
    }
}

/// After a successful write: every line trimmed, the buffer clean, and
/// every snapshot in the undo history marked as differing from the disk.
pub open spec fn saved(m: Model) -> Model {
    let ls = trim_all(m.doc.lines);
    Model {
        doc: Snapshot { lines: ls, cursor: clamp(ls, m.doc.cursor), modified: false },
        undo: Seq::new(m.undo.len(), |i: int| Snapshot { modified: true, ..m.undo[i] }),
        ..m
    }
}

/// Applies an edit that may not apply.
pub open spec fn apply_edit(m: Model, e: Option<(Seq<Seq<char>>, Cursor)>) -> Model {
    match e {
        Some(x) => commit(m, x.0, x.1),
        None => m,
    }
}

/// Inserts an empty line so that it has index `n` (0-based); the cursor
/// keeps its numbers where they still address the document.
pub open spec fn insert_line_edit(d: Snapshot, n: int) -> Option<(Seq<Seq<char>>, Cursor)> {
    if 0 <= n <= d.lines.len() && d.lines.len() < MAX_LINES {
        let ls = d.lines.insert(n, Seq::empty());
        Some((ls, clamp(ls, d.cursor)))
    } else {
        None
    }
}

/// Opens an empty line below the cursor's line.
pub open spec fn open_line_edit(d: Snapshot) -> Option<(Seq<Seq<char>>, Cursor)> {
    insert_line_edit(d, d.cursor.line as int)
}

/// The line comment marker that toggling adds or removes.
pub open spec fn comment_marker() -> Seq<char> {
    seq!['/', '/', ' ']
}

/// Removes the comment marker from the start of the cursor's line, or adds
/// it; the cursor stays where it can.
pub open spec fn toggle_comment_edit(d: Snapshot) -> Option<(Seq<Seq<char>>, Cursor)> {
    let k = d.cursor.line - 1;
    let line = d.lines[k];
    if line.len() >= 3 && line.subrange(0, 3) == comment_marker() {
        let ls = d.lines.update(k, line.subrange(3, line.len() as int));
        Some((ls, clamp(ls, d.cursor)))
    } else if line.len() + 3 <= MAX_LINE_LEN {
        Some((d.lines.update(k, comment_marker() + line), d.cursor))
    } else {
        None
    }
}

// ---------------------------------------------------------------- modes

pub open spec fn with_mode(m: Model, mode: Mode) -> Model {
    Model { mode, ..m }
}

/// The macro key: stops a recording, or starts a fresh one.
pub open spec fn toggle_record(m: Model) -> Model {
    if m.recording {
        Model { recording: false, ..m }
    } else {
        Model { recording: true, record: Seq::empty(), ..m }
    }
}

/// Replays the recording once, from the current state.
pub open spec fn replay(m: Model) -> Model {
    dispatch_all(m, m.record)
}

/// Enters the command line with an empty input.
pub open spec fn open_cmdline(m: Model) -> Model {
    Model { mode: Mode::CommandLine, cmdline: Seq::empty(), cmdline_pos: 0, ..m }
}

pub open spec fn cmdline_insert(m: Model, ch: char) -> Model {
    if m.cmdline.len() < MAX_LINE_LEN {
        Model {
            cmdline: m.cmdline.insert(m.cmdline_pos as int, ch),
            cmdline_pos: m.cmdline_pos + 1,
            ..m
        }
    } else {
        m
    }
}

pub open spec fn cmdline_delete(m: Model) -> Model {
    if m.cmdline_pos > 0 {
        Model {
            cmdline: m.cmdline.remove(m.cmdline_pos - 1),
            cmdline_pos: (m.cmdline_pos - 1) as nat,
            ..m
        }
    } else {
        m
    }
}

/// Deletes back to the previous word boundary of the command line.
pub open spec fn cmdline_delete_word(m: Model) -> Model {
    if m.cmdline_pos > 0 {
        let p = prev_word_col(m.cmdline, m.cmdline_pos + 1 as int);
        Model {
            cmdline: m.cmdline.subrange(0, p - 1) + m.cmdline.subrange(
                m.cmdline_pos as int,
                m.cmdline.len() as int,
            ),
            cmdline_pos: (p - 1) as nat,
            ..m
        }
    } else {
        m
    }
}

pub open spec fn cmdline_left(m: Model) -> Model {
    if m.cmdline_pos > 0 {
        Model { cmdline_pos: (m.cmdline_pos - 1) as nat, ..m }
    } else {
        m
    }
}

pub open spec fn cmdline_right(m: Model) -> Model {
    if m.cmdline_pos < m.cmdline.len() {
        Model { cmdline_pos: m.cmdline_pos + 1, ..m }
    } else {
        m
    }
}

/// `n` copies of a command.
pub open spec fn repeat(cmd: Cmd, n: nat) -> Seq<Cmd> {
    Seq::new(n, |i: int| cmd)
}

/// Number of tabs at the start of a line.
pub open spec fn leading_tabs(s: Seq<char>) -> nat
    decreases s.len(),
{
    if s.len() > 0 && s[0] == '\t' {
        1 + leading_tabs(s.drop_first())
    } else {
        0
    }
}

} // verus!
