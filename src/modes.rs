//! The mode state machine: what each input event does in each mode.

use vstd::prelude::*;
use crate::chars::{closer_char, closer_of, is_closer, pair_closer, scope_closer, scope_closer_of};
use crate::command::Command;
use crate::cursor::Cursor;
use crate::editor::{renders, TextEditor};
use crate::highlight::Palette;
use crate::model::{
    apply_edit, cmdline_delete, cmdline_delete_word, cmdline_insert, cmdline_left, cmdline_right,
    cur_line, dispatch, dispatch_all, leading_tabs, model_ok, open_cmdline, open_line_edit, repeat,
    replay, step, step_all, toggle_comment_edit, toggle_record, with_mode, Cmd, Mode, Model,
    MAX_LINE_LEN,
};
use crate::search::{pattern_compiles, search_backward_from, search_forward_from};

verus! {

/// The keys that the editor binds.
#[derive(Clone, Copy, Debug, PartialEq, Eq, Structural)]
pub enum Key {
    Enter,
    Escape,
    Backspace,
    Tab,
    Left,
    Right,
    Up,
    Down,
    H,
    J,
    K,
    L,
    D,
    U,
    O,
    W,
    Backslash,
    Period,
    Semicolon,
    Quote,
    Other,
}

/// An input event: a key going down, a key press or its auto-repeat, a
/// typed character, or a scroll by whole lines (positive is down).
#[derive(Clone, Copy, Debug, PartialEq, Eq, Structural)]
pub enum Event {
    Press(Key),
    Repeat(Key),
    Char(char),
    Scroll(i32),
}

/// What the caller must do after an event.
#[derive(Clone, Copy, Debug, PartialEq, Eq, Structural)]
pub enum Effect {
    Nothing,
    /// Write `save_text` to the file, then call `mark_saved`.
    Save,
}

// ---------------------------------------------------------------- spec

/// Moves to a search result, if there is one.
pub open spec fn goto(m: Model, r: Option<Cursor>) -> Model {
    match r {
        Some(c) => dispatch(m, Cmd::MoveTo(c)),
        None => m,
    }
}

pub open spec fn found_forward(m: Model) -> Option<Cursor> {
    match m.pattern {
        Some(p) => search_forward_from(p, m.doc.lines, m.doc.cursor, m.doc.cursor.line - 1),
        None => None,
    }
}

pub open spec fn found_backward(m: Model) -> Option<Cursor> {
    match m.pattern {
        Some(p) => search_backward_from(p, m.doc.lines, m.doc.cursor, m.doc.cursor.line - 1),
        None => None,
    }
}

/// The character under the cursor, if any.
pub open spec fn char_under(m: Model) -> Option<char> {
    let line = cur_line(m.doc);
    if m.doc.cursor.col <= line.len() {
        Some(line[m.doc.cursor.col - 1])
    } else {
        None
    }
}

/// Backspace in insert mode: a closing character under the cursor goes
/// first, then the character before the cursor.
pub open spec fn backspace(m: Model) -> Model {
    let m1 = match char_under(m) {
        Some(c) => if is_closer(c) {
            dispatch(dispatch(m, Cmd::MoveRight), Cmd::DeleteChar)
        } else {
            m
        },
        None => m,
    };
    dispatch(m1, Cmd::DeleteChar)
}

/// A typed character in insert mode; an opening bracket or quote gets its
/// closer, with the cursor left between the two.
pub open spec fn type_char(m: Model, ch: char) -> Model {
    let m1 = dispatch(m, Cmd::InsertChar(ch));
    match pair_closer(ch) {
        Some(cl) => dispatch(dispatch(m1, Cmd::InsertChar(cl)), Cmd::MoveLeft),
        None => m1,
    }
}

/// Whether the cursor stands between a scope-opening bracket and its
/// closer.
pub open spec fn between_pair(line: Seq<char>, col: int) -> bool {
    2 <= col && col - 1 < line.len() && scope_closer(line[col - 2]) == Some(line[col - 1])
}

/// Enter in insert mode: break the line and indent the new line with the
/// old line's leading tabs. Between a bracket and its closer the closer
/// goes to a line of its own at the old indent, and the cursor to a blank
/// line between, one tab deeper.
pub open spec fn newline(m: Model) -> Model {
    let line = cur_line(m.doc);
    let base = leading_tabs(line);
    let m1 = dispatch(m, Cmd::BreakLine);
    if between_pair(line, m.doc.cursor.col as int) {
        let m2 = dispatch(m1, Cmd::BreakLine);
        let m3 = dispatch_all(m2, repeat(Cmd::InsertChar('\t'), base));
        let m4 = dispatch(m3, Cmd::MoveUp);
        dispatch_all(m4, repeat(Cmd::InsertChar('\t'), base + 1))
    } else {
        dispatch_all(m1, repeat(Cmd::InsertChar('\t'), base))
    }
}

/// Scrolling moves the cursor a line per step, unrecorded.
pub open spec fn scroll(m: Model, n: int) -> Model {
    if n > 0 {
        step_all(m, repeat(Cmd::MoveDown, n as nat))
    } else {
        step_all(m, repeat(Cmd::MoveUp, (-n) as nat))
    }
}

pub open spec fn on_press(m: Model, k: Key, alt: bool) -> (Model, Effect) {
    match m.mode {
        Mode::Normal => match k {
            Key::Enter => if alt {
                (apply_edit(m, open_line_edit(m.doc)), Effect::Nothing)
            } else {
                (with_mode(m, Mode::Insert), Effect::Nothing)
            },
            Key::W => (m, Effect::Save),
            Key::Backslash => (toggle_record(m), Effect::Nothing),
            Key::Period => if alt {
                (replay(m), Effect::Nothing)
            } else {
                (m, Effect::Nothing)
            },
            _ => (m, Effect::Nothing),
        },
        Mode::Insert => match k {
            Key::Escape => (with_mode(m, Mode::Normal), Effect::Nothing),
            _ => (m, Effect::Nothing),
        },
        Mode::Select => (m, Effect::Nothing),
        Mode::CommandLine => match k {
            Key::Escape => (with_mode(m, Mode::Normal), Effect::Nothing),
            Key::Enter => (
                Model {
                    pattern: if pattern_compiles(m.cmdline) {
                        Some(m.cmdline)
                    } else {
                        None
                    },
                    mode: Mode::Normal,
                    ..m
                },
                Effect::Nothing,
            ),
            _ => (m, Effect::Nothing),
        },
    }
}

pub open spec fn on_repeat(m: Model, k: Key, alt: bool) -> Model {
    match m.mode {
        Mode::Normal => match k {
            Key::K | Key::Up => dispatch(m, Cmd::MoveUp),
            Key::J | Key::Down => dispatch(m, Cmd::MoveDown),
            Key::H => dispatch(m, if alt { Cmd::MovePrevWord } else { Cmd::MoveLeft }),
            Key::L => dispatch(m, if alt { Cmd::MoveNextWord } else { Cmd::MoveRight }),
            Key::Left => dispatch(m, Cmd::MoveLeft),
            Key::Right => dispatch(m, Cmd::MoveRight),
            Key::D => dispatch(m, Cmd::DeleteLine),
            Key::U => dispatch(m, Cmd::Undo),
            Key::O => dispatch(m, Cmd::Redo),
            Key::Semicolon => if alt { goto(m, found_backward(m)) } else { m },
            Key::Quote => if alt { goto(m, found_forward(m)) } else { m },
            _ => m,
        },
        Mode::Insert => match k {
            Key::Backspace => if alt { dispatch(m, Cmd::DeleteWord) } else { backspace(m) },
            Key::Enter => newline(m),
            Key::Left => dispatch(m, Cmd::MoveLeft),
            Key::Right => dispatch(m, Cmd::MoveRight),
            Key::Tab => dispatch(m, Cmd::InsertChar('\t')),
            _ => m,
        },
        Mode::Select => m,
        Mode::CommandLine => match k {
            Key::Backspace => if alt { cmdline_delete_word(m) } else { cmdline_delete(m) },
            Key::Left => cmdline_left(m),
            Key::Right => cmdline_right(m),
            _ => m,
        },
    }
}

pub open spec fn on_char(m: Model, ch: char) -> Model {
    match m.mode {
        Mode::Normal => if ch == '<' {
            with_mode(dispatch(m, Cmd::MoveLineStart), Mode::Insert)
        } else if ch == '>' {
            with_mode(dispatch(m, Cmd::MoveLineEnd), Mode::Insert)
        } else if ch == '?' {
            open_cmdline(m)
        } else if ch == '/' {
            apply_edit(m, toggle_comment_edit(m.doc))
        } else {
            m
        },
        Mode::Insert => type_char(m, ch),
        Mode::CommandLine => cmdline_insert(m, ch),
        Mode::Select => m,
    }
}

/// What an event does, with `alt` the state of the Alt modifier.
pub open spec fn on_event(m: Model, e: Event, alt: bool) -> (Model, Effect) {
    match e {
        Event::Press(k) => on_press(m, k, alt),
        Event::Repeat(k) => (on_repeat(m, k, alt), Effect::Nothing),
        Event::Char(ch) => (on_char(m, ch), Effect::Nothing),
        Event::Scroll(n) => if m.mode == Mode::Normal {
            (scroll(m, n as int), Effect::Nothing)
        } else {
            (m, Effect::Nothing)
        },
    }
}

// ---------------------------------------------------------------- lemmas

proof fn lemma_dispatch_all_snoc(m: Model, s: Seq<Cmd>, i: int)
    requires
        0 <= i < s.len(),
    ensures
        dispatch_all(m, s.take(i + 1)) == dispatch(dispatch_all(m, s.take(i)), s[i]),
    decreases i,
{
    let m1 = dispatch(m, s[0]);
    assert(s.take(i + 1)[0] == s[0]);
    assert(dispatch_all(m, s.take(i + 1)) == dispatch_all(m1, s.take(i + 1).drop_first()));
    if i == 0 {
        assert(s.take(1).drop_first() =~= Seq::<Cmd>::empty());
        assert(dispatch_all(m1, Seq::<Cmd>::empty()) == m1);
        assert(dispatch_all(m, s.take(0)) == m);
    } else {
        lemma_dispatch_all_snoc(m1, s.drop_first(), i - 1);
        assert(s.take(i + 1).drop_first() =~= s.drop_first().take(i));
        assert(s.take(i).drop_first() =~= s.drop_first().take(i - 1));
        assert(s.take(i)[0] == s[0]);
        assert(dispatch_all(m, s.take(i)) == dispatch_all(m1, s.take(i).drop_first()));
    }
}

proof fn lemma_step_all_snoc(m: Model, s: Seq<Cmd>, i: int)
    requires
        0 <= i < s.len(),
    ensures
        step_all(m, s.take(i + 1)) == step(step_all(m, s.take(i)), s[i]),
    decreases i,
{
    let m1 = step(m, s[0]);
    assert(s.take(i + 1)[0] == s[0]);
    assert(step_all(m, s.take(i + 1)) == step_all(m1, s.take(i + 1).drop_first()));
    if i == 0 {
        assert(s.take(1).drop_first() =~= Seq::<Cmd>::empty());
        assert(step_all(m1, Seq::<Cmd>::empty()) == m1);
        assert(step_all(m, s.take(0)) == m);
    } else {
        lemma_step_all_snoc(m1, s.drop_first(), i - 1);
        assert(s.take(i + 1).drop_first() =~= s.drop_first().take(i));
        assert(s.take(i).drop_first() =~= s.drop_first().take(i - 1));
        assert(s.take(i)[0] == s[0]);
        assert(step_all(m, s.take(i)) == step_all(m1, s.take(i).drop_first()));
    }
}

/// A command leaves the recording alone.
proof fn lemma_step_keeps_record(m: Model, c: Cmd)
    ensures
        step(m, c).record == m.record,
        step(m, c).recording == m.recording,
        step(m, c).mode == m.mode,
{
}

/// Typing an opening bracket in insert mode puts the pair around the
/// cursor, and one backspace then removes both: the lines and the cursor
/// are as before.
pub proof fn law_pair_round_trip(m: Model)
    requires
        model_ok(m),
        m.mode == Mode::Insert,
        cur_line(m.doc).len() + 2 <= MAX_LINE_LEN,
    ensures
        ({
            let k = m.doc.cursor.line - 1;
            let at = m.doc.cursor.col - 1;
            let t = type_char(m, '(');
            &&& t.doc.lines == m.doc.lines.update(
                k,
                cur_line(m.doc).insert(at, '(').insert(at + 1, ')'),
            )
            &&& t.doc.cursor == Cursor { line: m.doc.cursor.line, col: (m.doc.cursor.col + 1) as i32 }
        }),
        backspace(type_char(m, '(')).doc.lines == m.doc.lines,
        backspace(type_char(m, '(')).doc.cursor == m.doc.cursor,
{
    let k = m.doc.cursor.line - 1;
    let at = m.doc.cursor.col - 1;
    let l = cur_line(m.doc);
    let l1 = l.insert(at, '(');
    let l2 = l1.insert(at + 1, ')');
    let c = m.doc.cursor;
    let m1 = dispatch(m, Cmd::InsertChar('('));
    assert(m1.doc.lines == m.doc.lines.update(k, l1));
    assert(m1.doc.cursor == Cursor { line: c.line, col: (c.col + 1) as i32 });
    let m2 = dispatch(m1, Cmd::InsertChar(')'));
    assert(m1.doc.lines[k] == l1);
    assert(m2.doc.lines == m.doc.lines.update(k, l2)) by {
        assert(m.doc.lines.update(k, l1).update(k, l2) =~= m.doc.lines.update(k, l2));
    }
    assert(m2.doc.cursor == Cursor { line: c.line, col: (c.col + 2) as i32 });
    let m3 = dispatch(m2, Cmd::MoveLeft);
    assert(m2.doc.lines[k] == l2);
    assert(m3.doc.lines == m2.doc.lines);
    assert(m3.doc.cursor == Cursor { line: c.line, col: (c.col + 1) as i32 });
    assert(type_char(m, '(') == m3);
    assert(l2[at + 1] == ')');
    assert(char_under(m3) == Some(')'));
    let m4 = dispatch(m3, Cmd::MoveRight);
    assert(m4.doc.cursor == Cursor { line: c.line, col: (c.col + 2) as i32 });
    let m5 = dispatch(m4, Cmd::DeleteChar);
    assert(l2.remove(at + 1) =~= l1);
    assert(m5.doc.lines == m.doc.lines.update(k, l1)) by {
        assert(m.doc.lines.update(k, l2).update(k, l1) =~= m.doc.lines.update(k, l1));
    }
    assert(m5.doc.cursor == Cursor { line: c.line, col: (c.col + 1) as i32 });
    let m6 = dispatch(m5, Cmd::DeleteChar);
    assert(l1.remove(at) =~= l);
    assert(m6.doc.lines == m.doc.lines) by {
        assert(m.doc.lines.update(k, l1).update(k, l) =~= m.doc.lines);
    }
    assert(backspace(m3) == m6);
}

// ---------------------------------------------------------------- exec

fn count_leading_tabs(line: &Vec<char>) -> (r: usize)
    ensures
        r == leading_tabs(line@),
        r <= line@.len(),
{
    let mut base: usize = 0;
    proof {
        assert(line@.subrange(0, line@.len() as int) =~= line@);
    }
    while base < line.len() && line[base] == '\t'
        invariant
            base <= line@.len(),
            leading_tabs(line@) == base + leading_tabs(
                line@.subrange(base as int, line@.len() as int),
            ),
        decreases line@.len() - base,
    {
        proof {
            let rest = line@.subrange(base as int, line@.len() as int);
            assert(rest.drop_first() =~= line@.subrange(base as int + 1, line@.len() as int));
        }
        base = base + 1;
    }
    base
}

fn between_pair_at(line: &Vec<char>, col: i32) -> (r: bool)
    ensures
        r == between_pair(line@, col as int),
{
    if col >= 2 && ((col - 1) as usize) < line.len() {
        match scope_closer_of(line[(col - 2) as usize]) {
            Some(cl) => cl == line[(col - 1) as usize],
            None => false,
        }
    } else {
        false
    }
}

impl TextEditor {
    /// Inserts `n` tabs through the dispatcher.
    fn insert_tabs(&mut self, n: usize)
        requires
            old(self).wf(),
        ensures
            final(self).wf(),
            final(self)@ == dispatch_all(old(self)@, repeat(Cmd::InsertChar('\t'), n as nat)),
    {
        let ghost s = repeat(Cmd::InsertChar('\t'), n as nat);
        let mut i: usize = 0;
        proof {
            assert(dispatch_all(old(self)@, s.take(0)) == old(self)@);
        }
        while i < n
            invariant
                self.wf(),
                i <= n,
                s == repeat(Cmd::InsertChar('\t'), n as nat),
                self@ == dispatch_all(old(self)@, s.take(i as int)),
            decreases n - i,
        {
            proof {
                lemma_dispatch_all_snoc(old(self)@, s, i as int);
            }
            self.exec(Command::InsertChar('\t'));
            i = i + 1;
        }
        proof {
            assert(s.take(n as int) =~= s);
        }
    }

    /// Replays the recording once against the current state.
    pub fn replay(&mut self)
        requires
            old(self).wf(),
        ensures
            final(self).wf(),
            final(self)@ == replay(old(self)@),
    {
        let n = self.record_len();
        let ghost m0 = self@;
        let mut i: usize = 0;
        proof {
            assert(dispatch_all(m0, m0.record.take(0)) == m0);
            assert(m0.record.subrange(0, n as int) =~= m0.record);
        }
        while i < n
            invariant
                self.wf(),
                n == m0.record.len(),
                i <= n,
                self@ == dispatch_all(m0, m0.record.take(i as int)),
                self@.record.len() >= n,
                self@.record.subrange(0, n as int) == m0.record,
            decreases n - i,
        {
            let c = self.recorded(i);
            proof {
                assert(self@.record.subrange(0, n as int)[i as int] == self@.record[i as int]);
                lemma_dispatch_all_snoc(m0, m0.record, i as int);
            }
            let ghost before = self@;
            self.exec(c);
            proof {
                let r = if before.recording {
                    Model { record: before.record.push(c@), ..before }
                } else {
                    before
                };
                lemma_step_keeps_record(r, c@);
                assert(self@.record.subrange(0, n as int) =~= m0.record);
            }
            i = i + 1;
        }
        proof {
            assert(m0.record.take(n as int) =~= m0.record);
        }
    }

    fn scroll_by(&mut self, n: i32)
        requires
            old(self).wf(),
        ensures
            final(self)@.doc.lines == old(self)@.doc.lines,
            final(self).rendered_view() == old(self).rendered_view(),
            final(self).wf(),
            final(self)@ == scroll(old(self)@, n as int),
    {
        let down = n > 0;
        let count: u32 = if n > 0 {
            n as u32
        } else {
            (-(n as i64)) as u32
        };
        let ghost s = if down {
            repeat(Cmd::MoveDown, n as nat)
        } else {
            repeat(Cmd::MoveUp, (-n) as nat)
        };
        let mut i: u32 = 0;
        proof {
            assert(step_all(old(self)@, s.take(0)) == old(self)@);
        }
        while i < count
            invariant
                self.wf(),
                i <= count,
                s.len() == count,
                down ==> s == repeat(Cmd::MoveDown, n as nat),
                !down ==> s == repeat(Cmd::MoveUp, (-n) as nat),
                self@ == step_all(old(self)@, s.take(i as int)),
                self@.doc.lines == old(self)@.doc.lines,
                self.rendered_view() == old(self).rendered_view(),
            decreases count - i,
        {
            proof {
                lemma_step_all_snoc(old(self)@, s, i as int);
            }
            if down {
                self.move_down();
            } else {
                self.move_up();
            }
            i = i + 1;
        }
        proof {
            assert(s.take(count as int) =~= s);
        }
    }

    /// Backspace in insert mode.
    fn backspace(&mut self)
        requires
            old(self).wf(),
        ensures
            final(self).wf(),
            final(self)@ == backspace(old(self)@),
    {
        match self.cur_char() {
            Some(c) => {
                if closer_char(c) {
                    self.exec(Command::MoveRight);
                    self.exec(Command::DeleteChar);
                }
            },
            None => {},
        }
        self.exec(Command::DeleteChar);
    }

    /// A typed character in insert mode.
    fn type_char(&mut self, ch: char)
        requires
            old(self).wf(),
        ensures
            final(self).wf(),
            final(self)@ == type_char(old(self)@, ch),
    {
        self.exec(Command::InsertChar(ch));
        match closer_of(ch) {
            Some(cl) => {
                self.exec(Command::InsertChar(cl));
                self.exec(Command::MoveLeft);
            },
            None => {},
        }
    }

    /// Enter in insert mode, with auto-indent.
    fn newline(&mut self)
        requires
            old(self).wf(),
        ensures
            final(self).wf(),
            final(self)@ == newline(old(self)@),
    {
        let line = self.current_line();
        let base = count_leading_tabs(&line);
        let pair = between_pair_at(&line, self.cursor().col);
        self.exec(Command::BreakLine);
        if pair {
            self.exec(Command::BreakLine);
            self.insert_tabs(base);
            self.exec(Command::MoveUp);
            self.insert_tabs(base + 1);
        } else {
            self.insert_tabs(base);
        }
    }

    fn on_press(&mut self, k: Key, alt: bool, palette: Option<&Palette>) -> (r: Effect)
        requires
            old(self).wf(),
        ensures
            renders(final(self)@.doc.lines, final(self).rendered_view()) || (final(self)@.doc.lines
                == old(self)@.doc.lines && final(self).rendered_view() == old(self).rendered_view()),
            final(self).wf(),
            (final(self)@, r) == on_press(old(self)@, k, alt),
    {
        match self.mode() {
            Mode::Normal => match k {
                Key::Enter => {
                    if alt {
                        self.open_line();
                        self.rehighlight(palette);
                    } else {
                        self.set_mode(Mode::Insert);
                    }
                },
                Key::W => {
                    return Effect::Save;
                },
                Key::Backslash => self.toggle_recording(),
                Key::Period => {
                    if alt {
                        self.replay();
                        self.rehighlight(palette);
                    }
                },
                _ => {},
            },
            Mode::Insert => match k {
                Key::Escape => self.set_mode(Mode::Normal),
                _ => {},
            },
            Mode::Select => {},
            Mode::CommandLine => match k {
                Key::Escape => self.set_mode(Mode::Normal),
                Key::Enter => self.confirm_cmdline(),
                _ => {},
            },
        }
        Effect::Nothing
    }

    #[verifier::rlimit(50)]
    fn on_repeat_normal(&mut self, k: Key, alt: bool, palette: Option<&Palette>)
        requires
            old(self).wf(),
            old(self)@.mode == Mode::Normal,
        ensures
            renders(final(self)@.doc.lines, final(self).rendered_view()) || (final(self)@.doc.lines
                == old(self)@.doc.lines && final(self).rendered_view() == old(self).rendered_view()),
            final(self).wf(),
            final(self)@ == on_repeat(old(self)@, k, alt),
    {
        match k {
            Key::K | Key::Up => self.exec(Command::MoveUp),
            Key::J | Key::Down => self.exec(Command::MoveDown),
            Key::H => self.exec(
                if alt {
                    Command::MovePrevWord
                } else {
                    Command::MoveLeft
                },
            ),
            Key::L => self.exec(
                if alt {
                    Command::MoveNextWord
                } else {
                    Command::MoveRight
                },
            ),
            Key::Left => self.exec(Command::MoveLeft),
            Key::Right => self.exec(Command::MoveRight),
            Key::D => {
                self.exec(Command::DeleteLine);
                self.rehighlight(palette);
            },
            Key::U => {
                self.exec(Command::Undo);
                self.rehighlight(palette);
            },
            Key::O => {
                self.exec(Command::Redo);
                self.rehighlight(palette);
            },
            Key::Semicolon => {
                if alt {
                    match self.search_backward() {
                        Some(c) => self.exec(Command::MoveTo(c)),
                        None => {},
                    }
                }
            },
            Key::Quote => {
                if alt {
                    match self.search_forward() {
                        Some(c) => self.exec(Command::MoveTo(c)),
                        None => {},
                    }
                }
            },
            _ => {},
        }
    }

    #[verifier::rlimit(50)]
    fn on_repeat_insert(&mut self, k: Key, alt: bool, palette: Option<&Palette>)
        requires
            old(self).wf(),
            old(self)@.mode == Mode::Insert,
        ensures
            final(self).wf(),
            renders(final(self)@.doc.lines, final(self).rendered_view()) || (final(self)@.doc.lines
                == old(self)@.doc.lines && final(self).rendered_view() == old(self).rendered_view()),
            final(self)@ == on_repeat(old(self)@, k, alt),
    {
        match k {
            Key::Backspace => {
                if alt {
                    self.exec(Command::DeleteWord);
                } else {
                    self.backspace();
                }
                self.rehighlight(palette);
            },
            Key::Enter => {
                self.newline();
                self.rehighlight(palette);
            },
            Key::Left => self.exec(Command::MoveLeft),
            Key::Right => self.exec(Command::MoveRight),
            Key::Tab => {
                self.exec(Command::InsertChar('\t'));
                self.rehighlight(palette);
            },
            _ => {},
        }
    }

    fn on_repeat(&mut self, k: Key, alt: bool, palette: Option<&Palette>)
        requires
            old(self).wf(),
        ensures
            renders(final(self)@.doc.lines, final(self).rendered_view()) || (final(self)@.doc.lines
                == old(self)@.doc.lines && final(self).rendered_view() == old(self).rendered_view()),
            final(self).wf(),
            final(self)@ == on_repeat(old(self)@, k, alt),
    {
        match self.mode() {
            Mode::Normal => self.on_repeat_normal(k, alt, palette),
            Mode::Insert => self.on_repeat_insert(k, alt, palette),
            Mode::Select => {},
            Mode::CommandLine => match k {
                Key::Backspace => {
                    if alt {
                        self.cmdline_delete_word();
                    } else {
                        self.cmdline_delete();
                    }
                },
                Key::Left => self.cmdline_left(),
                Key::Right => self.cmdline_right(),
                _ => {},
            },
        }
    }

    fn on_char(&mut self, ch: char, palette: Option<&Palette>)
        requires
            old(self).wf(),
        ensures
            renders(final(self)@.doc.lines, final(self).rendered_view()) || (final(self)@.doc.lines
                == old(self)@.doc.lines && final(self).rendered_view() == old(self).rendered_view()),
            final(self).wf(),
            final(self)@ == on_char(old(self)@, ch),
    {
        match self.mode() {
            Mode::Normal => {
                if ch == '<' {
                    self.exec(Command::MoveLineStart);
                    self.set_mode(Mode::Insert);
                } else if ch == '>' {
                    self.exec(Command::MoveLineEnd);
                    self.set_mode(Mode::Insert);
                } else if ch == '?' {
                    self.open_cmdline();
                } else if ch == '/' {
                    self.toggle_comment();
                    self.rehighlight(palette);
                }
            },
            Mode::Insert => {
                self.type_char(ch);
                self.rehighlight(palette);
            },
            Mode::CommandLine => self.cmdline_insert(ch),
            Mode::Select => {},
        }
    }

    /// Handles one input event; `alt` is the state of the Alt modifier.
    /// Where the document may have changed, the colouring is redone with
    /// `palette`: afterwards the rendering spells out the current lines, or
    /// lines and rendering are both as they were.
    pub fn handle_event(&mut self, e: Event, alt: bool, palette: Option<&Palette>) -> (r: Effect)
        requires
            old(self).wf(),
        ensures
            renders(final(self)@.doc.lines, final(self).rendered_view()) || (final(self)@.doc.lines
                == old(self)@.doc.lines && final(self).rendered_view() == old(self).rendered_view()),
            final(self).wf(),
            (final(self)@, r) == on_event(old(self)@, e, alt),
    {
        match e {
            Event::Press(k) => self.on_press(k, alt, palette),
            Event::Repeat(k) => {
                self.on_repeat(k, alt, palette);
                Effect::Nothing
            },
            Event::Char(ch) => {
                self.on_char(ch, palette);
                Effect::Nothing
            },
            Event::Scroll(n) => {
                if self.mode() == Mode::Normal {
                    self.scroll_by(n);
                }
                Effect::Nothing
            },
        }
    }
}

} // verus!
