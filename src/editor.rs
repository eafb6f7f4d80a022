//! The buffer: document lines, cursor, undo and redo history, and the
//! primitive commands over them.

use vstd::prelude::*;
use crate::chars::{break_char, space_char};
use crate::command::Command;
use crate::cursor::Cursor;
use crate::model::{
    apply_edit, clamp, clamp_int, cmdline_delete, cmdline_delete_word, cmdline_insert, cmdline_left,
    cmdline_right, comment_marker, commit, cur_line, cursor_ok, dispatch, edit, first_break_from,
    first_text_from, initial, initial_with, insert_line_edit, is_motion, join_lines,
    last_break_before, lines_ok, merge_edit, model_ok, motion, next_word_col, no_break,
    open_cmdline, open_line_edit, prev_word_col, push_dedup, remove_line, saved, split_text, step,
    text_fits, text_lines, toggle_comment_edit, toggle_record, trim_all, trim_end, with_mode, Cmd,
    Mode, Model, Snapshot, MAX_LINES, MAX_LINE_LEN,
};
use crate::laws::{law_save_clears_modified, law_step_keeps_valid, lemma_extra_edits_ok};
use crate::highlight::{chunks_text, plain_color, render_lines, Palette, TextChunk};
use crate::search::{
    first_match_after, last_match_before, pattern_compiles, search_backward_from,
    search_forward_from, SearchPattern,
};
use crate::text::{chars_of, copy_chars, push_char, same_chars, string_of};

verus! {

/// The model of a vector of lines.
pub open spec fn lines_view(v: Seq<Vec<char>>) -> Seq<Seq<char>> {
    Seq::new(v.len(), |i: int| v[i]@)
}

/// One entry of the undo or redo stack.
struct State {
    lines: Vec<Vec<char>>,
    cursor: Cursor,
    modified: bool,
}

impl View for State {
    type V = Snapshot;

    closed spec fn view(&self) -> Snapshot {
        Snapshot { lines: lines_view(self.lines@), cursor: self.cursor, modified: self.modified }
    }
}

spec fn states_view(v: Seq<State>) -> Seq<Snapshot> {
    Seq::new(v.len(), |i: int| v[i]@)
}

spec fn commands_view(v: Seq<Command>) -> Seq<Cmd> {
    Seq::new(v.len(), |i: int| v[i]@)
}

fn copy_lines(v: &Vec<Vec<char>>) -> (r: Vec<Vec<char>>)
    ensures
        lines_view(r@) == lines_view(v@),
{
    let mut out: Vec<Vec<char>> = Vec::new();
    let mut i: usize = 0;
    while i < v.len()
        invariant
            i <= v@.len(),
            out@.len() == i,
            forall|j: int| 0 <= j < i ==> (#[trigger] out@[j])@ == v@[j]@,
        decreases v@.len() - i,
    {
        out.push(copy_chars(&v[i]));
        i = i + 1;
    }
    proof {
        assert(lines_view(out@) =~= lines_view(v@));
    }
    out
}

fn same_lines(a: &Vec<Vec<char>>, b: &Vec<Vec<char>>) -> (r: bool)
    ensures
        r == (lines_view(a@) == lines_view(b@)),
{
    if a.len() != b.len() {
        proof {
            assert(lines_view(a@).len() != lines_view(b@).len());
        }
        return false;
    }
    let mut i: usize = 0;
    while i < a.len()
        invariant
            a@.len() == b@.len(),
            i <= a@.len(),
            forall|j: int| 0 <= j < i ==> a@[j]@ == b@[j]@,
        decreases a@.len() - i,
    {
        if !same_chars(&a[i], &b[i]) {
            proof {
                assert(lines_view(a@)[i as int] != lines_view(b@)[i as int]);
            }
            return false;
        }
        i = i + 1;
    }
    proof {
        assert(lines_view(a@) =~= lines_view(b@));
    }
    true
}

fn has_newline(v: &Vec<char>) -> (r: bool)
    ensures
        r == v@.contains('\n'),
{
    let mut i: usize = 0;
    while i < v.len()
        invariant
            i <= v@.len(),
            forall|j: int| 0 <= j < i ==> v@[j] != '\n',
        decreases v@.len() - i,
    {
        if v[i] == '\n' {
            return true;
        }
        i = i + 1;
    }
    false
}

/// Column just after the last break character before index `col - 2` of
/// `line`, or 1.
fn prev_word_in(line: &Vec<char>, col: i32) -> (r: i32)
    requires
        1 <= col <= line@.len() + 1,
        line@.len() <= MAX_LINE_LEN,
    ensures
        r == prev_word_col(line@, col as int),
        1 <= r <= col,
        col >= 2 ==> r < col,
{
    let end: usize = if col < 2 { 0 } else { (col - 2) as usize };
    let mut i: usize = end;
    while i > 0
        invariant
            i <= end,
            end == clamp_int(col - 2, 0, line@.len() as int),
            end <= line@.len(),
            last_break_before(line@, end as int) == last_break_before(line@, i as int),
        decreases i,
    {
        if break_char(line[i - 1]) {
            return i as i32 + 1;
        }
        i = i - 1;
    }
    1
}

/// The lines of a file's text, as `text_lines` gives them.
pub(crate) fn split_lines(text: &str) -> (r: Vec<Vec<char>>)
    ensures
        lines_view(r@) == text_lines(text@),
        forall|j: int| 0 <= j < r@.len() ==> no_break((#[trigger] r@[j])@),
        1 <= r@.len() <= text@.len() + 1,
        forall|j: int| 0 <= j < r@.len() ==> (#[trigger] r@[j])@.len() <= text@.len(),
{
    let chars = chars_of(text);
    let mut lines: Vec<Vec<char>> = Vec::new();
    let mut cur: Vec<char> = Vec::new();
    let mut i: usize = 0;
    while i < chars.len()
        invariant
            chars@ == text@,
            i <= chars@.len(),
            lines_view(lines@).push(cur@) == split_text(chars@.subrange(0, i as int)),
            lines@.len() <= i,
            cur@.len() <= i,
            forall|j: int| 0 <= j < lines@.len() ==> (#[trigger] lines@[j])@.len() <= i,
            forall|j: int| 0 <= j < lines@.len() ==> no_break((#[trigger] lines@[j])@),
            no_break(cur@),
        decreases chars@.len() - i,
    {
        let c = chars[i];
        proof {
            let t = chars@.subrange(0, i as int + 1);
            assert(t.drop_last() =~= chars@.subrange(0, i as int));
            assert(t.last() == c);
        }
        if c == '\n' {
            let done = cur;
            lines.push(done);
            cur = Vec::new();
            proof {
                assert(lines_view(lines@).push(cur@) =~= split_text(
                    chars@.subrange(0, i as int),
                ).push(Seq::empty()));
            }
        } else {
            cur.push(c);
            proof {
                let p = split_text(chars@.subrange(0, i as int));
                assert(lines_view(lines@).push(cur@) =~= p.update(
                    p.len() - 1,
                    p.last().push(c),
                ));
            }
        }
        i = i + 1;
    }
    proof {
        assert(chars@.subrange(0, chars@.len() as int) =~= text@);
    }
    if lines.len() == 0 || cur.len() > 0 {
        lines.push(cur);
        proof {
            assert(lines_view(lines@) =~= text_lines(text@));
        }
    } else {
        proof {
            assert(lines_view(lines@) =~= text_lines(text@));
        }
    }
    lines
}

/// A buffer on lines that split a file's text and fit the limits.
fn from_lines_checked(lines: Vec<Vec<char>>) -> (r: TextEditor)
    requires
        1 <= lines@.len() <= MAX_LINES,
        forall|j: int| 0 <= j < lines@.len() ==> (#[trigger] lines@[j])@.len() <= MAX_LINE_LEN,
        forall|j: int| 0 <= j < lines@.len() ==> no_break(#[trigger] lines_view(lines@)[j]),
    ensures
        r.wf(),
        r@ == initial_with(lines_view(lines@)),
        renders_plain(r@.doc.lines, r.rendered_view()),
{
    proof {
        assert forall|j: int| 0 <= j < lines@.len() implies (#[trigger] lines_view(lines@)[j]).len() <= MAX_LINE_LEN by {
            assert(lines_view(lines@)[j] == lines@[j]@);
        }
    }
    TextEditor::from_lines(lines)
}

/// Appends the characters of `v` to `s`.
fn push_chars(s: &mut String, v: &Vec<char>)
    ensures
        final(s)@ == old(s)@ + v@,
{
    let mut i: usize = 0;
    while i < v.len()
        invariant
            i <= v@.len(),
            s@ == old(s)@ + v@.subrange(0, i as int),
        decreases v@.len() - i,
    {
        push_char(s, v[i]);
        i = i + 1;
        proof {
            assert(s@ =~= old(s)@ + v@.subrange(0, i as int));
        }
    }
    proof {
        assert(v@.subrange(0, v@.len() as int) =~= v@);
    }
}

/// Lines joined with `'\n'`.
pub(crate) fn join_vec_lines(v: &Vec<Vec<char>>) -> (r: String)
    ensures
        r@ == join_lines(lines_view(v@)),
{
    let mut s = String::new();
    let mut i: usize = 0;
    while i < v.len()
        invariant
            i <= v@.len(),
            s@ == join_lines(lines_view(v@).subrange(0, i as int)),
        decreases v@.len() - i,
    {
        let ghost pre = lines_view(v@).subrange(0, i as int);
        let ghost next = lines_view(v@).subrange(0, i as int + 1);
        proof {
            assert(next.drop_last() =~= pre);
        }
        if i > 0 {
            push_char(&mut s, '\n');
        }
        push_chars(&mut s, &v[i]);
        proof {
            if i == 0 {
                assert(s@ =~= join_lines(next));
            } else {
                assert(s@ =~= join_lines(next));
            }
        }
        i = i + 1;
    }
    proof {
        assert(lines_view(v@).subrange(0, v@.len() as int) =~= lines_view(v@));
    }
    s
}

/// The line without trailing white space.
fn trimmed(v: &Vec<char>) -> (r: Vec<char>)
    ensures
        r@ == trim_end(v@),
{
    let mut j: usize = v.len();
    proof {
        assert(v@.subrange(0, j as int) =~= v@);
    }
    while j > 0 && space_char(v[j - 1])
        invariant
            j <= v@.len(),
            trim_end(v@) == trim_end(v@.subrange(0, j as int)),
        decreases j,
    {
        proof {
            assert(v@.subrange(0, j as int).drop_last() =~= v@.subrange(0, j as int - 1));
        }
        j = j - 1;
    }
    let mut out = copy_chars(v);
    out.truncate(j);
    proof {
        assert(trim_end(v@.subrange(0, j as int)) == v@.subrange(0, j as int));
    }
    out
}

/// An open document with its cursor, history, mode and macro recording.
pub struct TextEditor {
    lines: Vec<Vec<char>>,
    cursor: Cursor,
    modified: bool,
    undo_stack: Vec<State>,
    redo_stack: Vec<State>,
    mode: Mode,
    recording: bool,
    record: Vec<Command>,
    cmdline: Vec<char>,
    cmdline_pos: usize,
    pattern: Option<SearchPattern>,
    rendered: Vec<Vec<TextChunk>>,
}

/// Each rendered line belongs to the document line of the same index, and
/// its runs spell out that line.
pub open spec fn renders(ls: Seq<Seq<char>>, r: Seq<Vec<TextChunk>>) -> bool {
    &&& r.len() == ls.len()
    &&& forall|i: int| 0 <= i < ls.len() ==> chunks_text((#[trigger] r[i])@) == ls[i]
}

/// Each rendered line is the document line in the plain colour.
pub open spec fn renders_plain(ls: Seq<Seq<char>>, r: Seq<Vec<TextChunk>>) -> bool {
    &&& r.len() == ls.len()
    &&& forall|i: int|
        0 <= i < ls.len() ==> {
            let cs = (#[trigger] r[i])@;
            cs.len() == 1 && cs[0].text@ == ls[i] && cs[0].color == plain_color()
        }
}

impl View for TextEditor {
    type V = Model;

    closed spec fn view(&self) -> Model {
        Model {
            doc: Snapshot {
                lines: lines_view(self.lines@),
                cursor: self.cursor,
                modified: self.modified,
            },
            undo: states_view(self.undo_stack@),
            redo: states_view(self.redo_stack@),
            mode: self.mode,
            recording: self.recording,
            record: commands_view(self.record@),
            cmdline: self.cmdline@,
            cmdline_pos: self.cmdline_pos as nat,
            pattern: match self.pattern {
                Some(p) => Some(p@),
                None => None,
            },
        }
    }
}

impl TextEditor {
    /// The buffer is consistent: at least one line, the cursor on the
    /// document, and every snapshot likewise.
    pub open spec fn wf(&self) -> bool {
        model_ok(self@)
    }

    /// A buffer on the given lines, in normal mode with the cursor at the
    /// top, no history, and every line rendered in the plain colour.
    fn from_lines(lines: Vec<Vec<char>>) -> (r: TextEditor)
        requires
            lines_ok(lines_view(lines@)),
        ensures
            r.wf(),
            r@.doc.lines == lines_view(lines@),
            r@ == initial_with(lines_view(lines@)),
            renders_plain(r@.doc.lines, r.rendered_view()),
    {
        let mut r = TextEditor {
            lines,
            cursor: Cursor { line: 1, col: 1 },
            modified: false,
            undo_stack: Vec::new(),
            redo_stack: Vec::new(),
            mode: Mode::Normal,
            recording: false,
            record: Vec::new(),
            cmdline: Vec::new(),
            cmdline_pos: 0,
            pattern: None,
            rendered: Vec::new(),
        };
        proof {
            assert(r@ =~= initial_with(lines_view(r.lines@)));
        }
        r.rehighlight(None);
        r
    }

    /// A buffer on the given file text, in normal mode with the cursor at
    /// the top, no history, and every line rendered in the plain colour.
    pub fn new(text: &str) -> (r: TextEditor)
        requires
            text_fits(text@),
        ensures
            r.wf(),
            r@ == initial(text@),
            renders_plain(r@.doc.lines, r.rendered_view()),
    {
        let lines = split_lines(text);
        proof {
            assert forall|j: int| 0 <= j < lines@.len() implies no_break(#[trigger] lines_view(lines@)[j]) by {
                assert(lines_view(lines@)[j] == lines@[j]@);
            }
            assert forall|j: int| 0 <= j < lines@.len() implies (#[trigger] lines@[j])@.len() <= MAX_LINE_LEN by {
                assert(lines_view(lines@)[j] == lines@[j]@);
                assert(text_lines(text@)[j] == lines@[j]@);
            }
        }
        from_lines_checked(lines)
    }

    /// A buffer on the given file text, as `new` gives it; `None` where the
    /// text has too many lines or a line too long.
    pub fn open(text: &str) -> (r: Option<TextEditor>)
        ensures
            r is Some == text_fits(text@),
            r is Some ==> r->0.wf() && r->0@ == initial(text@) && renders_plain(
                r->0@.doc.lines,
                r->0.rendered_view(),
            ),
    {
        let lines = split_lines(text);
        if lines.len() > MAX_LINES {
            return None;
        }
        let mut i: usize = 0;
        while i < lines.len()
            invariant
                i <= lines@.len(),
                lines_view(lines@) == text_lines(text@),
                forall|j: int| 0 <= j < i ==> (#[trigger] lines@[j])@.len() <= MAX_LINE_LEN,
            decreases lines@.len() - i,
        {
            if lines[i].len() > MAX_LINE_LEN {
                proof {
                    assert(text_lines(text@)[i as int] == lines@[i as int]@);
                }
                return None;
            }
            i = i + 1;
        }
        proof {
            assert forall|j: int| 0 <= j < lines@.len() implies no_break(#[trigger] lines_view(lines@)[j]) by {
                assert(lines_view(lines@)[j] == lines@[j]@);
            }
        }
        Some(from_lines_checked(lines))
    }

    /// Number of lines; at least one.
    pub fn line_count(&self) -> (r: usize)
        requires
            self.wf(),
        ensures
            r == self@.doc.lines.len(),
            r >= 1,
    {
        self.lines.len()
    }

    pub fn cursor(&self) -> (r: Cursor)
        ensures
            r == self@.doc.cursor,
    {
        self.cursor
    }

    /// Whether the buffer differs from what was last loaded or saved.
    pub fn modified(&self) -> (r: bool)
        ensures
            r == self@.doc.modified,
    {
        self.modified
    }

    /// A modified buffer may not be closed.
    pub fn closable(&self) -> (r: bool)
        ensures
            r == !self@.doc.modified,
    {
        !self.modified
    }

    pub fn mode(&self) -> (r: Mode)
        ensures
            r == self@.mode,
    {
        self.mode
    }

    /// Whether the buffer is taking text input.
    pub fn busy(&self) -> (r: bool)
        ensures
            r == (self@.mode == Mode::Insert),
    {
        self.mode == Mode::Insert
    }

    pub fn recording(&self) -> (r: bool)
        ensures
            r == self@.recording,
    {
        self.recording
    }

    /// Line `n` (1-based), if there is one.
    pub fn get_line(&self, n: i32) -> (r: Option<String>)
        ensures
            (1 <= n <= self@.doc.lines.len()) ==> r is Some && r->0@ == self@.doc.lines[n - 1],
            !(1 <= n <= self@.doc.lines.len()) ==> r is None,
    {
        if n >= 1 && (n as usize) <= self.lines.len() {
            Some(crate::text::string_of(&self.lines[(n - 1) as usize]))
        } else {
            None
        }
    }

    /// The character at `pos`, if `pos` is on a character.
    pub fn char_at(&self, pos: Cursor) -> (r: Option<char>)
        ensures
            (1 <= pos.line <= self@.doc.lines.len() && 1 <= pos.col <= self@.doc.lines[pos.line
                - 1].len()) ==> r == Some(self@.doc.lines[pos.line - 1][pos.col - 1]),
            !(1 <= pos.line <= self@.doc.lines.len() && 1 <= pos.col <= self@.doc.lines[pos.line
                - 1].len()) ==> r is None,
    {
        if pos.line >= 1 && (pos.line as usize) <= self.lines.len() {
            let k = (pos.line - 1) as usize;
            if pos.col >= 1 && (pos.col as usize) <= self.lines[k].len() {
                return Some(self.lines[k][(pos.col - 1) as usize]);
            }
        }
        None
    }

    /// The character under the cursor.
    pub fn cur_char(&self) -> (r: Option<char>)
        requires
            self.wf(),
        ensures
            r == (if self@.doc.cursor.col <= self@.doc.lines[self@.doc.cursor.line - 1].len() {
                Some(self@.doc.lines[self@.doc.cursor.line - 1][self@.doc.cursor.col - 1])
            } else {
                None
            }),
    {
        self.char_at(self.cursor)
    }

    /// The nearest position on the document.
    pub fn clamp_cursor(&self, pos: Cursor) -> (r: Cursor)
        requires
            lines_ok(self@.doc.lines),
        ensures
            r == clamp(self@.doc.lines, pos),
            cursor_ok(self@.doc.lines, r),
    {
        let n = self.lines.len() as i32;
        let line = if pos.line < 1 {
            1
        } else if pos.line > n {
            n
        } else {
            pos.line
        };
        proof {
            assert(self@.doc.lines[line - 1] == self.lines@[line - 1]@);
        }
        let len = self.lines[(line - 1) as usize].len() as i32;
        let col = if pos.col < 1 {
            1
        } else if pos.col > len + 1 {
            len + 1
        } else {
            pos.col
        };
        Cursor { line, col }
    }

    fn snapshot(&self) -> (r: State)
        ensures
            r@ == self@.doc,
    {
        State { lines: copy_lines(&self.lines), cursor: self.cursor, modified: self.modified }
    }

    /// Pushes the current document onto the undo stack unless it is
    /// already on top.
    fn push_undo(&mut self)
        ensures
            final(self).rendered_view() == old(self).rendered_view(),
            final(self)@ == (Model { undo: push_dedup(old(self)@.undo, old(self)@.doc), ..old(self)@ }),
            final(self).lines == old(self).lines,
    {
        let n = self.undo_stack.len();
        let same = if n > 0 {
            let top = &self.undo_stack[n - 1];
            top.cursor == self.cursor && top.modified == self.modified && same_lines(
                &top.lines,
                &self.lines,
            )
        } else {
            false
        };
        proof {
            if n > 0 {
                assert(states_view(self.undo_stack@).last() == self.undo_stack@[n - 1]@);
            }
        }
        if !same {
            let s = self.snapshot();
            self.undo_stack.push(s);
        }
        proof {
            assert(self@ =~= (Model { undo: push_dedup(old(self)@.undo, old(self)@.doc), ..old(self)@ }));
        }
    }

    /// Records the current document for undo ahead of an edit, empties the
    /// redo stack and marks the buffer modified.
    fn begin_edit(&mut self)
        ensures
            final(self).rendered_view() == old(self).rendered_view(),
            final(self)@ == commit(old(self)@, old(self)@.doc.lines, old(self)@.doc.cursor),
            final(self).lines == old(self).lines,
    {
        self.push_undo();
        self.redo_stack.clear();
        self.modified = true;
        proof {
            assert(self@ =~= commit(old(self)@, old(self)@.doc.lines, old(self)@.doc.cursor));
        }
    }

    /// The model's line `k` is the stored vector's contents, within bounds.
    proof fn lemma_line(&self, k: int)
        requires
            self.wf(),
            0 <= k < self.lines@.len(),
        ensures
            self@.doc.lines[k] == self.lines@[k]@,
            self.lines@[k]@.len() <= MAX_LINE_LEN,
            self.lines@.len() == self@.doc.lines.len(),
            1 <= self.lines@.len() <= MAX_LINES,
            self@.doc.cursor.line >= 1,
            self@.doc.cursor.line <= self.lines@.len(),
            1 <= self@.doc.cursor.col <= self@.doc.lines[self@.doc.cursor.line - 1].len() + 1,
    {
    }

    /// Inserts `ch` before the cursor and moves past it. A line break or a
    /// character that would make the line too long is refused.
    pub fn insert_char(&mut self, ch: char)
        requires
            old(self).wf(),
        ensures
            final(self).rendered_view() == old(self).rendered_view(),
            final(self).wf(),
            final(self)@ == step(old(self)@, Cmd::InsertChar(ch)),
    {
        let k = (self.cursor.line - 1) as usize;
        proof {
            self.lemma_line(k as int);
        }
        if ch == '\n' || self.lines[k].len() >= MAX_LINE_LEN {
            return;
        }
        let mut line = copy_chars(&self.lines[k]);
        let at = (self.cursor.col - 1) as usize;
        line.insert(at, ch);
        self.begin_edit();
        self.lines.set(k, line);
        self.cursor.col = self.cursor.col + 1;
        proof {
            let e = edit(old(self)@.doc, Cmd::InsertChar(ch));
            assert(lines_view(self.lines@) =~= (e->0).0);
            assert(self@ =~= step(old(self)@, Cmd::InsertChar(ch)));
            law_step_keeps_valid(old(self)@, Cmd::InsertChar(ch));
        }
    }

    /// Inserts `text` before the cursor and moves past it. Empty text, text
    /// with a line break, or text that would make the line too long changes
    /// nothing.
    pub fn insert_str(&mut self, text: &str)
        requires
            old(self).wf(),
        ensures
            final(self).rendered_view() == old(self).rendered_view(),
            final(self).wf(),
            final(self)@ == step(old(self)@, Cmd::InsertString(text@)),
    {
        let k = (self.cursor.line - 1) as usize;
        proof {
            self.lemma_line(k as int);
        }
        let mut t = chars_of(text);
        if t.len() == 0 || has_newline(&t) || t.len() > MAX_LINE_LEN - self.lines[k].len() {
            return;
        }
        let mut line = copy_chars(&self.lines[k]);
        let at = (self.cursor.col - 1) as usize;
        let mut tail = line.split_off(at);
        let n = t.len();
        line.append(&mut t);
        line.append(&mut tail);
        self.begin_edit();
        self.lines.set(k, line);
        self.cursor.col = self.cursor.col + n as i32;
        proof {
            let e = edit(old(self)@.doc, Cmd::InsertString(text@));
            assert(lines_view(self.lines@) =~= (e->0).0);
            assert(self@ =~= step(old(self)@, Cmd::InsertString(text@)));
            law_step_keeps_valid(old(self)@, Cmd::InsertString(text@));
        }
    }

    /// Deletes the cursor's line; the last line left becomes empty instead.
    /// The cursor stays on the same line number, clamped.
    pub fn delete_line(&mut self)
        requires
            old(self).wf(),
        ensures
            final(self).rendered_view() == old(self).rendered_view(),
            final(self).wf(),
            final(self)@ == step(old(self)@, Cmd::DeleteLine),
    {
        let k = (self.cursor.line - 1) as usize;
        proof {
            self.lemma_line(k as int);
        }
        self.begin_edit();
        if self.lines.len() == 1 {
            self.lines.set(0, Vec::new());
        } else {
            self.lines.remove(k);
        }
        proof {
            let e = edit(old(self)@.doc, Cmd::DeleteLine);
            assert(lines_view(self.lines@) =~= remove_line(old(self)@.doc.lines, k as int));
            assert forall|j: int| 0 <= j < self.lines@.len() implies (#[trigger] self.lines@[j])@.len() <= MAX_LINE_LEN by {
                if self.lines@.len() > 1 || old(self).lines@.len() > 1 {
                    if j < k {
                        old(self).lemma_line(j);
                    } else {
                        old(self).lemma_line(j + 1);
                    }
                }
            }
            assert(1 <= self.lines@.len() <= MAX_LINES);
            assert(lines_ok(self@.doc.lines)) by {
                assert forall|j: int| 0 <= j < self@.doc.lines.len() implies (#[trigger] self@.doc.lines[j]).len() <= MAX_LINE_LEN by {
                    assert(self@.doc.lines[j] == self.lines@[j]@);
                }
            }
        }
        let c = self.clamp_cursor(self.cursor);
        self.cursor = c;
        proof {
            assert(self@ =~= step(old(self)@, Cmd::DeleteLine));
            law_step_keeps_valid(old(self)@, Cmd::DeleteLine);
        }
    }

    /// Merges the cursor's line onto the previous one (backspace at
    /// column 1).
    fn merge_up(&mut self, cmd: Ghost<Cmd>)
        requires
            old(self).wf(),
            old(self)@.doc.cursor.col == 1,
            cmd@ == Cmd::DeleteChar || cmd@ == Cmd::DeleteWord,
        ensures
            final(self).rendered_view() == old(self).rendered_view(),
            final(self).wf(),
            final(self)@ == step(old(self)@, cmd@),
    {
        let k = (self.cursor.line - 1) as usize;
        proof {
            self.lemma_line(k as int);
        }
        if k == 0 {
            return;
        }
        proof {
            self.lemma_line(k - 1);
        }
        if self.lines[k - 1].len() > MAX_LINE_LEN - self.lines[k].len() {
            return;
        }
        let mut prev = copy_chars(&self.lines[k - 1]);
        let col = prev.len() as i32 + 1;
        let mut cur = copy_chars(&self.lines[k]);
        prev.append(&mut cur);
        self.begin_edit();
        self.lines.set(k - 1, prev);
        self.lines.remove(k);
        self.cursor = Cursor { line: self.cursor.line - 1, col };
        proof {
            let e = merge_edit(old(self)@.doc);
            assert(lines_view(self.lines@) =~= (e->0).0);
            assert(self@ =~= step(old(self)@, cmd@));
            law_step_keeps_valid(old(self)@, cmd@);
        }
    }

    /// Backspace: removes the character before the cursor, or at column 1
    /// joins the line onto the previous one.
    pub fn delete_char(&mut self)
        requires
            old(self).wf(),
        ensures
            final(self).rendered_view() == old(self).rendered_view(),
            final(self).wf(),
            final(self)@ == step(old(self)@, Cmd::DeleteChar),
    {
        if self.cursor.col == 1 {
            self.merge_up(Ghost(Cmd::DeleteChar));
            return;
        }
        let k = (self.cursor.line - 1) as usize;
        proof {
            self.lemma_line(k as int);
        }
        let mut line = copy_chars(&self.lines[k]);
        line.remove((self.cursor.col - 2) as usize);
        self.begin_edit();
        self.lines.set(k, line);
        self.cursor.col = self.cursor.col - 1;
        proof {
            let e = edit(old(self)@.doc, Cmd::DeleteChar);
            assert(lines_view(self.lines@) =~= (e->0).0);
            assert(self@ =~= step(old(self)@, Cmd::DeleteChar));
            law_step_keeps_valid(old(self)@, Cmd::DeleteChar);
        }
    }

    /// Deletes back to the previous word boundary, or at column 1 joins the
    /// line onto the previous one.
    pub fn delete_word(&mut self)
        requires
            old(self).wf(),
        ensures
            final(self).rendered_view() == old(self).rendered_view(),
            final(self).wf(),
            final(self)@ == step(old(self)@, Cmd::DeleteWord),
    {
        if self.cursor.col == 1 {
            self.merge_up(Ghost(Cmd::DeleteWord));
            return;
        }
        let k = (self.cursor.line - 1) as usize;
        proof {
            self.lemma_line(k as int);
        }
        let p = prev_word_in(&self.lines[k], self.cursor.col);
        let mut line = copy_chars(&self.lines[k]);
        let ghost old_line = line@;
        let mut tail = line.split_off((self.cursor.col - 1) as usize);
        line.truncate((p - 1) as usize);
        line.append(&mut tail);
        proof {
            assert(line@ =~= old_line.subrange(0, p - 1) + old_line.subrange(
                old(self)@.doc.cursor.col - 1,
                old_line.len() as int,
            ));
        }
        self.begin_edit();
        self.lines.set(k, line);
        self.cursor.col = p;
        proof {
            let e = edit(old(self)@.doc, Cmd::DeleteWord);
            assert(lines_view(self.lines@) =~= (e->0).0);
            assert(self@ =~= step(old(self)@, Cmd::DeleteWord));
            law_step_keeps_valid(old(self)@, Cmd::DeleteWord);
        }
    }

    /// Splits the line at the cursor; the cursor goes to the start of the
    /// second part.
    pub fn break_line(&mut self)
        requires
            old(self).wf(),
        ensures
            final(self).rendered_view() == old(self).rendered_view(),
            final(self).wf(),
            final(self)@ == step(old(self)@, Cmd::BreakLine),
    {
        let k = (self.cursor.line - 1) as usize;
        proof {
            self.lemma_line(k as int);
        }
        if self.lines.len() >= MAX_LINES {
            return;
        }
        let mut line = copy_chars(&self.lines[k]);
        let tail = line.split_off((self.cursor.col - 1) as usize);
        self.begin_edit();
        self.lines.set(k, line);
        self.lines.insert(k + 1, tail);
        self.cursor = Cursor { line: self.cursor.line + 1, col: 1 };
        proof {
            let e = edit(old(self)@.doc, Cmd::BreakLine);
            assert(lines_view(self.lines@) =~= (e->0).0);
            assert(self@ =~= step(old(self)@, Cmd::BreakLine));
            law_step_keeps_valid(old(self)@, Cmd::BreakLine);
        }
    }

    /// Moves the cursor to the nearest position to `pos`.
    pub fn move_to(&mut self, pos: Cursor)
        requires
            old(self).wf(),
        ensures
            final(self).rendered_view() == old(self).rendered_view(),
            final(self).wf(),
            final(self)@ == step(old(self)@, Cmd::MoveTo(pos)),
    {
        self.cursor = self.clamp_cursor(pos);
        proof {
            assert(self@ =~= step(old(self)@, Cmd::MoveTo(pos)));
            law_step_keeps_valid(old(self)@, Cmd::MoveTo(pos));
        }
    }

    /// Applies a motion that lands on the cursor `c`.
    fn set_cursor(&mut self, c: Cursor, cmd: Ghost<Cmd>)
        requires
            old(self).wf(),
            is_motion(cmd@),
            c == motion(old(self)@.doc, cmd@),
        ensures
            final(self).rendered_view() == old(self).rendered_view(),
            final(self).wf(),
            final(self)@ == step(old(self)@, cmd@),
    {
        self.cursor = c;
        proof {
            assert(self@ =~= step(old(self)@, cmd@));
            law_step_keeps_valid(old(self)@, cmd@);
        }
    }

    pub fn move_up(&mut self)
        requires
            old(self).wf(),
        ensures
            final(self).rendered_view() == old(self).rendered_view(),
            final(self).wf(),
            final(self)@ == step(old(self)@, Cmd::MoveUp),
    {
        let c = self.clamp_cursor(Cursor { line: self.cursor.line - 1, col: self.cursor.col });
        self.set_cursor(c, Ghost(Cmd::MoveUp));
    }

    pub fn move_down(&mut self)
        requires
            old(self).wf(),
        ensures
            final(self).rendered_view() == old(self).rendered_view(),
            final(self).wf(),
            final(self)@ == step(old(self)@, Cmd::MoveDown),
    {
        let c = self.clamp_cursor(Cursor { line: self.cursor.line + 1, col: self.cursor.col });
        self.set_cursor(c, Ghost(Cmd::MoveDown));
    }

    pub fn move_left(&mut self)
        requires
            old(self).wf(),
        ensures
            final(self).rendered_view() == old(self).rendered_view(),
            final(self).wf(),
            final(self)@ == step(old(self)@, Cmd::MoveLeft),
    {
        let c = self.clamp_cursor(Cursor { line: self.cursor.line, col: self.cursor.col - 1 });
        self.set_cursor(c, Ghost(Cmd::MoveLeft));
    }

    pub fn move_right(&mut self)
        requires
            old(self).wf(),
        ensures
            final(self).rendered_view() == old(self).rendered_view(),
            final(self).wf(),
            final(self)@ == step(old(self)@, Cmd::MoveRight),
    {
        let c = self.clamp_cursor(Cursor { line: self.cursor.line, col: self.cursor.col + 1 });
        self.set_cursor(c, Ghost(Cmd::MoveRight));
    }

    /// Where forward word motion goes: onto the next break character after
    /// the one under the cursor, or to the end of the line; `None` at the
    /// end of the line. Never leaves the line.
    pub fn next_word(&self) -> (r: Option<Cursor>)
        requires
            self.wf(),
        ensures
            r == (match next_word_col(self@.doc.lines[self@.doc.cursor.line - 1], self@.doc.cursor.col as int) {
                Some(c) => Some(Cursor { line: self@.doc.cursor.line, col: c as i32 }),
                None => None,
            }),
    {
        let k = (self.cursor.line - 1) as usize;
        proof {
            self.lemma_line(k as int);
        }
        let line = &self.lines[k];
        if self.cursor.col as usize > line.len() {
            return None;
        }
        let mut i: usize = self.cursor.col as usize;
        while i < line.len()
            invariant
                self.cursor.col <= i <= line@.len(),
                line@.len() <= MAX_LINE_LEN,
                line@ == self@.doc.lines[self@.doc.cursor.line - 1],
                first_break_from(line@, self.cursor.col as int) == first_break_from(line@, i as int),
            decreases line@.len() - i,
        {
            if break_char(line[i]) {
                return Some(Cursor { line: self.cursor.line, col: i as i32 + 1 });
            }
            i = i + 1;
        }
        Some(Cursor { line: self.cursor.line, col: line.len() as i32 + 1 })
    }

    /// Where backward word motion goes: just after the last break character
    /// before the one left of the cursor, or column 1.
    pub fn prev_word(&self) -> (r: Cursor)
        requires
            self.wf(),
        ensures
            r == (Cursor {
                line: self@.doc.cursor.line,
                col: prev_word_col(self@.doc.lines[self@.doc.cursor.line - 1], self@.doc.cursor.col as int) as i32,
            }),
    {
        let k = (self.cursor.line - 1) as usize;
        proof {
            self.lemma_line(k as int);
        }
        Cursor { line: self.cursor.line, col: prev_word_in(&self.lines[k], self.cursor.col) }
    }

    pub fn move_next_word(&mut self)
        requires
            old(self).wf(),
        ensures
            final(self).rendered_view() == old(self).rendered_view(),
            final(self).wf(),
            final(self)@ == step(old(self)@, Cmd::MoveNextWord),
    {
        match self.next_word() {
            Some(c) => self.set_cursor(c, Ghost(Cmd::MoveNextWord)),
            None => {
                let c = self.cursor;
                self.set_cursor(c, Ghost(Cmd::MoveNextWord));
            },
        }
    }

    pub fn move_prev_word(&mut self)
        requires
            old(self).wf(),
        ensures
            final(self).rendered_view() == old(self).rendered_view(),
            final(self).wf(),
            final(self)@ == step(old(self)@, Cmd::MovePrevWord),
    {
        let c = self.prev_word();
        self.set_cursor(c, Ghost(Cmd::MovePrevWord));
    }

    /// Moves to the first character that is not a space or tab, or to the
    /// end of a blank line.
    pub fn move_line_start(&mut self)
        requires
            old(self).wf(),
        ensures
            final(self).rendered_view() == old(self).rendered_view(),
            final(self).wf(),
            final(self)@ == step(old(self)@, Cmd::MoveLineStart),
    {
        let k = (self.cursor.line - 1) as usize;
        proof {
            self.lemma_line(k as int);
        }
        let line = &self.lines[k];
        let mut i: usize = 0;
        while i < line.len() && (line[i] == ' ' || line[i] == '\t')
            invariant
                i <= line@.len(),
                line@.len() <= MAX_LINE_LEN,
                first_text_from(line@, 0) == first_text_from(line@, i as int),
            decreases line@.len() - i,
        {
            i = i + 1;
        }
        let c = Cursor { line: self.cursor.line, col: i as i32 + 1 };
        self.set_cursor(c, Ghost(Cmd::MoveLineStart));
    }

    pub fn move_line_end(&mut self)
        requires
            old(self).wf(),
        ensures
            final(self).rendered_view() == old(self).rendered_view(),
            final(self).wf(),
            final(self)@ == step(old(self)@, Cmd::MoveLineEnd),
    {
        let k = (self.cursor.line - 1) as usize;
        proof {
            self.lemma_line(k as int);
        }
        let c = Cursor { line: self.cursor.line, col: self.lines[k].len() as i32 + 1 };
        self.set_cursor(c, Ghost(Cmd::MoveLineEnd));
    }

    /// Restores the snapshot on top of the undo stack, keeping the current
    /// document for redo.
    pub fn undo(&mut self)
        requires
            old(self).wf(),
        ensures
            final(self).rendered_view() == old(self).rendered_view(),
            final(self).wf(),
            final(self)@ == step(old(self)@, Cmd::Undo),
    {
        match self.undo_stack.pop() {
            Some(st) => {
                let cur = self.snapshot();
                self.redo_stack.push(cur);
                self.lines = st.lines;
                self.cursor = st.cursor;
                self.modified = st.modified;
            },
            None => {},
        }
        proof {
            assert(self@ =~= step(old(self)@, Cmd::Undo));
            law_step_keeps_valid(old(self)@, Cmd::Undo);
        }
    }

    /// Restores the snapshot on top of the redo stack, keeping the current
    /// document for undo.
    pub fn redo(&mut self)
        requires
            old(self).wf(),
        ensures
            final(self).rendered_view() == old(self).rendered_view(),
            final(self).wf(),
            final(self)@ == step(old(self)@, Cmd::Redo),
    {
        if self.redo_stack.len() > 0 {
            self.push_undo();
            match self.redo_stack.pop() {
                Some(st) => {
                    self.lines = st.lines;
                    self.cursor = st.cursor;
                    self.modified = st.modified;
                },
                None => {},
            }
        }
        proof {
            assert(self@ =~= step(old(self)@, Cmd::Redo));
            law_step_keeps_valid(old(self)@, Cmd::Redo);
        }
    }

    /// Applies one command; while recording, appends it to the recording
    /// first.
    pub fn exec(&mut self, cmd: Command)
        requires
            old(self).wf(),
        ensures
            final(self).rendered_view() == old(self).rendered_view(),
            final(self).wf(),
            final(self)@ == dispatch(old(self)@, cmd@),
    {
        if self.recording {
            self.record.push(cmd.duplicate());
            proof {
                assert(commands_view(self.record@) =~= old(self)@.record.push(cmd@));
                assert(self@ =~= (Model { record: old(self)@.record.push(cmd@), ..old(self)@ }));
            }
        }
        match cmd {
            Command::InsertChar(c) => self.insert_char(c),
            Command::InsertString(t) => self.insert_str(t.as_str()),
            Command::MoveTo(c) => self.move_to(c),
            Command::MoveUp => self.move_up(),
            Command::MoveDown => self.move_down(),
            Command::MoveLeft => self.move_left(),
            Command::MoveRight => self.move_right(),
            Command::MovePrevWord => self.move_prev_word(),
            Command::MoveNextWord => self.move_next_word(),
            Command::MoveLineStart => self.move_line_start(),
            Command::MoveLineEnd => self.move_line_end(),
            Command::DeleteLine => self.delete_line(),
            Command::DeleteWord => self.delete_word(),
            Command::DeleteChar => self.delete_char(),
            Command::BreakLine => self.break_line(),
            Command::Undo => self.undo(),
            Command::Redo => self.redo(),
        }
    }

    /// The document's text: the lines joined with `'\n'`.
    pub fn content(&self) -> (r: String)
        requires
            self.wf(),
        ensures
            r@ == join_lines(self@.doc.lines),
    {
        join_vec_lines(&self.lines)
    }

    /// The text that saving writes: every line without its trailing white
    /// space, joined with `'\n'`.
    pub fn save_text(&self) -> (r: String)
        requires
            self.wf(),
        ensures
            r@ == join_lines(trim_all(self@.doc.lines)),
    {
        let mut out: Vec<Vec<char>> = Vec::new();
        let mut i: usize = 0;
        while i < self.lines.len()
            invariant
                self.wf(),
                i <= self.lines@.len(),
                out@.len() == i,
                forall|j: int| 0 <= j < i ==> (#[trigger] out@[j])@ == trim_end(self.lines@[j]@),
            decreases self.lines@.len() - i,
        {
            out.push(trimmed(&self.lines[i]));
            i = i + 1;
        }
        proof {
            assert(lines_view(out@) =~= trim_all(self@.doc.lines));
        }
        join_vec_lines(&out)
    }

    /// Records a successful write of `save_text`: the lines are trimmed,
    /// the buffer is clean, and every snapshot in the undo history counts
    /// as modified.
    pub fn mark_saved(&mut self)
        requires
            old(self).wf(),
        ensures
            final(self).rendered_view() == old(self).rendered_view(),
            final(self).wf(),
            final(self)@ == saved(old(self)@),
    {
        let mut i: usize = 0;
        while i < self.lines.len()
            invariant
                i <= self.lines@.len(),
                self.lines@.len() == old(self).lines@.len(),
                self.undo_stack == old(self).undo_stack,
                self.redo_stack == old(self).redo_stack,
                self.cursor == old(self).cursor,
                self.modified == old(self).modified,
                self.record == old(self).record,
                self.cmdline == old(self).cmdline,
                self.cmdline_pos == old(self).cmdline_pos,
                self.mode == old(self).mode,
                self.recording == old(self).recording,
                self.pattern == old(self).pattern,
                self.rendered == old(self).rendered,
                forall|j: int| 0 <= j < i ==> (#[trigger] self.lines@[j])@ == trim_end(old(self).lines@[j]@),
                forall|j: int| i <= j < self.lines@.len() ==> (#[trigger] self.lines@[j]) == old(self).lines@[j],
            decreases self.lines@.len() - i,
        {
            let t = trimmed(&self.lines[i]);
            self.lines.set(i, t);
            i = i + 1;
        }
        proof {
            assert(lines_view(self.lines@) =~= trim_all(old(self)@.doc.lines));
            law_save_clears_modified(old(self)@);
        }
        let c = self.clamp_cursor(self.cursor);
        self.cursor = c;
        self.modified = false;
        let mut i: usize = 0;
        while i < self.undo_stack.len()
            invariant
                i <= self.undo_stack@.len(),
                self.undo_stack@.len() == old(self).undo_stack@.len(),
                lines_view(self.lines@) == trim_all(old(self)@.doc.lines),
                self.cursor == clamp(trim_all(old(self)@.doc.lines), old(self)@.doc.cursor),
                !self.modified,
                self.redo_stack == old(self).redo_stack,
                self.record == old(self).record,
                self.cmdline == old(self).cmdline,
                self.cmdline_pos == old(self).cmdline_pos,
                self.mode == old(self).mode,
                self.recording == old(self).recording,
                self.pattern == old(self).pattern,
                self.rendered == old(self).rendered,
                forall|j: int| 0 <= j < i ==> (#[trigger] self.undo_stack@[j])@ == (Snapshot { modified: true, ..old(self).undo_stack@[j]@ }),
                forall|j: int| i <= j < self.undo_stack@.len() ==> (#[trigger] self.undo_stack@[j]) == old(self).undo_stack@[j],
            decreases self.undo_stack@.len() - i,
        {
            let mut st = State { lines: Vec::new(), cursor: Cursor { line: 1, col: 1 }, modified: false };
            self.undo_stack.set_and_swap(i, &mut st);
            st.modified = true;
            self.undo_stack.set(i, st);
            i = i + 1;
        }
        proof {
            assert(states_view(self.undo_stack@) =~= saved(old(self)@).undo);
            assert(self@ =~= saved(old(self)@));
        }
    }

    /// Inserts an empty line so that it has index `n` (0-based, so `n` is
    /// the number of the line it follows); nothing where `n` is past the
    /// end or the document is at its line limit.
    pub fn insert_line_at(&mut self, n: usize)
        requires
            old(self).wf(),
        ensures
            final(self).rendered_view() == old(self).rendered_view(),
            final(self).wf(),
            final(self)@ == apply_edit(old(self)@, insert_line_edit(old(self)@.doc, n as int)),
    {
        proof {
            lemma_extra_edits_ok(old(self)@, n as int);
        }
        if n > self.lines.len() || self.lines.len() >= MAX_LINES {
            return;
        }
        self.begin_edit();
        self.lines.insert(n, Vec::new());
        proof {
            assert(lines_view(self.lines@) =~= (insert_line_edit(old(self)@.doc, n as int)->0).0);
            assert forall|j: int| 0 <= j < self.lines@.len() implies (#[trigger] self@.doc.lines[j]).len() <= MAX_LINE_LEN by {
                assert(self@.doc.lines[j] == (insert_line_edit(old(self)@.doc, n as int)->0).0[j]);
            }
        }
        let c = self.clamp_cursor(self.cursor);
        self.cursor = c;
        proof {
            assert(self@ =~= apply_edit(old(self)@, insert_line_edit(old(self)@.doc, n as int)));
        }
    }

    /// Opens an empty line below the cursor's line.
    pub fn open_line(&mut self)
        requires
            old(self).wf(),
        ensures
            final(self).rendered_view() == old(self).rendered_view(),
            final(self).wf(),
            final(self)@ == apply_edit(old(self)@, open_line_edit(old(self)@.doc)),
    {
        let n = self.cursor.line as usize;
        self.insert_line_at(n);
    }

    /// Comments the cursor's line out with a leading `// `, or removes that
    /// marker where the line starts with it.
    pub fn toggle_comment(&mut self)
        requires
            old(self).wf(),
        ensures
            final(self).rendered_view() == old(self).rendered_view(),
            final(self).wf(),
            final(self)@ == apply_edit(old(self)@, toggle_comment_edit(old(self)@.doc)),
    {
        proof {
            lemma_extra_edits_ok(old(self)@, 0);
        }
        let k = (self.cursor.line - 1) as usize;
        proof {
            self.lemma_line(k as int);
        }
        let len = self.lines[k].len();
        let commented = len >= 3 && self.lines[k][0] == '/' && self.lines[k][1] == '/'
            && self.lines[k][2] == ' ';
        proof {
            if len >= 3 {
                if commented {
                    assert(self.lines@[k as int]@.subrange(0, 3) =~= comment_marker());
                } else {
                    assert(self.lines@[k as int]@.subrange(0, 3)[0] == self.lines@[k as int]@[0]);
                    assert(self.lines@[k as int]@.subrange(0, 3)[1] == self.lines@[k as int]@[1]);
                    assert(self.lines@[k as int]@.subrange(0, 3)[2] == self.lines@[k as int]@[2]);
                    assert(self.lines@[k as int]@.subrange(0, 3) != comment_marker());
                }
            }
        }
        if commented {
            let mut line = copy_chars(&self.lines[k]);
            let rest = line.split_off(3);
            self.begin_edit();
            self.lines.set(k, rest);
            proof {
                assert(lines_view(self.lines@) =~= (toggle_comment_edit(old(self)@.doc)->0).0);
                assert(lines_ok(self@.doc.lines));
            }
            let c = self.clamp_cursor(self.cursor);
            self.cursor = c;
        } else {
            if len > MAX_LINE_LEN - 3 {
                return;
            }
            let mut line: Vec<char> = Vec::new();
            line.push('/');
            line.push('/');
            line.push(' ');
            let mut rest = copy_chars(&self.lines[k]);
            line.append(&mut rest);
            proof {
                assert(line@ =~= comment_marker() + old(self).lines@[k as int]@);
            }
            self.begin_edit();
            self.lines.set(k, line);
            proof {
                assert(lines_view(self.lines@) =~= (toggle_comment_edit(old(self)@.doc)->0).0);
            }
        }
        proof {
            assert(self@ =~= apply_edit(old(self)@, toggle_comment_edit(old(self)@.doc)));
        }
    }

    pub fn set_mode(&mut self, mode: Mode)
        requires
            old(self).wf(),
        ensures
            final(self).rendered_view() == old(self).rendered_view(),
            final(self).wf(),
            final(self)@ == with_mode(old(self)@, mode),
    {
        self.mode = mode;
        proof {
            assert(self@ =~= with_mode(old(self)@, mode));
        }
    }

    /// Stops a recording, or starts a fresh one.
    pub fn toggle_recording(&mut self)
        requires
            old(self).wf(),
        ensures
            final(self).rendered_view() == old(self).rendered_view(),
            final(self).wf(),
            final(self)@ == toggle_record(old(self)@),
    {
        if self.recording {
            self.recording = false;
        } else {
            self.recording = true;
            self.record.clear();
        }
        proof {
            assert(self@ =~= toggle_record(old(self)@));
        }
    }

    /// Length of the recording.
    pub fn record_len(&self) -> (r: usize)
        ensures
            r == self@.record.len(),
    {
        self.record.len()
    }

    /// The `i`-th recorded command.
    pub fn recorded(&self, i: usize) -> (r: Command)
        requires
            i < self@.record.len(),
        ensures
            r@ == self@.record[i as int],
    {
        self.record[i].duplicate()
    }

    /// Enters the command line with an empty input.
    pub fn open_cmdline(&mut self)
        requires
            old(self).wf(),
        ensures
            final(self).rendered_view() == old(self).rendered_view(),
            final(self).wf(),
            final(self)@ == open_cmdline(old(self)@),
    {
        self.mode = Mode::CommandLine;
        self.cmdline = Vec::new();
        self.cmdline_pos = 0;
        proof {
            assert(self@ =~= open_cmdline(old(self)@));
        }
    }

    /// The command line's input.
    pub fn cmdline_text(&self) -> (r: String)
        ensures
            r@ == self@.cmdline,
    {
        string_of(&self.cmdline)
    }

    pub fn cmdline_insert(&mut self, ch: char)
        requires
            old(self).wf(),
        ensures
            final(self).rendered_view() == old(self).rendered_view(),
            final(self).wf(),
            final(self)@ == cmdline_insert(old(self)@, ch),
    {
        if self.cmdline.len() < MAX_LINE_LEN {
            self.cmdline.insert(self.cmdline_pos, ch);
            self.cmdline_pos = self.cmdline_pos + 1;
        }
        proof {
            assert(self@ =~= cmdline_insert(old(self)@, ch));
        }
    }

    pub fn cmdline_delete(&mut self)
        requires
            old(self).wf(),
        ensures
            final(self).rendered_view() == old(self).rendered_view(),
            final(self).wf(),
            final(self)@ == cmdline_delete(old(self)@),
    {
        if self.cmdline_pos > 0 {
            self.cmdline.remove(self.cmdline_pos - 1);
            self.cmdline_pos = self.cmdline_pos - 1;
        }
        proof {
            assert(self@ =~= cmdline_delete(old(self)@));
        }
    }

    pub fn cmdline_delete_word(&mut self)
        requires
            old(self).wf(),
        ensures
            final(self).rendered_view() == old(self).rendered_view(),
            final(self).wf(),
            final(self)@ == cmdline_delete_word(old(self)@),
    {
        if self.cmdline_pos > 0 {
            let p = prev_word_in(&self.cmdline, self.cmdline_pos as i32 + 1);
            let mut tail = self.cmdline.split_off(self.cmdline_pos);
            self.cmdline.truncate((p - 1) as usize);
            self.cmdline.append(&mut tail);
            self.cmdline_pos = (p - 1) as usize;
        }
        proof {
            assert(self@ =~= cmdline_delete_word(old(self)@));
        }
    }

    pub fn cmdline_left(&mut self)
        requires
            old(self).wf(),
        ensures
            final(self).rendered_view() == old(self).rendered_view(),
            final(self).wf(),
            final(self)@ == cmdline_left(old(self)@),
    {
        if self.cmdline_pos > 0 {
            self.cmdline_pos = self.cmdline_pos - 1;
        }
        proof {
            assert(self@ =~= cmdline_left(old(self)@));
        }
    }

    pub fn cmdline_right(&mut self)
        requires
            old(self).wf(),
        ensures
            final(self).rendered_view() == old(self).rendered_view(),
            final(self).wf(),
            final(self)@ == cmdline_right(old(self)@),
    {
        if self.cmdline_pos < self.cmdline.len() {
            self.cmdline_pos = self.cmdline_pos + 1;
        }
        proof {
            assert(self@ =~= cmdline_right(old(self)@));
        }
    }

    /// Installs the command line's input as the search pattern, or no
    /// pattern where it does not compile, and returns to normal mode.
    pub fn confirm_cmdline(&mut self)
        requires
            old(self).wf(),
        ensures
            final(self).rendered_view() == old(self).rendered_view(),
            final(self).wf(),
            final(self)@ == (Model {
                pattern: if pattern_compiles(old(self)@.cmdline) {
                    Some(old(self)@.cmdline)
                } else {
                    None
                },
                mode: Mode::Normal,
                ..old(self)@
            }),
    {
        let text = string_of(&self.cmdline);
        self.pattern = SearchPattern::new(text.as_str());
        self.mode = Mode::Normal;
        proof {
            assert(self@ =~= (Model {
                pattern: if pattern_compiles(old(self)@.cmdline) {
                    Some(old(self)@.cmdline)
                } else {
                    None
                },
                mode: Mode::Normal,
                ..old(self)@
            }));
        }
    }

    /// The first match of the search pattern after the cursor: later on the
    /// cursor's line, else on a following line. No wrap to the top.
    pub fn search_forward(&self) -> (r: Option<Cursor>)
        requires
            self.wf(),
        ensures
            r == (match self@.pattern {
                Some(p) => search_forward_from(p, self@.doc.lines, self@.doc.cursor, self@.doc.cursor.line - 1),
                None => None,
            }),
    {
        let p = match &self.pattern {
            Some(p) => p,
            None => {
                return None;
            },
        };
        let mut i: usize = (self.cursor.line - 1) as usize;
        while i < self.lines.len()
            invariant
                self.wf(),
                self.pattern == Some(*p),
                (self.cursor.line - 1) <= i <= self.lines@.len(),
                search_forward_from(p@, self@.doc.lines, self@.doc.cursor, self@.doc.cursor.line - 1)
                    == search_forward_from(p@, self@.doc.lines, self@.doc.cursor, i as int),
            decreases self.lines@.len() - i,
        {
            proof {
                self.lemma_line(i as int);
            }
            let line = string_of(&self.lines[i]);
            let starts = p.starts_in(line.as_str());
            let min: i32 = if i == (self.cursor.line - 1) as usize {
                self.cursor.col
            } else {
                0
            };
            match first_match_after(&starts, min) {
                Some(col) => {
                    return Some(Cursor { line: i as i32 + 1, col });
                },
                None => {},
            }
            i = i + 1;
        }
        None
    }

    /// The nearest match of the search pattern before the cursor: the last
    /// one left of the cursor on its line, else the last one on the nearest
    /// earlier line that has a match. No wrap to the bottom.
    pub fn search_backward(&self) -> (r: Option<Cursor>)
        requires
            self.wf(),
        ensures
            r == (match self@.pattern {
                Some(p) => search_backward_from(p, self@.doc.lines, self@.doc.cursor, self@.doc.cursor.line - 1),
                None => None,
            }),
    {
        let p = match &self.pattern {
            Some(p) => p,
            None => {
                return None;
            },
        };
        let mut i: usize = self.cursor.line as usize;
        while i > 0
            invariant
                self.wf(),
                self.pattern == Some(*p),
                i <= self.cursor.line,
                search_backward_from(p@, self@.doc.lines, self@.doc.cursor, self@.doc.cursor.line - 1)
                    == search_backward_from(p@, self@.doc.lines, self@.doc.cursor, i - 1),
            decreases i,
        {
            proof {
                self.lemma_line(i - 1);
            }
            let line = string_of(&self.lines[i - 1]);
            let starts = p.starts_in(line.as_str());
            let max: i32 = if i == self.cursor.line as usize {
                self.cursor.col
            } else {
                (MAX_LINE_LEN + 2) as i32
            };
            match last_match_before(&starts, max) {
                Some(col) => {
                    return Some(Cursor { line: i as i32, col });
                },
                None => {},
            }
            i = i - 1;
        }
        None
    }

    /// What the last colouring produced, one entry per line at that time.
    pub closed spec fn rendered_view(&self) -> Seq<Vec<TextChunk>> {
        self.rendered@
    }

    pub fn rendered(&self) -> (r: &Vec<Vec<TextChunk>>)
        ensures
            r@ == self.rendered_view(),
    {
        &self.rendered
    }

    /// Colours the whole document again from its first line.
    pub fn rehighlight(&mut self, palette: Option<&Palette>)
        requires
            old(self).wf(),
        ensures
            final(self).wf(),
            final(self)@ == old(self)@,
            renders(final(self)@.doc.lines, final(self).rendered_view()),
            palette is None ==> renders_plain(final(self)@.doc.lines, final(self).rendered_view()),
    {
        let mut texts: Vec<String> = Vec::new();
        let mut i: usize = 0;
        while i < self.lines.len()
            invariant
                i <= self.lines@.len(),
                texts@.len() == i,
                forall|j: int| 0 <= j < i ==> (#[trigger] texts@[j])@ == self.lines@[j]@,
            decreases self.lines@.len() - i,
        {
            texts.push(string_of(&self.lines[i]));
            i = i + 1;
        }
        let r = render_lines(&texts, palette);
        self.rendered = r;
        proof {
            assert forall|j: int| 0 <= j < self.lines@.len() implies self@.doc.lines[j] == texts@[j]@ by {}
        }
    }

    /// A copy of the cursor's line.
    pub fn current_line(&self) -> (r: Vec<char>)
        requires
            self.wf(),
        ensures
            r@ == cur_line(self@.doc),
            r@.len() <= MAX_LINE_LEN,
    {
        let k = (self.cursor.line - 1) as usize;
        proof {
            self.lemma_line(k as int);
        }
        copy_chars(&self.lines[k])
    }
}

} // verus!
