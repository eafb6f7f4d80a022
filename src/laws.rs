//! What holds of every sequence of commands.

use vstd::prelude::*;
use crate::cursor::Cursor;
use crate::model::{
    apply_edit, clamp, cursor_ok, edit, first_break_from, first_text_from, insert_line_edit,
    is_motion, is_mutation, join_lines, join_up, last_break_before, lines_ok, model_ok, motion,
    no_break, prev_word_col, push_dedup, remove_line, saved, snapshot_ok, split_line, split_text,
    step, step_all, text_lines, toggle_comment_edit, trim_all, trim_end, undo_n, undo_step, Cmd,
    Model, Snapshot, MAX_LINE_LEN,
};
use crate::chars::is_space;

verus! {

proof fn lemma_first_break_bounds(s: Seq<char>, from: int)
    requires
        0 <= from <= s.len(),
    ensures
        from <= first_break_from(s, from) <= s.len(),
    decreases s.len() - from,
{
    if from < s.len() {
        lemma_first_break_bounds(s, from + 1);
    }
}

proof fn lemma_last_break_bounds(s: Seq<char>, end: int)
    requires
        0 <= end <= s.len(),
    ensures
        -1 <= last_break_before(s, end) < end,
    decreases end,
{
    if end > 0 {
        lemma_last_break_bounds(s, end - 1);
    }
}

proof fn lemma_first_text_bounds(s: Seq<char>, from: int)
    requires
        0 <= from <= s.len(),
    ensures
        from <= first_text_from(s, from) <= s.len(),
    decreases s.len() - from,
{
    if from < s.len() {
        lemma_first_text_bounds(s, from + 1);
    }
}

/// Backward word motion lands between column 1 and the cursor, and strictly
/// left of it unless the cursor is at column 1.
pub proof fn lemma_prev_word_bounds(s: Seq<char>, col: int)
    requires
        1 <= col <= s.len() + 1,
    ensures
        1 <= prev_word_col(s, col) <= col,
        col >= 2 ==> prev_word_col(s, col) < col,
{
    let end = if col - 2 < 0 { 0 } else { col - 2 };
    lemma_last_break_bounds(s, end);
}

/// A clamped position is on the document.
pub proof fn lemma_clamp_ok(ls: Seq<Seq<char>>, pos: Cursor)
    requires
        lines_ok(ls),
    ensures
        cursor_ok(ls, clamp(ls, pos)),
        cursor_ok(ls, pos) ==> clamp(ls, pos) == pos,
{
    let c = clamp(ls, pos);
    assert(ls[c.line - 1].len() <= MAX_LINE_LEN);
}

proof fn lemma_motion_ok(d: Snapshot, cmd: Cmd)
    requires
        snapshot_ok(d),
        is_motion(cmd),
    ensures
        cursor_ok(d.lines, motion(d, cmd)),
{
    let c = d.cursor;
    let line = d.lines[c.line - 1];
    assert(line.len() <= MAX_LINE_LEN);
    match cmd {
        Cmd::MoveTo(p) => lemma_clamp_ok(d.lines, p),
        Cmd::MoveUp => lemma_clamp_ok(d.lines, Cursor { line: (c.line - 1) as i32, col: c.col }),
        Cmd::MoveDown => lemma_clamp_ok(d.lines, Cursor { line: (c.line + 1) as i32, col: c.col }),
        Cmd::MoveLeft => lemma_clamp_ok(d.lines, Cursor { line: c.line, col: (c.col - 1) as i32 }),
        Cmd::MoveRight => lemma_clamp_ok(d.lines, Cursor { line: c.line, col: (c.col + 1) as i32 }),
        Cmd::MovePrevWord => lemma_prev_word_bounds(line, c.col as int),
        Cmd::MoveNextWord => {
            if c.col <= line.len() {
                lemma_first_break_bounds(line, c.col as int);
            }
        },
        Cmd::MoveLineStart => lemma_first_text_bounds(line, 0),
        _ => {},
    }
}

proof fn lemma_edit_ok(d: Snapshot, cmd: Cmd)
    requires
        snapshot_ok(d),
        edit(d, cmd) is Some,
    ensures
        lines_ok((edit(d, cmd)->0).0),
        cursor_ok((edit(d, cmd)->0).0, (edit(d, cmd)->0).1),
{
    let k = d.cursor.line - 1;
    let line = d.lines[k];
    let at = d.cursor.col - 1;
    let e = edit(d, cmd)->0;
    assert(line.len() <= MAX_LINE_LEN);
    match cmd {
        Cmd::DeleteLine => {
            let ls = remove_line(d.lines, k);
            assert forall|i: int| 0 <= i < ls.len() implies (#[trigger] ls[i]).len()
                <= MAX_LINE_LEN by {
                if d.lines.len() > 1 {
                    if i >= k {
                        assert(ls[i] == d.lines[i + 1]);
                    }
                }
            }
            lemma_clamp_ok(ls, d.cursor);
        },
        Cmd::DeleteChar | Cmd::DeleteWord => {
            if d.cursor.col == 1 {
                let ls = join_up(d.lines, k);
                assert(d.lines[k - 1].len() <= MAX_LINE_LEN);
                assert forall|i: int| 0 <= i < ls.len() implies (#[trigger] ls[i]).len()
                    <= MAX_LINE_LEN by {
                    if i >= k {
                        assert(ls[i] == d.lines[i + 1]);
                    }
                }
            } else {
                if cmd == Cmd::DeleteWord {
                    lemma_prev_word_bounds(line, d.cursor.col as int);
                }
                assert forall|i: int| 0 <= i < e.0.len() implies (#[trigger] e.0[i]).len()
                    <= MAX_LINE_LEN by {
                    if i != k {
                        assert(e.0[i] == d.lines[i]);
                    }
                }
            }
        },
        Cmd::BreakLine => {
            let ls = split_line(d.lines, k, at);
            assert forall|i: int| 0 <= i < ls.len() implies (#[trigger] ls[i]).len()
                <= MAX_LINE_LEN by {
                if i < k {
                    assert(ls[i] == d.lines[i]);
                } else if i > k + 1 {
                    assert(ls[i] == d.lines[i - 1]);
                }
            }
        },
        _ => {
            assert forall|i: int| 0 <= i < e.0.len() implies (#[trigger] e.0[i]).len()
                <= MAX_LINE_LEN by {
                if i != k {
                    assert(e.0[i] == d.lines[i]);
                }
            }
        },
    }
}

proof fn lemma_push_dedup_ok(stack: Seq<Snapshot>, s: Snapshot)
    requires
        forall|i: int| 0 <= i < stack.len() ==> snapshot_ok(#[trigger] stack[i]),
        snapshot_ok(s),
    ensures
        forall|i: int|
            0 <= i < push_dedup(stack, s).len() ==> snapshot_ok(#[trigger] push_dedup(stack, s)[i]),
{
}

/// Every command keeps the cursor on the document, the document non-empty,
/// and every snapshot in the history likewise.
pub proof fn law_step_keeps_valid(m: Model, cmd: Cmd)
    requires
        model_ok(m),
    ensures
        model_ok(step(m, cmd)),
{
    match cmd {
        Cmd::Undo => {
            if m.undo.len() > 0 {
                assert(snapshot_ok(m.undo[m.undo.len() - 1]));
            }
        },
        Cmd::Redo => {
            if m.redo.len() > 0 {
                assert(snapshot_ok(m.redo[m.redo.len() - 1]));
                lemma_push_dedup_ok(m.undo, m.doc);
            }
        },
        _ => {
            if is_motion(cmd) {
                lemma_motion_ok(m.doc, cmd);
            } else if edit(m.doc, cmd) is Some {
                lemma_edit_ok(m.doc, cmd);
                lemma_push_dedup_ok(m.undo, m.doc);
            }
        },
    }
}

/// Each command in turn is an edit that changes the document's lines,
/// cursor or modified flag.
pub open spec fn all_effective(m: Model, cmds: Seq<Cmd>) -> bool
    decreases cmds.len(),
{
    cmds.len() == 0 || (edit(m.doc, cmds[0]) is Some && step(m, cmds[0]).doc != m.doc
        && all_effective(step(m, cmds[0]), cmds.drop_first()))
}

proof fn lemma_undo_n_last(m: Model, n: nat)
    ensures
        undo_n(m, n + 1) == undo_step(undo_n(m, n)),
    decreases n,
{
    assert(undo_n(m, n + 1) == undo_n(undo_step(m), n));
    if n > 0 {
        lemma_undo_n_last(undo_step(m), (n - 1) as nat);
        assert(undo_n(m, n) == undo_n(undo_step(m), (n - 1) as nat));
        assert(undo_n(undo_step(m), n) == undo_n(undo_step(m), ((n - 1) as nat + 1) as nat));
    } else {
        assert(undo_n(undo_step(m), 0) == undo_step(m));
    }
}

/// An edit that applies is committed.
proof fn lemma_step_edit(m: Model, cmd: Cmd)
    requires
        edit(m.doc, cmd) is Some,
    ensures
        step(m, cmd) == crate::model::commit(m, (edit(m.doc, cmd)->0).0, (edit(m.doc, cmd)->0).1),
        !is_motion(cmd),
{
}

proof fn lemma_undo_back(m: Model, cmds: Seq<Cmd>)
    requires
        model_ok(m),
        cmds.len() > 0,
        all_effective(m, cmds),
    ensures
        undo_n(step_all(m, cmds), cmds.len()).doc == m.doc,
        undo_n(step_all(m, cmds), cmds.len()).undo == push_dedup(m.undo, m.doc).drop_last(),
    decreases cmds.len(),
{
    let m1 = step(m, cmds[0]);
    law_step_keeps_valid(m, cmds[0]);
    lemma_step_edit(m, cmds[0]);
    assert(step_all(m, cmds) == step_all(m1, cmds.drop_first()));
    if cmds.len() == 1 {
        assert(step_all(m1, cmds.drop_first()) == m1);
        assert(undo_n(m1, 1) == undo_n(undo_step(m1), 0));
    } else {
        let rest = cmds.drop_first();
        lemma_undo_back(m1, rest);
        assert(m1.doc != m.doc);
        assert(push_dedup(m1.undo, m1.doc).drop_last() =~= m1.undo);
        lemma_undo_n_last(step_all(m1, rest), (cmds.len() - 1) as nat);
    }
}

/// Undo inverts edits: after a sequence of edits, each of which changes the
/// document, as many undos restore the lines, cursor and modified flag that
/// were there before.
pub proof fn law_undo_inverse(m: Model, cmds: Seq<Cmd>)
    requires
        model_ok(m),
        all_effective(m, cmds),
    ensures
        undo_n(step_all(m, cmds), cmds.len()).doc == m.doc,
{
    if cmds.len() > 0 {
        lemma_undo_back(m, cmds);
    }
}

/// Redo inverts undo: where there is something to undo, an undo followed by
/// a redo restores the document exactly.
pub proof fn law_redo_after_undo(m: Model)
    requires
        model_ok(m),
        m.undo.len() > 0,
    ensures
        step(step(m, Cmd::Undo), Cmd::Redo).doc == m.doc,
{
}

/// Deleting the only line leaves one empty line, never an empty document.
pub proof fn law_delete_last_line(m: Model)
    requires
        model_ok(m),
        m.doc.lines.len() == 1,
    ensures
        step(m, Cmd::DeleteLine).doc.lines == seq![Seq::<char>::empty()],
{
    if m.doc.lines[0].len() == 0 {
        assert(m.doc.lines[0] =~= Seq::<char>::empty());
        assert(m.doc.lines =~= seq![Seq::<char>::empty()]);
    }
}

/// Every edit that applies marks the buffer modified.
pub proof fn law_edit_marks_modified(m: Model, cmd: Cmd)
    requires
        edit(m.doc, cmd) is Some,
    ensures
        step(m, cmd).doc.modified,
{
}

proof fn lemma_trim_end(s: Seq<char>)
    ensures
        trim_end(s).len() <= s.len(),
        trim_end(s).len() == 0 || !is_space(trim_end(s).last()),
        trim_end(s) == s.subrange(0, trim_end(s).len() as int),
    decreases s.len(),
{
    if s.len() > 0 && is_space(s.last()) {
        lemma_trim_end(s.drop_last());
    } else {
        assert(s == s.subrange(0, s.len() as int));
    }
}

/// Saving leaves the buffer unmodified, every line without trailing white
/// space, and the document otherwise as it was.
pub proof fn law_save_clears_modified(m: Model)
    requires
        model_ok(m),
    ensures
        !saved(m).doc.modified,
        saved(m).doc.lines.len() == m.doc.lines.len(),
        forall|i: int|
            0 <= i < m.doc.lines.len() ==> {
                let t = #[trigger] saved(m).doc.lines[i];
                &&& t == m.doc.lines[i].subrange(0, t.len() as int)
                &&& (t.len() == 0 || !is_space(t.last()))
            },
        model_ok(saved(m)),
{
    let ls = trim_all(m.doc.lines);
    assert forall|i: int| 0 <= i < ls.len() implies (#[trigger] ls[i]).len() <= MAX_LINE_LEN by {
        lemma_trim_end(m.doc.lines[i]);
    }
    assert forall|i: int| 0 <= i < ls.len() implies no_break(#[trigger] ls[i]) by {
        lemma_trim_end(m.doc.lines[i]);
        let t = ls[i];
        assert(no_break(m.doc.lines[i]));
        assert forall|j: int| 0 <= j < t.len() implies t[j] != '\n' by {
            assert(t[j] == m.doc.lines[i][j]);
        }
    }
    assert forall|i: int| 0 <= i < m.doc.lines.len() implies {
        let t = #[trigger] saved(m).doc.lines[i];
        &&& t == m.doc.lines[i].subrange(0, t.len() as int)
        &&& (t.len() == 0 || !is_space(t.last()))
    } by {
        lemma_trim_end(m.doc.lines[i]);
    }
    lemma_clamp_ok(ls, m.doc.cursor);
    let r = saved(m);
    assert forall|i: int| 0 <= i < r.undo.len() implies snapshot_ok(#[trigger] r.undo[i]) by {
        assert(snapshot_ok(m.undo[i]));
    }
}

/// Inserting a line and toggling a comment keep the buffer consistent.
pub proof fn lemma_extra_edits_ok(m: Model, n: int)
    requires
        model_ok(m),
    ensures
        model_ok(apply_edit(m, insert_line_edit(m.doc, n))),
        model_ok(apply_edit(m, toggle_comment_edit(m.doc))),
{
    let d = m.doc;
    let k = d.cursor.line - 1;
    lemma_push_dedup_ok(m.undo, m.doc);
    if insert_line_edit(d, n) is Some {
        let ls = d.lines.insert(n, Seq::empty());
        assert forall|i: int| 0 <= i < ls.len() implies (#[trigger] ls[i]).len() <= MAX_LINE_LEN by {
            if i < n {
                assert(ls[i] == d.lines[i]);
            } else if i > n {
                assert(ls[i] == d.lines[i - 1]);
            }
        }
        assert forall|i: int| 0 <= i < ls.len() implies no_break(#[trigger] ls[i]) by {
            if i < n {
                assert(ls[i] == d.lines[i]);
            } else if i > n {
                assert(ls[i] == d.lines[i - 1]);
            }
        }
        lemma_clamp_ok(ls, d.cursor);
    }
    if toggle_comment_edit(d) is Some {
        let e = toggle_comment_edit(d)->0;
        assert(d.lines[k].len() <= MAX_LINE_LEN);
        assert forall|i: int| 0 <= i < e.0.len() implies (#[trigger] e.0[i]).len() <= MAX_LINE_LEN by {
            if i != k {
                assert(e.0[i] == d.lines[i]);
            }
        }
        lemma_clamp_ok(e.0, d.cursor);
    }
}

proof fn lemma_undo_n_empty(m: Model, n: nat)
    requires
        m.undo.len() == 0,
    ensures
        undo_n(m, n) == m,
    decreases n,
{
    if n > 0 {
        lemma_undo_n_empty(undo_step(m), (n - 1) as nat);
    }
}

/// Undoing at least as often as there are snapshots restores the bottom one.
proof fn lemma_undo_to_bottom(r: Model, n: nat)
    requires
        r.undo.len() > 0,
        n >= r.undo.len(),
    ensures
        undo_n(r, n).doc == r.undo[0],
    decreases n,
{
    let r1 = undo_step(r);
    if r.undo.len() == 1 {
        lemma_undo_n_empty(r1, (n - 1) as nat);
    } else {
        assert(r1.undo[0] == r.undo[0]);
        lemma_undo_to_bottom(r1, (n - 1) as nat);
    }
}

/// From a history whose bottom snapshot is `d0` (or that is empty with the
/// document at `d0`), edit commands push at most one snapshot each and keep
/// `d0` at the bottom.
proof fn lemma_history_bottom(d0: Snapshot, m: Model, cmds: Seq<Cmd>)
    requires
        forall|i: int| 0 <= i < cmds.len() ==> is_mutation(#[trigger] cmds[i]),
        m.undo.len() == 0 ==> m.doc == d0,
        m.undo.len() > 0 ==> m.undo[0] == d0,
    ensures
        step_all(m, cmds).undo.len() <= m.undo.len() + cmds.len(),
        step_all(m, cmds).undo.len() == 0 ==> step_all(m, cmds).doc == d0,
        step_all(m, cmds).undo.len() > 0 ==> step_all(m, cmds).undo[0] == d0,
    decreases cmds.len(),
{
    if cmds.len() > 0 {
        let c = cmds[0];
        let rest = cmds.drop_first();
        let m1 = step(m, c);
        assert(is_mutation(c));
        assert(step_all(m, cmds) == step_all(m1, rest));
        assert forall|i: int| 0 <= i < rest.len() implies is_mutation(#[trigger] rest[i]) by {
            assert(rest[i] == cmds[i + 1]);
        }
        if edit(m.doc, c) is Some {
            lemma_step_edit(m, c);
            if m.undo.len() > 0 {
                assert(m1.undo[0] == d0);
            }
        } else {
            assert(m1 == m);
        }
        lemma_history_bottom(d0, m1, rest);
    } else {
        assert(step_all(m, cmds) == m);
    }
}

/// Undo inverts edits from a buffer without history: after any sequence of
/// edit commands, as many undos restore the lines, cursor and modified flag
/// that were there before; commands that changed nothing left nothing to
/// undo, and the spare undos find an empty history.
pub proof fn law_undo_inverse_fresh(m: Model, cmds: Seq<Cmd>)
    requires
        m.undo.len() == 0,
        forall|i: int| 0 <= i < cmds.len() ==> is_mutation(#[trigger] cmds[i]),
    ensures
        undo_n(step_all(m, cmds), cmds.len()).doc == m.doc,
{
    lemma_history_bottom(m.doc, m, cmds);
    let r = step_all(m, cmds);
    if r.undo.len() == 0 {
        lemma_undo_n_empty(r, cmds.len());
    } else {
        lemma_undo_to_bottom(r, cmds.len());
    }
}

proof fn lemma_split_plain(s: Seq<char>)
    requires
        !s.contains('\n'),
    ensures
        split_text(s) == seq![s],
    decreases s.len(),
{
    if s.len() > 0 {
        assert(!s.drop_last().contains('\n')) by {
            if s.drop_last().contains('\n') {
                let i = choose|i: int| 0 <= i < s.drop_last().len() && s.drop_last()[i] == '\n';
                assert(s[i] == '\n');
            }
        }
        lemma_split_plain(s.drop_last());
        assert(s.last() != '\n') by {
            assert(s[s.len() - 1] == s.last());
        }
        assert(s.drop_last().push(s.last()) =~= s);
    } else {
        assert(s =~= Seq::<char>::empty());
    }
}

pub proof fn lemma_split_after_newline(x: Seq<char>, l: Seq<char>)
    requires
        !l.contains('\n'),
    ensures
        split_text(x + seq!['\n'] + l) == split_text(x).push(l),
    decreases l.len(),
{
    let t = x + seq!['\n'] + l;
    if l.len() == 0 {
        assert(t.drop_last() =~= x);
        assert(l =~= Seq::<char>::empty());
    } else {
        assert(t.drop_last() =~= x + seq!['\n'] + l.drop_last());
        assert(!l.drop_last().contains('\n')) by {
            if l.drop_last().contains('\n') {
                let i = choose|i: int| 0 <= i < l.drop_last().len() && l.drop_last()[i] == '\n';
                assert(l[i] == '\n');
            }
        }
        lemma_split_after_newline(x, l.drop_last());
        assert(t.last() == l.last());
        assert(l.last() != '\n') by {
            assert(l[l.len() - 1] == l.last());
        }
        assert(l.drop_last().push(l.last()) =~= l);
        assert(split_text(x).push(l.drop_last()).update(
            split_text(x).len() as int,
            l.drop_last().push(l.last()),
        ) =~= split_text(x).push(l));
    }
}

pub proof fn lemma_split_join(ls: Seq<Seq<char>>)
    requires
        ls.len() >= 1,
        forall|i: int| 0 <= i < ls.len() ==> !(#[trigger] ls[i]).contains('\n'),
    ensures
        split_text(join_lines(ls)) == ls,
    decreases ls.len(),
{
    if ls.len() == 1 {
        lemma_split_plain(ls[0]);
        assert(seq![ls[0]] =~= ls);
    } else {
        let front = ls.drop_last();
        assert forall|i: int| 0 <= i < front.len() implies !(#[trigger] front[i]).contains('\n') by {
            assert(front[i] == ls[i]);
        }
        lemma_split_join(front);
        assert(!ls.last().contains('\n')) by {
            assert(ls[ls.len() - 1] == ls.last());
        }
        lemma_split_after_newline(join_lines(front), ls.last());
        assert(front.push(ls.last()) =~= ls);
    }
}

/// Lines without line breaks, the last one not empty unless it is the only
/// one, come back unchanged from being joined into text and split again.
pub proof fn law_lines_round_trip(ls: Seq<Seq<char>>)
    requires
        ls.len() >= 1,
        forall|i: int| 0 <= i < ls.len() ==> !(#[trigger] ls[i]).contains('\n'),
        ls.len() == 1 || ls.last().len() > 0,
    ensures
        text_lines(join_lines(ls)) == ls,
{
    lemma_split_join(ls);
}

/// A line without line breaks does not contain one.
pub proof fn lemma_no_break_contains(s: Seq<char>)
    requires
        no_break(s),
    ensures
        !s.contains('\n'),
{
    if s.contains('\n') {
        let j = choose|j: int| 0 <= j < s.len() && s[j] == '\n';
        assert(s[j] != '\n');
    }
}

/// Saving then reading the file back gives the saved lines: the trimmed
/// lines, unless the last of several is empty, which the file format does
/// not keep.
pub proof fn law_save_reload(m: Model)
    requires
        model_ok(m),
        trim_all(m.doc.lines).len() == 1 || trim_all(m.doc.lines).last().len() > 0,
    ensures
        text_lines(join_lines(trim_all(m.doc.lines))) == saved(m).doc.lines,
{
    law_save_clears_modified(m);
    let t = trim_all(m.doc.lines);
    assert forall|i: int| 0 <= i < t.len() implies !(#[trigger] t[i]).contains('\n') by {
        lemma_no_break_contains(t[i]);
    }
    law_lines_round_trip(t);
}

} // verus!
