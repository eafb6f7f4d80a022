use space55::{Command, Cursor, Effect, Event, Key, Mode, TextEditor};

fn lines(ed: &TextEditor) -> Vec<String> {
    (1..=ed.line_count() as i32).map(|n| ed.get_line(n).unwrap()).collect()
}

fn at(line: i32, col: i32) -> Cursor {
    Cursor::new(line, col)
}

#[test]
fn undo_restores_state_before_edits() {
    let mut ed = TextEditor::new("hello\nworld\n");
    ed.move_to(at(1, 3));
    let before = (lines(&ed), ed.cursor(), ed.modified());
    let cmds = vec![
        Command::InsertChar('x'),
        Command::BreakLine,
        Command::InsertString(String::from("abc")),
        Command::DeleteChar,
        Command::DeleteWord,
        Command::DeleteLine,
    ];
    let n = cmds.len();
    for c in cmds {
        ed.exec(c);
    }
    assert!(ed.modified());
    assert_ne!(lines(&ed), before.0);
    for _ in 0..n {
        ed.exec(Command::Undo);
    }
    assert_eq!((lines(&ed), ed.cursor(), ed.modified()), before);
}

#[test]
fn redo_after_undo_restores_state() {
    let mut ed = TextEditor::new("abc");
    ed.move_line_end();
    ed.insert_char('d');
    ed.break_line();
    ed.insert_str("ef");
    let after = (lines(&ed), ed.cursor(), ed.modified());
    ed.undo();
    assert_eq!(lines(&ed), vec!["abcd", ""]);
    ed.redo();
    assert_eq!((lines(&ed), ed.cursor(), ed.modified()), after);
}

#[test]
fn undo_with_empty_history_changes_nothing() {
    let mut ed = TextEditor::new("abc");
    ed.undo();
    assert_eq!(lines(&ed), vec!["abc"]);
    assert_eq!(ed.cursor(), at(1, 1));
    assert!(!ed.modified());
}

#[test]
fn new_edit_clears_redo() {
    let mut ed = TextEditor::new("abc");
    ed.insert_char('x');
    ed.undo();
    ed.insert_char('y');
    ed.redo();
    assert_eq!(lines(&ed), vec!["yabc"]);
}

#[test]
fn cursor_is_clamped_onto_the_document() {
    let mut ed = TextEditor::new("ab\ncdef");
    ed.move_to(at(100, 100));
    assert_eq!(ed.cursor(), at(2, 5));
    ed.move_to(at(-5, -5));
    assert_eq!(ed.cursor(), at(1, 1));
    ed.move_to(at(2, 5));
    ed.move_up();
    assert_eq!(ed.cursor(), at(1, 3));
    ed.move_to(at(2, 5));
    ed.delete_line();
    assert_eq!(ed.cursor(), at(1, 3));
    assert_eq!(ed.clamp_cursor(at(0, 9)), at(1, 3));
}

#[test]
fn deleting_the_last_line_leaves_one_empty_line() {
    let mut ed = TextEditor::new("only");
    ed.delete_line();
    assert_eq!(ed.line_count(), 1);
    assert_eq!(lines(&ed), vec![""]);
    assert_eq!(ed.cursor(), at(1, 1));
    ed.delete_line();
    assert_eq!(lines(&ed), vec![""]);
}

#[test]
fn deleting_a_lone_empty_line_is_an_edit() {
    let mut ed = TextEditor::new("");
    ed.delete_line();
    assert_eq!(lines(&ed), vec![""]);
    assert!(ed.modified());
    ed.undo();
    assert!(!ed.modified());
}

#[test]
fn open_accepts_text_within_limits() {
    let ed = TextEditor::open("a\nb\n").unwrap();
    assert_eq!(lines(&ed), vec!["a", "b"]);
    assert_eq!(ed.rendered().len(), 2);
}

#[test]
fn auto_pair_and_backspace() {
    let mut ed = TextEditor::new("");
    assert_eq!(ed.handle_event(Event::Press(Key::Enter), false, None), Effect::Nothing);
    assert_eq!(ed.mode(), Mode::Insert);
    ed.handle_event(Event::Char('('), false, None);
    assert_eq!(lines(&ed), vec!["()"]);
    assert_eq!(ed.cursor(), at(1, 2));
    ed.handle_event(Event::Repeat(Key::Backspace), false, None);
    assert_eq!(lines(&ed), vec![""]);
    assert_eq!(ed.cursor(), at(1, 1));
}

#[test]
fn quotes_pair_too() {
    let mut ed = TextEditor::new("x");
    ed.set_mode(Mode::Insert);
    ed.move_line_end();
    ed.handle_event(Event::Char('"'), false, None);
    assert_eq!(lines(&ed), vec!["x\"\""]);
    assert_eq!(ed.cursor(), at(1, 3));
    ed.handle_event(Event::Char('a'), false, None);
    assert_eq!(lines(&ed), vec!["x\"a\""]);
}

#[test]
fn word_navigation_stops_on_break_characters() {
    let mut ed = TextEditor::new("foo.bar_baz qux");
    assert_eq!(ed.next_word(), Some(at(1, 4)));
    ed.move_next_word();
    assert_eq!(ed.cursor(), at(1, 4));
    // '_' is a break character, so the next stop is on it
    assert_eq!(ed.next_word(), Some(at(1, 8)));
    ed.move_to(at(1, 13));
    assert_eq!(ed.next_word(), Some(at(1, 16)));
    ed.move_to(at(1, 16));
    assert_eq!(ed.next_word(), None);
}

#[test]
fn previous_word_lands_after_a_break() {
    let mut ed = TextEditor::new("foo bar baz");
    ed.move_line_end();
    assert_eq!(ed.prev_word(), at(1, 9));
    ed.move_to(at(1, 9));
    assert_eq!(ed.prev_word(), at(1, 5));
    ed.move_to(at(1, 1));
    assert_eq!(ed.prev_word(), at(1, 1));
}

#[test]
fn search_forward_skips_the_cursor_match() {
    let mut ed = TextEditor::new("abc\nxyz abc\nabc");
    ed.handle_event(Event::Char('?'), false, None);
    assert_eq!(ed.mode(), Mode::CommandLine);
    for c in "abc".chars() {
        ed.handle_event(Event::Char(c), false, None);
    }
    ed.handle_event(Event::Press(Key::Enter), false, None);
    assert_eq!(ed.mode(), Mode::Normal);
    assert_eq!(ed.search_forward(), Some(at(2, 5)));
    ed.handle_event(Event::Repeat(Key::Quote), true, None);
    assert_eq!(ed.cursor(), at(2, 5));
    ed.handle_event(Event::Repeat(Key::Quote), true, None);
    assert_eq!(ed.cursor(), at(3, 1));
    assert_eq!(ed.search_forward(), None);
}

#[test]
fn search_backward_takes_the_nearest_earlier_match() {
    let mut ed = TextEditor::new("abc abc\nx\nabc");
    ed.open_cmdline();
    ed.cmdline_insert('a');
    ed.cmdline_insert('b');
    ed.confirm_cmdline();
    ed.move_to(at(3, 1));
    assert_eq!(ed.search_backward(), Some(at(1, 5)));
    ed.move_to(at(1, 8));
    assert_eq!(ed.search_backward(), Some(at(1, 5)));
    ed.move_to(at(1, 6));
    assert_eq!(ed.search_backward(), Some(at(1, 5)));
    ed.move_to(at(1, 5));
    assert_eq!(ed.search_backward(), Some(at(1, 1)));
    ed.move_to(at(1, 1));
    assert_eq!(ed.search_backward(), None);
}

#[test]
fn invalid_pattern_installs_no_search() {
    let mut ed = TextEditor::new("a(b");
    ed.open_cmdline();
    ed.cmdline_insert('(');
    ed.confirm_cmdline();
    assert_eq!(ed.search_forward(), None);
    assert_eq!(ed.mode(), Mode::Normal);
}

#[test]
fn save_trims_and_clears_modified() {
    let mut ed = TextEditor::new("ab  \ncd\t\n");
    assert!(!ed.modified());
    ed.insert_char('x');
    assert!(ed.modified());
    assert!(!ed.closable());
    assert_eq!(ed.save_text(), "xab\ncd");
    ed.mark_saved();
    assert!(!ed.modified());
    assert!(ed.closable());
    assert_eq!(ed.content(), "xab\ncd");
    ed.undo();
    assert!(ed.modified());
}

#[test]
fn save_key_asks_for_a_write() {
    let mut ed = TextEditor::new("a");
    assert_eq!(ed.handle_event(Event::Press(Key::W), false, None), Effect::Save);
}

#[test]
fn macro_replays_at_the_new_position() {
    let mut ed = TextEditor::new("hello\nworld");
    ed.handle_event(Event::Press(Key::Backslash), false, None);
    assert!(ed.recording());
    ed.exec(Command::InsertChar('a'));
    ed.exec(Command::InsertChar('b'));
    ed.handle_event(Event::Press(Key::Backslash), false, None);
    assert!(!ed.recording());
    assert_eq!(ed.record_len(), 2);
    ed.move_to(at(2, 3));
    ed.handle_event(Event::Press(Key::Period), true, None);
    assert_eq!(lines(&ed), vec!["abhello", "woabrld"]);
    assert_eq!(ed.cursor(), at(2, 5));
}

#[test]
fn enter_between_brackets_indents() {
    let mut ed = TextEditor::new("\tfoo()");
    ed.set_mode(Mode::Insert);
    ed.move_to(at(1, 6));
    ed.handle_event(Event::Repeat(Key::Enter), false, None);
    assert_eq!(lines(&ed), vec!["\tfoo(", "\t\t", "\t)"]);
    assert_eq!(ed.cursor(), at(2, 3));
}

#[test]
fn enter_keeps_the_indent() {
    let mut ed = TextEditor::new("\t\tx = 1;");
    ed.set_mode(Mode::Insert);
    ed.move_line_end();
    ed.handle_event(Event::Repeat(Key::Enter), false, None);
    assert_eq!(lines(&ed), vec!["\t\tx = 1;", "\t\t"]);
    assert_eq!(ed.cursor(), at(2, 3));
}

#[test]
fn backspace_at_line_start_joins_lines() {
    let mut ed = TextEditor::new("ab\ncd");
    ed.move_to(at(2, 1));
    ed.delete_char();
    assert_eq!(lines(&ed), vec!["abcd"]);
    assert_eq!(ed.cursor(), at(1, 3));
    ed.move_to(at(1, 1));
    ed.delete_char();
    assert_eq!(lines(&ed), vec!["abcd"]);
}

#[test]
fn delete_word_removes_back_to_a_break() {
    let mut ed = TextEditor::new("foo bar");
    ed.move_line_end();
    ed.delete_word();
    assert_eq!(lines(&ed), vec!["foo "]);
    assert_eq!(ed.cursor(), at(1, 5));
    ed.delete_word();
    assert_eq!(lines(&ed), vec![""]);
    assert_eq!(ed.cursor(), at(1, 1));
}

#[test]
fn delete_word_at_line_start_joins_lines() {
    let mut ed = TextEditor::new("ab\ncd");
    ed.move_to(at(2, 1));
    ed.handle_event(Event::Press(Key::Enter), false, None);
    ed.handle_event(Event::Repeat(Key::Backspace), true, None);
    assert_eq!(lines(&ed), vec!["abcd"]);
    assert_eq!(ed.cursor(), at(1, 3));
}

#[test]
fn line_start_skips_indentation() {
    let mut ed = TextEditor::new("  \tab\n   ");
    ed.move_line_end();
    ed.move_line_start();
    assert_eq!(ed.cursor(), at(1, 4));
    ed.move_to(at(2, 1));
    ed.move_line_start();
    assert_eq!(ed.cursor(), at(2, 4));
}

#[test]
fn loading_splits_on_newlines() {
    assert_eq!(lines(&TextEditor::new("")), vec![""]);
    assert_eq!(lines(&TextEditor::new("a\n")), vec!["a"]);
    assert_eq!(lines(&TextEditor::new("a\n\n")), vec!["a", ""]);
    assert_eq!(lines(&TextEditor::new("a\nb")), vec!["a", "b"]);
    assert_eq!(TextEditor::new("a\nb\n").content(), "a\nb");
    assert_eq!(TextEditor::new("x").get_line(2), None);
    assert_eq!(TextEditor::new("x").get_line(0), None);
}

#[test]
fn line_breaks_are_not_inserted_as_characters() {
    let mut ed = TextEditor::new("ab");
    ed.insert_char('\n');
    ed.insert_str("x\ny");
    ed.insert_str("");
    assert_eq!(lines(&ed), vec!["ab"]);
    assert!(!ed.modified());
}

#[test]
fn non_ascii_characters_are_inserted() {
    let mut ed = TextEditor::new("ab");
    ed.move_to(at(1, 2));
    ed.insert_char('é');
    assert_eq!(lines(&ed), vec!["aéb"]);
    assert_eq!(ed.cursor(), at(1, 3));
    assert_eq!(ed.char_at(at(1, 2)), Some('é'));
    assert_eq!(ed.cur_char(), Some('b'));
}

#[test]
fn toggle_comment_adds_and_removes_marker() {
    let mut ed = TextEditor::new("let x;");
    ed.handle_event(Event::Char('/'), false, None);
    assert_eq!(lines(&ed), vec!["// let x;"]);
    ed.move_line_end();
    ed.handle_event(Event::Char('/'), false, None);
    assert_eq!(lines(&ed), vec!["let x;"]);
    assert_eq!(ed.cursor(), at(1, 7));
}

#[test]
fn alt_enter_opens_a_line_below() {
    let mut ed = TextEditor::new("a\nb");
    ed.handle_event(Event::Press(Key::Enter), true, None);
    assert_eq!(lines(&ed), vec!["a", "", "b"]);
    assert_eq!(ed.cursor(), at(1, 1));
    assert_eq!(ed.mode(), Mode::Normal);
}

#[test]
fn normal_mode_keys_move_and_edit() {
    let mut ed = TextEditor::new("one two\nthree");
    ed.handle_event(Event::Repeat(Key::J), false, None);
    assert_eq!(ed.cursor(), at(2, 1));
    ed.handle_event(Event::Repeat(Key::K), false, None);
    ed.handle_event(Event::Repeat(Key::L), true, None);
    assert_eq!(ed.cursor(), at(1, 4));
    ed.handle_event(Event::Repeat(Key::L), false, None);
    ed.handle_event(Event::Repeat(Key::H), false, None);
    assert_eq!(ed.cursor(), at(1, 4));
    ed.handle_event(Event::Repeat(Key::D), false, None);
    assert_eq!(lines(&ed), vec!["three"]);
    ed.handle_event(Event::Repeat(Key::U), false, None);
    assert_eq!(lines(&ed), vec!["one two", "three"]);
    ed.handle_event(Event::Repeat(Key::O), false, None);
    assert_eq!(lines(&ed), vec!["three"]);
}

#[test]
fn line_start_and_end_keys_enter_insert_mode() {
    let mut ed = TextEditor::new("  ab");
    ed.handle_event(Event::Char('>'), false, None);
    assert_eq!(ed.cursor(), at(1, 5));
    assert!(ed.busy());
    ed.handle_event(Event::Press(Key::Escape), false, None);
    assert!(!ed.busy());
    ed.handle_event(Event::Char('<'), false, None);
    assert_eq!(ed.cursor(), at(1, 3));
    assert_eq!(ed.mode(), Mode::Insert);
}

#[test]
fn scrolling_moves_by_lines() {
    let mut ed = TextEditor::new("a\nb\nc\nd");
    ed.handle_event(Event::Scroll(2), false, None);
    assert_eq!(ed.cursor(), at(3, 1));
    ed.handle_event(Event::Scroll(-5), false, None);
    assert_eq!(ed.cursor(), at(1, 1));
    ed.set_mode(Mode::Insert);
    ed.handle_event(Event::Scroll(2), false, None);
    assert_eq!(ed.cursor(), at(1, 1));
}

#[test]
fn command_line_editing() {
    let mut ed = TextEditor::new("x");
    ed.handle_event(Event::Char('?'), false, None);
    for c in "ab.cd".chars() {
        ed.handle_event(Event::Char(c), false, None);
    }
    assert_eq!(ed.cmdline_text(), "ab.cd");
    ed.handle_event(Event::Repeat(Key::Left), false, None);
    ed.handle_event(Event::Repeat(Key::Backspace), false, None);
    assert_eq!(ed.cmdline_text(), "ab.d");
    ed.handle_event(Event::Repeat(Key::Right), false, None);
    ed.handle_event(Event::Repeat(Key::Backspace), true, None);
    assert_eq!(ed.cmdline_text(), "ab.");
    ed.handle_event(Event::Press(Key::Escape), false, None);
    assert_eq!(ed.mode(), Mode::Normal);
}

#[test]
fn select_mode_is_inert() {
    let mut ed = TextEditor::new("abc");
    ed.set_mode(Mode::Select);
    ed.handle_event(Event::Char('x'), false, None);
    ed.handle_event(Event::Repeat(Key::Backspace), false, None);
    ed.handle_event(Event::Press(Key::Escape), false, None);
    assert_eq!(lines(&ed), vec!["abc"]);
    assert_eq!(ed.mode(), Mode::Select);
}

#[test]
fn tab_key_inserts_a_tab() {
    let mut ed = TextEditor::new("a");
    ed.set_mode(Mode::Insert);
    ed.handle_event(Event::Repeat(Key::Tab), false, None);
    assert_eq!(lines(&ed), vec!["\ta"]);
}

#[test]
fn spare_undos_find_an_empty_history() {
    let mut ed = TextEditor::new("ab\ncd");
    let before = (lines(&ed), ed.cursor(), ed.modified());
    let cmds = vec![
        Command::DeleteChar,
        Command::InsertChar('z'),
        Command::InsertString(String::new()),
        Command::DeleteWord,
    ];
    let n = cmds.len();
    for c in cmds {
        ed.exec(c);
    }
    assert_eq!(lines(&ed), vec!["ab", "cd"]);
    assert!(ed.modified());
    for _ in 0..n {
        ed.undo();
    }
    assert_eq!((lines(&ed), ed.cursor(), ed.modified()), before);
}

#[test]
fn content_reloads_to_the_same_lines() {
    let ed = TextEditor::new("fn f() {\n\tg();\n}\n");
    let again = TextEditor::new(&ed.content());
    assert_eq!(lines(&again), lines(&ed));
    assert_eq!(lines(&again), vec!["fn f() {", "\tg();", "}"]);
}

#[test]
fn cursor_label_is_line_and_column() {
    assert_eq!(Cursor::new(12, 3).label(), "12:3");
    assert_eq!(Cursor::new(-1, 0).label(), "-1:0");
    assert_eq!(Cursor::new(2147483647, -2147483648).label(), "2147483647:-2147483648");
}

#[test]
fn inserting_a_line_above_keeps_the_cursor_on_the_document() {
    let mut ed = TextEditor::new("a\nhello");
    ed.move_to(at(2, 6));
    ed.insert_line_at(0);
    assert_eq!(lines(&ed), vec!["", "a", "hello"]);
    assert_eq!(ed.cursor(), at(2, 2));
    assert!(ed.modified());
    ed.insert_line_at(9);
    assert_eq!(ed.line_count(), 3);
}
