use xeorvi::editor::{
    delete_word_backward, filter_suggestions, InputEvent, Key, LineEditor, Modifiers,
};

fn press(key: Key, modifiers: Modifiers) -> InputEvent {
    InputEvent::Key { key, modifiers, press: true }
}

fn typed(e: &mut LineEditor, s: &str) {
    for c in s.chars() {
        e.apply(press(Key::Char(c), Modifiers::Plain));
    }
}

fn names(v: &[&str]) -> Vec<String> {
    v.iter().map(|s| s.to_string()).collect()
}

#[test]
fn tab_takes_the_first_match_in_list_order() {
    let index = names(&["echo", "ecn"]);
    let mut e = LineEditor::new(80, 24);
    typed(&mut e, "ec");
    let shown = e.refresh(&index);
    assert_eq!(shown, names(&["echo", "ecn"]));
    e.apply(press(Key::Tab, Modifiers::Plain));
    assert_eq!(e.buffer, "echo ");
}

#[test]
fn tab_without_a_match_changes_nothing() {
    let index = names(&["echo"]);
    let mut e = LineEditor::new(80, 24);
    typed(&mut e, "zz");
    assert!(e.refresh(&index).is_empty());
    e.apply(press(Key::Tab, Modifiers::Plain));
    assert_eq!(e.buffer, "zz");
}

#[test]
fn ctrl_backspace_takes_the_word_and_one_space() {
    let mut b = "cd  foo".to_string();
    delete_word_backward(&mut b);
    assert_eq!(b, "cd ");
}

#[test]
fn ctrl_backspace_keeps_a_symbol_boundary() {
    let mut b = "path/to".to_string();
    delete_word_backward(&mut b);
    assert_eq!(b, "path/");
    let mut b = "path/".to_string();
    delete_word_backward(&mut b);
    assert_eq!(b, "");
    let mut b = "a.b".to_string();
    delete_word_backward(&mut b);
    assert_eq!(b, "a.");
}

#[test]
fn ctrl_backspace_skips_trailing_white_space() {
    let mut b = "ls foo   ".to_string();
    delete_word_backward(&mut b);
    assert_eq!(b, "ls");
    let mut b = "   ".to_string();
    delete_word_backward(&mut b);
    assert_eq!(b, "");
}

#[test]
fn keys_edit_and_submit() {
    let mut e = LineEditor::new(80, 24);
    typed(&mut e, "lz");
    e.apply(press(Key::Backspace, Modifiers::Plain));
    e.apply(press(Key::Char('S'), Modifiers::Shift));
    e.apply(InputEvent::Key { key: Key::Char('x'), modifiers: Modifiers::Plain, press: false });
    e.apply(press(Key::Char('y'), Modifiers::Other));
    e.apply(press(Key::Char('z'), Modifiers::Control));
    e.apply(InputEvent::Paste);
    assert_eq!(e.buffer, "lS");
    assert!(!e.submitted);
    e.apply(press(Key::Enter, Modifiers::Plain));
    assert!(e.submitted);
    assert_eq!(e.buffer, "lS");
}

#[test]
fn ctrl_backspace_through_the_editor() {
    let mut e = LineEditor::new(80, 24);
    typed(&mut e, "git commit");
    e.apply(press(Key::Backspace, Modifiers::Control));
    assert_eq!(e.buffer, "git");
}

#[test]
fn resize_updates_the_size_only() {
    let mut e = LineEditor::new(80, 24);
    typed(&mut e, "ab");
    e.apply(InputEvent::Resize { cols: 120, rows: 40 });
    assert_eq!((e.cols, e.rows), (120, 40));
    assert_eq!(e.buffer, "ab");
}

#[test]
fn backspace_on_empty_buffer() {
    let mut e = LineEditor::new(80, 24);
    e.apply(press(Key::Backspace, Modifiers::Plain));
    assert_eq!(e.buffer, "");
}

#[test]
fn filter_keeps_index_order() {
    let index = names(&["zip", "ls", "lsblk", "less"]);
    assert_eq!(filter_suggestions(&index, "ls"), names(&["ls", "lsblk"]));
    assert_eq!(filter_suggestions(&index, ""), index);
}
