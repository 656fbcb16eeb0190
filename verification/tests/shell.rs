use agnostos::keyboard::KeyboardEvent;
use agnostos::mouse::{MouseDelta, MouseEvent};
use agnostos::graphics::text::FontSize;
use agnostos::shell::{
    dropped_lines, key_edit, next_pointer_position, next_row, report_due, zoom_step, CommandHistory, LineEdit,
};

fn movement(dx: i16, dy: i16) -> MouseEvent {
    MouseEvent { dx: MouseDelta::new(dx), dy: MouseDelta::new(dy), left: false, right: false, middle: false }
}

#[test]
fn the_pointer_stays_on_screen() {
    assert_eq!(next_pointer_position(0, 0, movement(5, 7), 640, 480), (5, 7));
    assert_eq!(next_pointer_position(3, 3, movement(-10, -1), 640, 480), (0, 2));
    assert_eq!(next_pointer_position(610, 455, movement(100, 100), 640, 480), (620, 460));
    assert_eq!(next_pointer_position(0, 0, movement(1, 1), 20, 20), (0, 0));
}

#[test]
fn enter_cancel_and_reset_end_the_line() {
    let mut history = CommandHistory::new();
    let mut line = String::from("echo hi");
    assert_eq!(key_edit(&mut line, &mut history, KeyboardEvent::Char('\n')), (LineEdit::Submit, Some("echo hi".to_string())));
    assert!(line.is_empty());
    let mut line = String::from("abc");
    assert_eq!(key_edit(&mut line, &mut history, KeyboardEvent::CtrlC), (LineEdit::Cancel, Some("abc".to_string())));
    assert!(line.is_empty());
    let mut line = String::from("x");
    assert_eq!(key_edit(&mut line, &mut history, KeyboardEvent::CtrlL).0, LineEdit::Reset);
    assert!(line.is_empty());
}

#[test]
fn typing_backspace_and_completion_edit_the_line() {
    let mut history = CommandHistory::new();
    let mut line = String::from("ab");
    assert_eq!(key_edit(&mut line, &mut history, KeyboardEvent::Char('\u{8}')), (LineEdit::Backspace, None));
    assert_eq!(line, "a");
    assert_eq!(key_edit(&mut line, &mut history, KeyboardEvent::Char('z')), (LineEdit::Insert('z'), None));
    assert_eq!(line, "az");
    assert_eq!(key_edit(&mut line, &mut history, KeyboardEvent::Tab).0, LineEdit::Complete);
    assert_eq!(line, "az");
    assert_eq!(key_edit(&mut line, &mut history, KeyboardEvent::ArrowUp).0, LineEdit::HistoryUp);
    assert_eq!(key_edit(&mut line, &mut history, KeyboardEvent::ArrowDown).0, LineEdit::HistoryDown);
    assert_eq!(key_edit(&mut line, &mut history, KeyboardEvent::ArrowLeft).0, LineEdit::CursorLeft);
    assert_eq!(key_edit(&mut line, &mut history, KeyboardEvent::ArrowRight).0, LineEdit::CursorRight);
    assert_eq!(key_edit(&mut line, &mut history, KeyboardEvent::ZoomIn).0, LineEdit::ZoomIn);
    assert_eq!(key_edit(&mut line, &mut history, KeyboardEvent::ZoomOut).0, LineEdit::ZoomOut);
    assert_eq!(line, "az");
    let mut empty = String::new();
    assert_eq!(key_edit(&mut empty, &mut history, KeyboardEvent::Char('\u{8}')), (LineEdit::Backspace, None));
    assert!(empty.is_empty());
    let mut partial = String::from("hel");
    key_edit(&mut partial, &mut history, KeyboardEvent::Tab);
    assert_eq!(partial, "help");
}

#[test]
fn enter_runs_the_characters_typed() {
    let mut history = CommandHistory::new();
    let mut line = String::new();
    for c in "echo hi".chars() {
        key_edit(&mut line, &mut history, KeyboardEvent::Char(c));
    }
    key_edit(&mut line, &mut history, KeyboardEvent::Char('x'));
    key_edit(&mut line, &mut history, KeyboardEvent::Char('\u{8}'));
    assert_eq!(key_edit(&mut line, &mut history, KeyboardEvent::Char('\n')), (LineEdit::Submit, Some("echo hi".to_string())));
    assert!(line.is_empty());
}

#[test]
fn dropped_input_is_reported_every_hundred_ticks() {
    assert!(report_due(0));
    assert!(report_due(300));
    assert!(!report_due(301));
    assert!(dropped_lines(0, 0).is_empty());
    assert_eq!(dropped_lines(3, 0), ["Dropped 3 keyboard inputs"]);
    assert_eq!(dropped_lines(0, 12), ["Dropped 12 mouse inputs"]);
    assert_eq!(dropped_lines(1, 2), ["Dropped 1 keyboard inputs", "Dropped 2 mouse inputs"]);
}

#[test]
fn the_console_zooms_one_size_at_a_time_and_scrolls_at_the_bottom() {
    assert_eq!(zoom_step(FontSize::Size16, true), FontSize::Size20);
    assert_eq!(zoom_step(FontSize::Size32, true), FontSize::Size32);
    assert_eq!(zoom_step(FontSize::Size24, false), FontSize::Size20);
    assert_eq!(zoom_step(FontSize::Size16, false), FontSize::Size16);
    assert_eq!(next_row(0, 16, 480), (1, false));
    assert_eq!(next_row(28, 16, 480), (29, false));
    assert_eq!(next_row(29, 16, 480), (29, true));
    assert_eq!(next_row(usize::MAX, 16, 480), (usize::MAX, true));
}

#[test]
fn arrow_keys_recall_submitted_lines() {
    let mut history = CommandHistory::new();
    let mut line = String::new();
    for text in ["help", "", "uptime"] {
        line = String::from(text);
        key_edit(&mut line, &mut history, KeyboardEvent::Char('\n'));
    }
    line = String::from("ec");
    assert_eq!(key_edit(&mut line, &mut history, KeyboardEvent::ArrowUp), (LineEdit::HistoryUp, None));
    assert_eq!(line, "uptime");
    key_edit(&mut line, &mut history, KeyboardEvent::ArrowUp);
    assert_eq!(line, "help");
    key_edit(&mut line, &mut history, KeyboardEvent::ArrowUp);
    assert_eq!(line, "help");
    key_edit(&mut line, &mut history, KeyboardEvent::ArrowDown);
    assert_eq!(line, "uptime");
    key_edit(&mut line, &mut history, KeyboardEvent::ArrowDown);
    assert_eq!(line, "");
    key_edit(&mut line, &mut history, KeyboardEvent::ArrowDown);
    assert_eq!(line, "");
    key_edit(&mut line, &mut history, KeyboardEvent::ArrowUp);
    key_edit(&mut line, &mut history, KeyboardEvent::CtrlC);
    key_edit(&mut line, &mut history, KeyboardEvent::ArrowUp);
    assert_eq!(line, "uptime");
}
