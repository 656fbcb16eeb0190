//! The shell's decisions: where a mouse movement puts the pointer, what a
//! key does to the line being edited, and when dropped input is reported.
//! The console and the input loop around them carry these out.

use vstd::prelude::*;

use crate::commands::parser::{complete_command, completion, strings_view};
use crate::graphics::text::{font_pixel_height, FontSize};
use crate::keyboard::KeyboardEvent;
use crate::mouse::MouseEvent;
use crate::text::{decimal, pop_char, push_char, push_decimal, push_text, string_of};

verus! {

/// The prompt printed before each line.
pub const PROMPT: &'static str = "> ";

/// The pointer's bounding box: the pointer stays this far from the right
/// and bottom edges.
pub const CURSOR_W: usize = 20;
pub const CURSOR_H: usize = 20;

/// Timer ticks between reports of dropped input.
pub const DROPPED_REPORT_PERIOD: u64 = 100;

/// `v` limited to `[low, high]`.
pub open spec fn clamp(v: int, low: int, high: int) -> int {
    if v < low {
        low
    } else if v > high {
        high
    } else {
        v
    }
}

/// The pointer position after `event`, starting from (`x`, `y`), kept
/// inside a `width` by `height` screen less the pointer's bounding box.
/// The screen sizes are read as `i32`, as the console stores them.
pub fn next_pointer_position(x: i32, y: i32, event: MouseEvent, width: usize, height: usize) -> (position: (i32, i32))
    requires
        (width as i32) >= CURSOR_W,
        (height as i32) >= CURSOR_H,
        i32::MIN <= x + event.dx@ <= i32::MAX,
        i32::MIN <= y + event.dy@ <= i32::MAX,
    ensures
        position.0 == clamp(x + event.dx@, 0, (width as i32) - CURSOR_W),
        position.1 == clamp(y + event.dy@, 0, (height as i32) - CURSOR_H),
        0 <= position.0 <= (width as i32) - CURSOR_W,
        0 <= position.1 <= (height as i32) - CURSOR_H,
{
    let right = width as i32 - CURSOR_W as i32;
    let bottom = height as i32 - CURSOR_H as i32;
    let nx = x + event.dx.get() as i32;
    let ny = y + event.dy.get() as i32;
    let px = if nx < 0 {
        0
    } else if nx > right {
        right
    } else {
        nx
    };
    let py = if ny < 0 {
        0
    } else if ny > bottom {
        bottom
    } else {
        ny
    };
    (px, py)
}

/// What the console does for one key.
#[derive(Clone, Copy, Debug, PartialEq, Eq, Structural)]
pub enum LineEdit {
    /// End the line, run it, and prompt again.
    Submit,
    /// Delete the character before the cursor.
    Backspace,
    /// Insert a character at the cursor.
    Insert(char),
    /// Abandon the line: print `^C` and prompt again.
    Cancel,
    ZoomIn,
    ZoomOut,
    CursorLeft,
    CursorRight,
    HistoryUp,
    HistoryDown,
    /// Clear the screen, abandon the line and prompt again.
    Reset,
    /// Complete the command name being typed.
    Complete,
}

/// The edit a key makes.
pub open spec fn edit_for(event: KeyboardEvent) -> LineEdit {
    match event {
        KeyboardEvent::Char(c) => if c == '\n' {
            LineEdit::Submit
        } else if c == '\u{8}' {
            LineEdit::Backspace
        } else {
            LineEdit::Insert(c)
        },
        KeyboardEvent::CtrlC => LineEdit::Cancel,
        KeyboardEvent::ZoomIn => LineEdit::ZoomIn,
        KeyboardEvent::ZoomOut => LineEdit::ZoomOut,
        KeyboardEvent::ArrowRight => LineEdit::CursorRight,
        KeyboardEvent::ArrowLeft => LineEdit::CursorLeft,
        KeyboardEvent::ArrowUp => LineEdit::HistoryUp,
        KeyboardEvent::ArrowDown => LineEdit::HistoryDown,
        KeyboardEvent::CtrlL => LineEdit::Reset,
        KeyboardEvent::Tab => LineEdit::Complete,
    }
}

/// Whether an edit ends the current line, leaving an empty one.
pub open spec fn ends_line(edit: LineEdit) -> bool {
    edit == LineEdit::Submit || edit == LineEdit::Cancel || edit == LineEdit::Reset
}

/// `line` after an edit that keeps the line going: a character is added at
/// the end, backspace removes the last one (if any), completion replaces a
/// command name being typed by the one command it starts, and every other
/// edit leaves the line alone.
pub open spec fn edited_line(line: Seq<char>, edit: LineEdit) -> Seq<char> {
    match edit {
        LineEdit::Insert(c) => line.push(c),
        LineEdit::Backspace => if line.len() > 0 { line.drop_last() } else { line },
        LineEdit::Complete => match completion(line) {
            Some(name) => name,
            None => line,
        },
        _ => line,
    }
}

/// The command lines entered so far, oldest first, and the one the arrow
/// keys have recalled (the number of entries when none is).
pub struct CommandHistory {
    entries: Vec<String>,
    position: usize,
}

impl CommandHistory {
    /// Whether the recalled position lies within the entries (or just
    /// past the newest).
    pub closed spec fn wf(&self) -> bool {
        self.position <= self.entries.len()
    }

    /// The lines entered, oldest first.
    pub closed spec fn entries(&self) -> Seq<Seq<char>> {
        strings_view(self.entries@)
    }

    /// The entry recalled, or the number of entries when none is.
    pub closed spec fn position(&self) -> int {
        self.position as int
    }

    /// A history with no entries.
    pub fn new() -> (history: CommandHistory)
        ensures
            history.entries() == Seq::<Seq<char>>::empty(),
            history.position() == 0,
            history.wf(),
    {
        let history = CommandHistory { entries: Vec::new(), position: 0 };
        assert(history.entries() =~= Seq::<Seq<char>>::empty());
        history
    }

    /// Leaves recall: the next recall starts from the newest entry.
    fn rewind(&mut self)
        ensures
            final(self).wf(),
            final(self).entries() == old(self).entries(),
            final(self).position() == final(self).entries().len(),
    {
        self.position = self.entries.len();
    }
}

/// The position and line after an arrow key moves through the history:
/// up recalls the entry before the recalled one (staying at the oldest),
/// down the entry after it, or an empty line past the newest.  Any other
/// key that keeps the line going leaves the position and edits the line as
/// [`edited_line`] says.
pub open spec fn recalled(entries: Seq<Seq<char>>, position: int, line: Seq<char>, edit: LineEdit) -> (int, Seq<char>) {
    match edit {
        LineEdit::HistoryUp => if position > 0 {
            (position - 1, entries[position - 1])
        } else {
            (position, line)
        },
        LineEdit::HistoryDown => if position < entries.len() {
            (position + 1, if position + 1 == entries.len() { Seq::<char>::empty() } else { entries[position + 1] })
        } else {
            (position, line)
        },
        _ => (position, edited_line(line, edit)),
    }
}

/// The history after a line ends: a submitted line that is not empty is
/// added as the newest entry.
pub open spec fn entries_after(entries: Seq<Seq<char>>, line: Seq<char>, edit: LineEdit) -> Seq<Seq<char>> {
    if edit == LineEdit::Submit && line.len() > 0 {
        entries.push(line)
    } else {
        entries
    }
}

/// Carries out what `event` does to `line`.  An edit that ends the line
/// hands back the finished line (the one to run, for `Submit`), empties
/// `line`, records a submitted line in `history` and leaves recall; the
/// arrow keys move through `history`; any other edits `line` as
/// [`edited_line`] says.
pub fn key_edit(line: &mut String, history: &mut CommandHistory, event: KeyboardEvent) -> (result: (LineEdit, Option<String>))
    requires
        old(history).wf(),
    ensures
        final(history).wf(),
        result.0 == edit_for(event),
        ends_line(result.0) ==> {
            &&& final(line)@ == Seq::<char>::empty()
            &&& result.1 is Some && result.1->0@ == old(line)@
            &&& final(history).entries() == entries_after(old(history).entries(), old(line)@, result.0)
            &&& final(history).position() == final(history).entries().len()
        },
        !ends_line(result.0) ==> {
            let (position, edited) = recalled(old(history).entries(), old(history).position(), old(line)@, result.0);
            &&& final(line)@ == edited
            &&& result.1 is None
            &&& final(history).entries() == old(history).entries()
            &&& final(history).position() == position
        },
{
    let edit = match event {
        KeyboardEvent::Char(c) => if c == '\n' {
            LineEdit::Submit
        } else if c == '\u{8}' {
            LineEdit::Backspace
        } else {
            LineEdit::Insert(c)
        },
        KeyboardEvent::CtrlC => LineEdit::Cancel,
        KeyboardEvent::ZoomIn => LineEdit::ZoomIn,
        KeyboardEvent::ZoomOut => LineEdit::ZoomOut,
        KeyboardEvent::ArrowRight => LineEdit::CursorRight,
        KeyboardEvent::ArrowLeft => LineEdit::CursorLeft,
        KeyboardEvent::ArrowUp => LineEdit::HistoryUp,
        KeyboardEvent::ArrowDown => LineEdit::HistoryDown,
        KeyboardEvent::CtrlL => LineEdit::Reset,
        KeyboardEvent::Tab => LineEdit::Complete,
    };
    match edit {
        LineEdit::Submit | LineEdit::Cancel | LineEdit::Reset => {
            let finished = line.clone();
            if edit == LineEdit::Submit && !finished.as_str().is_empty() {
                let ghost before = history.entries();
                history.entries.push(finished.clone());
                assert(history.entries() =~= before.push(old(line)@));
            }
            history.rewind();
            *line = String::new();
            (edit, Some(finished))
        },
        LineEdit::HistoryUp => {
            if history.position > 0 {
                history.position = history.position - 1;
                *line = history.entries[history.position].clone();
            }
            (edit, None)
        },
        LineEdit::HistoryDown => {
            if history.position < history.entries.len() {
                history.position = history.position + 1;
                if history.position == history.entries.len() {
                    *line = String::new();
                } else {
                    *line = history.entries[history.position].clone();
                }
            }
            (edit, None)
        },
        LineEdit::Insert(c) => {
            push_char(line, c);
            (edit, None)
        },
        LineEdit::Backspace => {
            let _ = pop_char(line);
            (edit, None)
        },
        LineEdit::Complete => {
            if let Some(name) = complete_command(line.as_str()) {
                *line = String::from_str(name);
            }
            (edit, None)
        },
        _ => (edit, None),
    }
}

/// The font size one step larger (`larger`) or smaller than `current`,
/// staying at the largest or smallest size at the ends.
pub open spec fn spec_zoom_step(current: FontSize, larger: bool) -> FontSize {
    match (current, larger) {
        (FontSize::Size16, true) => FontSize::Size20,
        (FontSize::Size20, true) => FontSize::Size24,
        (FontSize::Size24, true) => FontSize::Size32,
        (FontSize::Size32, true) => FontSize::Size32,
        (FontSize::Size32, false) => FontSize::Size24,
        (FontSize::Size24, false) => FontSize::Size20,
        (FontSize::Size20, false) => FontSize::Size16,
        (FontSize::Size16, false) => FontSize::Size16,
    }
}

/// Steps the console font one size up or down.
pub fn zoom_step(current: FontSize, larger: bool) -> (next: FontSize)
    ensures
        next == spec_zoom_step(current, larger),
{
    match (current, larger) {
        (FontSize::Size16, true) => FontSize::Size20,
        (FontSize::Size20, true) => FontSize::Size24,
        (FontSize::Size24, true) => FontSize::Size32,
        (FontSize::Size32, true) => FontSize::Size32,
        (FontSize::Size32, false) => FontSize::Size24,
        (FontSize::Size24, false) => FontSize::Size20,
        (FontSize::Size20, false) => FontSize::Size16,
        (FontSize::Size16, false) => FontSize::Size16,
    }
}

/// The console row after a line break from `row`, with lines `line_height`
/// pixels tall on a screen `screen_height` pixels tall, and whether the
/// screen scrolls up a line for it: the next row when it still fits below,
/// else the same row with the screen scrolled.
pub fn next_row(row: usize, line_height: usize, screen_height: usize) -> (result: (usize, bool))
    requires
        line_height > 0,
    ensures
        (row + 2) * line_height > screen_height ==> result == (row, true),
        (row + 2) * line_height <= screen_height ==> result == ((row + 1) as usize, false),
{
    let needed = match row.checked_add(2) {
        Some(rows) => rows.checked_mul(line_height),
        None => None,
    };
    match needed {
        Some(needed) if needed <= screen_height => (row + 1, false),
        _ => {
            assert((row + 2) * line_height >= row + 2) by (nonlinear_arith)
                requires
                    line_height > 0,
            ;
            (row, true)
        },
    }
}

/// Whether dropped input is reported at tick `ticks`.
pub fn report_due(ticks: u64) -> (due: bool)
    ensures
        due == (ticks % DROPPED_REPORT_PERIOD == 0),
{
    ticks % DROPPED_REPORT_PERIOD == 0
}

/// The report lines for input dropped by full queues: one per queue that
/// dropped anything.
pub open spec fn dropped_report(keyboard: usize, mouse: usize) -> Seq<Seq<char>> {
    let k = if keyboard > 0 { seq!["Dropped "@ + decimal(keyboard as nat) + " keyboard inputs"@] } else { seq![] };
    let m = if mouse > 0 { seq!["Dropped "@ + decimal(mouse as nat) + " mouse inputs"@] } else { seq![] };
    k + m
}

/// Reports the inputs the keyboard and mouse queues dropped.
pub fn dropped_lines(keyboard: usize, mouse: usize) -> (lines: Vec<String>)
    ensures
        strings_view(lines@) == dropped_report(keyboard, mouse),
{
    let mut lines: Vec<String> = Vec::new();
    assert(strings_view(lines@) =~= Seq::<Seq<char>>::empty());
    if keyboard > 0 {
        let mut text: Vec<char> = Vec::new();
        push_text(&mut text, "Dropped ");
        push_decimal(&mut text, keyboard as u64);
        push_text(&mut text, " keyboard inputs");
        let ghost before = strings_view(lines@);
        lines.push(string_of(&text));
        assert(strings_view(lines@) =~= before.push(text@));
    }
    let ghost after_keyboard = strings_view(lines@);
    if mouse > 0 {
        let mut text: Vec<char> = Vec::new();
        push_text(&mut text, "Dropped ");
        push_decimal(&mut text, mouse as u64);
        push_text(&mut text, " mouse inputs");
        lines.push(string_of(&text));
        assert(strings_view(lines@) =~= after_keyboard.push(text@));
    }
    assert(strings_view(lines@) =~= dropped_report(keyboard, mouse));
    lines
}

/// Zooming moves the font one size at a time: zooming in from any size but
/// the largest gives the next larger size (larger than it, and no size lies
/// between the two), zooming in at the largest stays there; zooming out
/// mirrors this towards the smallest size.
pub proof fn zooming_steps_to_the_adjacent_size(current: FontSize, other: FontSize)
    ensures
        font_pixel_height(current) < font_pixel_height(FontSize::Size32) ==> {
            &&& font_pixel_height(spec_zoom_step(current, true)) > font_pixel_height(current)
            &&& font_pixel_height(other) > font_pixel_height(current) ==> font_pixel_height(spec_zoom_step(current, true))
                <= font_pixel_height(other)
        },
        current == FontSize::Size32 ==> spec_zoom_step(current, true) == current,
        font_pixel_height(current) > font_pixel_height(FontSize::Size16) ==> {
            &&& font_pixel_height(spec_zoom_step(current, false)) < font_pixel_height(current)
            &&& font_pixel_height(other) < font_pixel_height(current) ==> font_pixel_height(spec_zoom_step(current, false))
                >= font_pixel_height(other)
        },
        current == FontSize::Size16 ==> spec_zoom_step(current, false) == current,
{
}

} // verus!
