//! What each command does, decided from the command line and the state it
//! reports on; the console carries the action out.

use vstd::prelude::*;
use vstd::string::StringExecFns;

use super::help::{help, help_text};
use super::parser::{args_of, command_for, parse, rest_words, strings_view, words, Command};
use crate::text::{decimal, hex, push_decimal, push_hex, push_text, string_of};
use crate::graphics::text::{font_pixel_height, FontSize};
use crate::timer::{spec_uptime_ms, uptime, uptime_text};

verus! {

/// What the console does for a command.
pub enum CommandAction {
    /// Prints these lines.
    Print(Vec<String>),
    /// Reprints the visible screen history.
    PrintHistory,
    /// Switches to this font size.
    SetFontSize(FontSize),
    /// Clears the screen and puts the cursor back at the top.
    ResetConsole,
    /// Powers the machine off.
    Shutdown,
}

/// [`CommandAction`] with its lines as character sequences.
pub enum ActionView {
    Print(Seq<Seq<char>>),
    PrintHistory,
    SetFontSize(FontSize),
    ResetConsole,
    Shutdown,
}

impl View for CommandAction {
    type V = ActionView;

    open spec fn view(&self) -> ActionView {
        match self {
            CommandAction::Print(lines) => ActionView::Print(strings_view(lines@)),
            CommandAction::PrintHistory => ActionView::PrintHistory,
            CommandAction::SetFontSize(size) => ActionView::SetFontSize(*size),
            CommandAction::ResetConsole => ActionView::ResetConsole,
            CommandAction::Shutdown => ActionView::Shutdown,
        }
    }
}

/// `ws` joined with single spaces.
pub open spec fn join_words(ws: Seq<Seq<char>>) -> Seq<char>
    decreases ws.len(),
{
    if ws.len() == 0 {
        seq![]
    } else if ws.len() == 1 {
        ws[0]
    } else {
        join_words(ws.drop_last()) + " "@ + ws.last()
    }
}

/// The heap report: its start in hexadecimal and its size in whole MiB.
pub open spec fn meminfo_text(heap_start: usize, heap_size: usize) -> Seq<Seq<char>> {
    seq![
        "heap start: 0x"@ + hex(heap_start as nat),
        "heap size:  "@ + decimal((heap_size as nat) / 1048576) + "mb"@,
    ]
}

/// The font size an argument names.
pub open spec fn font_size_for(arg: Seq<char>) -> Option<FontSize> {
    if arg == "16"@ {
        Some(FontSize::Size16)
    } else if arg == "20"@ {
        Some(FontSize::Size20)
    } else if arg == "24"@ {
        Some(FontSize::Size24)
    } else if arg == "32"@ {
        Some(FontSize::Size32)
    } else {
        None
    }
}

/// What the command line `input` does, with the heap at `heap_start` of
/// `heap_size` bytes and the timer at tick `ticks`.
pub open spec fn command_action(input: Seq<char>, heap_start: usize, heap_size: usize, ticks: u64) -> ActionView {
    let ws = words(input);
    let command = if ws.len() == 0 { Command::Empty } else { command_for(ws[0]) };
    let args = args_of(rest_words(ws));
    match command {
        Command::Help => ActionView::Print(help_text(args)),
        Command::About => ActionView::Print(seq!["AgnostOS v0.1 - written in Rust \n codeberg.com/guru901/agnostos"@]),
        Command::History => ActionView::PrintHistory,
        Command::Echo => ActionView::Print(seq![join_words(args)]),
        Command::Meminfo => ActionView::Print(meminfo_text(heap_start, heap_size)),
        Command::Font => match font_size_for(if args.len() > 0 { args[0] } else { Seq::<char>::empty() }) {
            Some(size) => ActionView::SetFontSize(size),
            None => ActionView::Print(seq!["usage: font <16|20|24|32>"@]),
        },
        Command::Clear => ActionView::ResetConsole,
        Command::Shutdown => ActionView::Shutdown,
        Command::Uptime => ActionView::Print(seq![uptime_text(spec_uptime_ms(ticks))]),
        Command::Empty => ActionView::Print(seq![]),
        Command::Unknown => ActionView::Print(seq!["Unknown command"@]),
    }
}

/// The arguments joined with single spaces.
fn join(args: &Vec<String>) -> (text: String)
    ensures
        text@ == join_words(strings_view(args@)),
{
    let ghost ws = strings_view(args@);
    let mut text: Vec<char> = Vec::new();
    let mut i: usize = 0;
    while i < args.len()
        invariant
            i <= args.len(),
            ws == strings_view(args@),
            text@ == join_words(ws.take(i as int)),
        decreases args.len() - i,
    {
        assert(ws.take(i + 1).drop_last() =~= ws.take(i as int));
        if i > 0 {
            push_text(&mut text, " ");
        }
        push_text(&mut text, args[i].as_str());
        i += 1;
    }
    assert(ws.take(i as int) =~= ws);
    string_of(&text)
}

/// Whether `text` spells `word`.
fn is_word(text: &String, word: &str) -> (same: bool)
    ensures
        same == (text@ == word@),
{
    let a = super::parser::chars_of(text.as_str());
    let b = super::parser::chars_of(word);
    if a.len() != b.len() {
        return false;
    }
    let mut i: usize = 0;
    while i < a.len()
        invariant
            i <= a.len() == b.len(),
            a@ == text@,
            b@ == word@,
            forall|j: int| 0 <= j < i ==> a@[j] == b@[j],
        decreases a.len() - i,
    {
        if a[i] != b[i] {
            return false;
        }
        i += 1;
    }
    assert(a@ =~= b@);
    true
}

/// The font size an argument names.
fn font_size(arg: &String) -> (size: Option<FontSize>)
    ensures
        size == font_size_for(arg@),
{
    if is_word(arg, "16") {
        Some(FontSize::Size16)
    } else if is_word(arg, "20") {
        Some(FontSize::Size20)
    } else if is_word(arg, "24") {
        Some(FontSize::Size24)
    } else if is_word(arg, "32") {
        Some(FontSize::Size32)
    } else {
        None
    }
}

/// One line as a one-line action.
fn print_line(line: String) -> (action: CommandAction)
    ensures
        action@ == ActionView::Print(seq![line@]),
{
    let lines = vec![line];
    assert(strings_view(lines@) =~= seq![line@]);
    CommandAction::Print(lines)
}

/// Decides what the command line `command` does, with the heap at
/// `heap_start` of `heap_size` bytes and the timer at tick `ticks`.
pub fn run_command(command: &str, heap_start: usize, heap_size: usize, ticks: u64) -> (action: CommandAction)
    ensures
        action@ == command_action(command@, heap_start, heap_size, ticks),
{
    let parsed = parse(command);
    let args = parsed.args;
    match parsed.command {
        Command::Help => CommandAction::Print(help(&args)),
        Command::About => print_line(String::from_str("AgnostOS v0.1 - written in Rust \n codeberg.com/guru901/agnostos")),
        Command::History => CommandAction::PrintHistory,
        Command::Echo => print_line(join(&args)),
        Command::Meminfo => {
            let mut start: Vec<char> = Vec::new();
            push_text(&mut start, "heap start: 0x");
            push_hex(&mut start, heap_start as u64);
            let mut size: Vec<char> = Vec::new();
            push_text(&mut size, "heap size:  ");
            push_decimal(&mut size, (heap_size / (1024 * 1024)) as u64);
            push_text(&mut size, "mb");
            let lines = vec![string_of(&start), string_of(&size)];
            assert(strings_view(lines@) =~= meminfo_text(heap_start, heap_size));
            CommandAction::Print(lines)
        },
        Command::Font => {
            let size = if args.len() > 0 {
                font_size(&args[0])
            } else {
                assert(font_size_for(Seq::<char>::empty()) is None) by {
                    reveal_strlit("16");
                    reveal_strlit("20");
                    reveal_strlit("24");
                    reveal_strlit("32");
                    assert("16"@.len() == 2 && "20"@.len() == 2 && "24"@.len() == 2 && "32"@.len() == 2);
                }
                None
            };
            match size {
                Some(size) => CommandAction::SetFontSize(size),
                None => print_line(String::from_str("usage: font <16|20|24|32>")),
            }
        },
        Command::Clear => CommandAction::ResetConsole,
        Command::Shutdown => CommandAction::Shutdown,
        Command::Uptime => print_line(uptime(ticks)),
        Command::Empty => {
            let lines: Vec<String> = Vec::new();
            assert(strings_view(lines@) =~= Seq::<Seq<char>>::empty());
            CommandAction::Print(lines)
        },
        Command::Unknown => print_line(String::from_str("Unknown command")),
    }
}

/// `font N` chooses the font size whose lines are N pixels high: the
/// decimal digits of a size's pixel height name that size, and only they do.
pub proof fn font_arguments_name_the_size_of_their_height(size: FontSize, arg: Seq<char>)
    ensures
        font_size_for(decimal(font_pixel_height(size))) == Some(size),
        font_size_for(arg) == Some(size) ==> arg == decimal(font_pixel_height(size)),
{
    reveal_strlit("16");
    reveal_strlit("20");
    reveal_strlit("24");
    reveal_strlit("32");
    assert(decimal(16) =~= "16"@) by {
        assert(decimal(1) == seq!['1']);
    }
    assert(decimal(20) =~= "20"@) by {
        assert(decimal(2) == seq!['2']);
    }
    assert(decimal(24) =~= "24"@) by {
        assert(decimal(2) == seq!['2']);
    }
    assert(decimal(32) =~= "32"@) by {
        assert(decimal(3) == seq!['3']);
    }
    assert("16"@[0] == '1' && "20"@[0] == '2' && "24"@[0] == '2' && "32"@[0] == '3');
    assert("20"@[1] == '0' && "24"@[1] == '4');
    assert("16"@ != "20"@ && "16"@ != "24"@ && "16"@ != "32"@);
    assert("20"@ != "24"@ && "20"@ != "32"@ && "24"@ != "32"@);
    match size {
        FontSize::Size16 => {},
        FontSize::Size20 => {},
        FontSize::Size24 => {},
        FontSize::Size32 => {},
    }
}

} // verus!
