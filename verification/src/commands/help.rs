//! The text of the `help` command.

use vstd::prelude::*;
use vstd::string::StringExecFns;

use super::parser::{command_for, parse, strings_view, words, Command};
use crate::text::string_of;
use crate::text::push_text;

verus! {

/// The command listing.
pub open spec fn command_listing() -> Seq<Seq<char>> {
    seq![
        "AgnostOS shell - available commands:"@,
        ""@,
        "  help      show this message, or help for a specific command"@,
        "  echo      print text to the screen"@,
        "  clear     clear the screen"@,
        "  about     show OS information"@,
        "  history   reprint screen history"@,
        "  font      change font size"@,
        "  meminfo   show heap memory information"@,
        "  uptime    tells how long the system has been running for"@,
        "  shutdown  shuts the machine down"@,
        ""@,
        "tip: type 'help <command>' for more details"@,
        "tip: ctrl+c to cancel, ctrl+plus/minus to zoom"@,
    ]
}

/// The help of the command that `name` names.
pub open spec fn command_help(name: Seq<char>) -> Seq<Seq<char>> {
    let ws = words(name);
    let command = if ws.len() == 0 { Command::Empty } else { command_for(ws[0]) };
    match command {
        Command::Help => seq!["help - show available commands"@, "usage: help [command]"@, "example: help echo"@],
        Command::Echo => seq!["echo - print text to the screen"@, "usage: echo <text>"@, "example: echo hello world"@],
        Command::Clear => seq!["clear - clear the screen and reset cursor"@, "usage: clear"@],
        Command::About => seq!["about - show information about AgnostOS"@, "usage: about"@],
        Command::History => seq!["history - reprint visible screen history"@, "usage: history"@],
        Command::Font => seq!["font - change the font size"@, "usage: font <16|20|24|32>"@, "example: font 24"@],
        Command::Meminfo => seq!["meminfo - show heap memory information"@, "usage: meminfo"@],
        Command::Uptime => seq!["uptime - tells how long the system has been running for"@, "usage: uptime"@],
        Command::Shutdown => seq!["shutdown - shuts the machine down instantly"@, "usage: shutdown"@],
        Command::Unknown => seq!["unknown command: "@ + name],
        Command::Empty => seq![],
    }
}

/// What `help` prints for `args`: the help of the command its first
/// argument names, or the listing without arguments.
pub open spec fn help_text(args: Seq<Seq<char>>) -> Seq<Seq<char>> {
    if args.len() == 0 {
        command_listing()
    } else {
        command_help(args[0])
    }
}

fn push_line(lines: &mut Vec<String>, line: &str)
    ensures
        strings_view(final(lines)@) == strings_view(old(lines)@).push(line@),
{
    let ghost before = strings_view(lines@);
    lines.push(String::from_str(line));
    assert(strings_view(lines@) =~= before.push(line@));
}

/// The lines `help` prints for `args`.
pub fn help(args: &Vec<String>) -> (lines: Vec<String>)
    ensures
        strings_view(lines@) == help_text(strings_view(args@)),
{
    let mut lines: Vec<String> = Vec::new();
    assert(strings_view(lines@) =~= Seq::<Seq<char>>::empty());
    if args.len() == 0 {
        push_line(&mut lines, "AgnostOS shell - available commands:");
        push_line(&mut lines, "");
        push_line(&mut lines, "  help      show this message, or help for a specific command");
        push_line(&mut lines, "  echo      print text to the screen");
        push_line(&mut lines, "  clear     clear the screen");
        push_line(&mut lines, "  about     show OS information");
        push_line(&mut lines, "  history   reprint screen history");
        push_line(&mut lines, "  font      change font size");
        push_line(&mut lines, "  meminfo   show heap memory information");
        push_line(&mut lines, "  uptime    tells how long the system has been running for");
        push_line(&mut lines, "  shutdown  shuts the machine down");
        push_line(&mut lines, "");
        push_line(&mut lines, "tip: type 'help <command>' for more details");
        push_line(&mut lines, "tip: ctrl+c to cancel, ctrl+plus/minus to zoom");
        assert(strings_view(lines@) =~= command_listing());
        return lines;
    }
    let name = &args[0];
    assert(strings_view(args@)[0] == name@);
    let command = parse(name.as_str()).command;
    match command {
        Command::Help => {
            push_line(&mut lines, "help - show available commands");
            push_line(&mut lines, "usage: help [command]");
            push_line(&mut lines, "example: help echo");
        },
        Command::Echo => {
            push_line(&mut lines, "echo - print text to the screen");
            push_line(&mut lines, "usage: echo <text>");
            push_line(&mut lines, "example: echo hello world");
        },
        Command::Clear => {
            push_line(&mut lines, "clear - clear the screen and reset cursor");
            push_line(&mut lines, "usage: clear");
        },
        Command::About => {
            push_line(&mut lines, "about - show information about AgnostOS");
            push_line(&mut lines, "usage: about");
        },
        Command::History => {
            push_line(&mut lines, "history - reprint visible screen history");
            push_line(&mut lines, "usage: history");
        },
        Command::Font => {
            push_line(&mut lines, "font - change the font size");
            push_line(&mut lines, "usage: font <16|20|24|32>");
            push_line(&mut lines, "example: font 24");
        },
        Command::Meminfo => {
            push_line(&mut lines, "meminfo - show heap memory information");
            push_line(&mut lines, "usage: meminfo");
        },
        Command::Uptime => {
            push_line(&mut lines, "uptime - tells how long the system has been running for");
            push_line(&mut lines, "usage: uptime");
        },
        Command::Shutdown => {
            push_line(&mut lines, "shutdown - shuts the machine down instantly");
            push_line(&mut lines, "usage: shutdown");
        },
        Command::Unknown => {
            let mut text: Vec<char> = Vec::new();
            push_text(&mut text, "unknown command: ");
            push_text(&mut text, name.as_str());
            let ghost before = strings_view(lines@);
            lines.push(string_of(&text));
            assert(strings_view(lines@) =~= before.push("unknown command: "@ + name@));
        },
        Command::Empty => {},
    }
    assert(strings_view(lines@) =~= help_text(strings_view(args@)));
    lines
}

} // verus!
