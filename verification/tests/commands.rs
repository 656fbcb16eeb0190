use agnostos::commands::parser::{complete_command, parse, split_words, Command};

#[test]
fn parser_separates_command_arguments_and_flags() {
    let parsed = parse("font --temporary 24");
    assert_eq!(parsed.command, Command::Font);
    assert_eq!(parsed.flags.as_slice(), ["--temporary"]);
    assert_eq!(parsed.args.as_slice(), ["24"]);
}

#[test]
fn parser_recognizes_uptime() {
    let parsed = parse("uptime");
    assert_eq!(parsed.command, Command::Uptime);
    assert!(parsed.args.is_empty());
    assert!(parsed.flags.is_empty());
}

#[test]
fn autocomplete_returns_the_single_matching_command() {
    assert_eq!(complete_command("upt"), Some("uptime"));
}

#[test]
fn autocomplete_leaves_ambiguous_or_non_command_input_alone() {
    assert_eq!(complete_command("h"), None);
    assert_eq!(complete_command("nope"), None);
    assert_eq!(complete_command("echo hello"), None);
}

#[test]
fn empty_and_blank_lines_parse_as_empty() {
    assert_eq!(parse("").command, Command::Empty);
    let parsed = parse("   \t ");
    assert_eq!(parsed.command, Command::Empty);
    assert!(parsed.args.is_empty());
    assert!(parsed.flags.is_empty());
}

#[test]
fn unknown_words_parse_as_unknown_and_keep_their_arguments() {
    let parsed = parse("frobnicate -x a b");
    assert_eq!(parsed.command, Command::Unknown);
    assert_eq!(parsed.flags.as_slice(), ["-x"]);
    assert_eq!(parsed.args.as_slice(), ["a", "b"]);
}

#[test]
fn every_command_name_is_recognized() {
    let names = [
        ("help", Command::Help),
        ("echo", Command::Echo),
        ("clear", Command::Clear),
        ("about", Command::About),
        ("history", Command::History),
        ("font", Command::Font),
        ("meminfo", Command::Meminfo),
        ("uptime", Command::Uptime),
        ("shutdown", Command::Shutdown),
    ];
    for (name, command) in names {
        assert_eq!(parse(name).command, command);
    }
}

#[test]
fn words_are_separated_by_any_whitespace() {
    let words = split_words("  echo\thello   world ");
    let words: Vec<String> = words.iter().map(|w| w.iter().collect()).collect();
    assert_eq!(words, ["echo", "hello", "world"]);
}

#[test]
fn completion_of_an_exact_name_is_that_name() {
    assert_eq!(complete_command("shutdown"), Some("shutdown"));
    assert_eq!(complete_command("c"), Some("clear"));
    assert_eq!(complete_command(""), None);
}

use agnostos::commands::help::help;
use agnostos::commands::run::{run_command, CommandAction};
use agnostos::graphics::text::FontSize;

fn printed(action: CommandAction) -> Vec<String> {
    match action {
        CommandAction::Print(lines) => lines,
        _ => panic!("expected lines to print"),
    }
}

#[test]
fn help_without_arguments_lists_every_command() {
    let lines = help(&vec![]);
    assert_eq!(lines.len(), 14);
    assert_eq!(lines[0], "AgnostOS shell - available commands:");
    assert_eq!(lines[10], "  shutdown  shuts the machine down");
    assert_eq!(lines[13], "tip: ctrl+c to cancel, ctrl+plus/minus to zoom");
}

#[test]
fn help_for_a_command_describes_it() {
    assert_eq!(
        help(&vec!["font".to_string()]),
        ["font - change the font size", "usage: font <16|20|24|32>", "example: font 24"]
    );
    assert_eq!(help(&vec!["clear".to_string(), "extra".to_string()]), ["clear - clear the screen and reset cursor", "usage: clear"]);
    assert_eq!(help(&vec!["nope".to_string()]), ["unknown command: nope"]);
}

#[test]
fn commands_decide_their_actions() {
    assert!(matches!(run_command("clear", 0, 0, 0), CommandAction::ResetConsole));
    assert!(matches!(run_command("history", 0, 0, 0), CommandAction::PrintHistory));
    assert!(matches!(run_command("shutdown now", 0, 0, 0), CommandAction::Shutdown));
    assert!(matches!(run_command("font 24", 0, 0, 0), CommandAction::SetFontSize(FontSize::Size24)));
    assert!(matches!(run_command("font -x 16", 0, 0, 0), CommandAction::SetFontSize(FontSize::Size16)));
    assert_eq!(printed(run_command("font 17", 0, 0, 0)), ["usage: font <16|20|24|32>"]);
    assert_eq!(printed(run_command("font", 0, 0, 0)), ["usage: font <16|20|24|32>"]);
    assert!(printed(run_command("   ", 0, 0, 0)).is_empty());
    assert_eq!(printed(run_command("launch", 0, 0, 0)), ["Unknown command"]);
}

#[test]
fn echo_joins_its_arguments_and_drops_flags() {
    assert_eq!(printed(run_command("echo  hello   world -n", 0, 0, 0)), ["hello world"]);
    assert_eq!(printed(run_command("echo", 0, 0, 0)), [""]);
}

#[test]
fn about_meminfo_and_uptime_report_the_system() {
    assert_eq!(
        printed(run_command("about", 0, 0, 0)),
        ["AgnostOS v0.1 - written in Rust \n codeberg.com/guru901/agnostos"]
    );
    assert_eq!(
        printed(run_command("meminfo", 0x1f_0000, 5 * 1024 * 1024 + 7, 0)),
        ["heap start: 0x1f0000", "heap size:  5mb"]
    );
    assert_eq!(printed(run_command("meminfo", 0, 0, 0)), ["heap start: 0x0", "heap size:  0mb"]);
    assert_eq!(printed(run_command("uptime", 0, 0, 3_700_000)), ["1 hrs 1 min 39 sec"]);
    assert_eq!(printed(run_command("help uptime", 0, 0, 0)).len(), 2);
}
