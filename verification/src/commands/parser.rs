//! Splits a command line into a command, its arguments and its flags, and
//! completes command names.

use vstd::prelude::*;

use crate::text::string_of;

verus! {

/// The characters of `s`, in order.
pub fn chars_of(s: &str) -> (chars: Vec<char>)
    ensures
        chars@ == s@,
{
    let mut chars: Vec<char> = Vec::new();
    for c in iter: s.chars()
        invariant
            chars@ == iter.seq().take(iter.index() as int),
            iter.seq() == s@,
    {
        chars.push(c);
    }
    chars
}

} // verus!

verus! {

/// Unicode's `White_Space` characters.
pub open spec fn spec_is_whitespace(c: char) -> bool {
    let u = c as u32;
    ||| 0x09 <= u <= 0x0d
    ||| u == 0x20
    ||| u == 0x85
    ||| u == 0xa0
    ||| u == 0x1680
    ||| 0x2000 <= u <= 0x200a
    ||| u == 0x2028
    ||| u == 0x2029
    ||| u == 0x202f
    ||| u == 0x205f
    ||| u == 0x3000
}

/// Whether `c` is Unicode white space.
pub fn is_whitespace(c: char) -> (ws: bool)
    ensures
        ws == spec_is_whitespace(c),
{
    let u = c as u32;
    (0x09 <= u && u <= 0x0d) || u == 0x20 || u == 0x85 || u == 0xa0 || u == 0x1680 || (0x2000 <= u && u <= 0x200a)
        || u == 0x2028 || u == 0x2029 || u == 0x202f || u == 0x205f || u == 0x3000
}

/// Scanning `s` left to right: the words completed so far, and the word
/// being read (empty between words).
pub open spec fn scan_words(s: Seq<char>) -> (Seq<Seq<char>>, Seq<char>)
    decreases s.len(),
{
    if s.len() == 0 {
        (seq![], seq![])
    } else {
        let (done, current) = scan_words(s.drop_last());
        if spec_is_whitespace(s.last()) {
            if current.len() > 0 { (done.push(current), seq![]) } else { (done, seq![]) }
        } else {
            (done, current.push(s.last()))
        }
    }
}

/// The maximal runs of non-white-space characters of `s`, in order.
pub open spec fn words(s: Seq<char>) -> Seq<Seq<char>> {
    let (done, current) = scan_words(s);
    if current.len() > 0 { done.push(current) } else { done }
}

/// Splits `line` into its words.
pub fn split_words(line: &str) -> (result: Vec<Vec<char>>)
    ensures
        result@.map_values(|w: Vec<char>| w@) == words(line@),
{
    let chars = chars_of(line);
    let mut result: Vec<Vec<char>> = Vec::new();
    let mut current: Vec<char> = Vec::new();
    let mut i: usize = 0;
    while i < chars.len()
        invariant
            i <= chars.len(),
            chars@ == line@,
            (result@.map_values(|w: Vec<char>| w@), current@) == scan_words(chars@.take(i as int)),
        decreases chars.len() - i,
    {
        let c = chars[i];
        let ghost before = result@.map_values(|w: Vec<char>| w@);
        assert(chars@.take(i + 1).drop_last() =~= chars@.take(i as int));
        if is_whitespace(c) {
            if current.len() > 0 {
                let ghost word = current@;
                result.push(current);
                current = Vec::new();
                assert(result@.map_values(|w: Vec<char>| w@) =~= before.push(word));
            } else {
                current = Vec::new();
            }
            assert(current@ =~= Seq::<char>::empty());
        } else {
            current.push(c);
        }
        i += 1;
    }
    assert(chars@.take(i as int) =~= chars@);
    if current.len() > 0 {
        let ghost before = result@.map_values(|w: Vec<char>| w@);
        let ghost word = current@;
        result.push(current);
        assert(result@.map_values(|w: Vec<char>| w@) =~= before.push(word));
    }
    result
}

} // verus!

verus! {

/// The shell's commands.
#[derive(Clone, Copy, Debug, PartialEq, Eq, Structural)]
pub enum Command {
    Help,
    About,
    History,
    Echo,
    Meminfo,
    Font,
    Clear,
    Shutdown,
    Empty,
    Unknown,
    Uptime,
}

/// The command a word names.
pub open spec fn command_for(word: Seq<char>) -> Command {
    if word == "help"@ {
        Command::Help
    } else if word == "about"@ {
        Command::About
    } else if word == "history"@ {
        Command::History
    } else if word == "echo"@ {
        Command::Echo
    } else if word == "meminfo"@ {
        Command::Meminfo
    } else if word == "font"@ {
        Command::Font
    } else if word == "clear"@ {
        Command::Clear
    } else if word == "shutdown"@ {
        Command::Shutdown
    } else if word == "uptime"@ {
        Command::Uptime
    } else if word.len() == 0 {
        Command::Empty
    } else {
        Command::Unknown
    }
}

/// Whether a word is a flag: it starts with `-`.
pub open spec fn is_flag(word: Seq<char>) -> bool {
    word.len() > 0 && word[0] == '-'
}

/// The words of `ws` that are flags, in order.
pub open spec fn flags_of(ws: Seq<Seq<char>>) -> Seq<Seq<char>>
    decreases ws.len(),
{
    if ws.len() == 0 {
        seq![]
    } else if is_flag(ws.last()) {
        flags_of(ws.drop_last()).push(ws.last())
    } else {
        flags_of(ws.drop_last())
    }
}

/// The words of `ws` that are not flags, in order.
pub open spec fn args_of(ws: Seq<Seq<char>>) -> Seq<Seq<char>>
    decreases ws.len(),
{
    if ws.len() == 0 {
        seq![]
    } else if is_flag(ws.last()) {
        args_of(ws.drop_last())
    } else {
        args_of(ws.drop_last()).push(ws.last())
    }
}

/// The words after the first.
pub open spec fn rest_words(ws: Seq<Seq<char>>) -> Seq<Seq<char>> {
    if ws.len() == 0 { seq![] } else { ws.skip(1) }
}

pub open spec fn strings_view(v: Seq<String>) -> Seq<Seq<char>> {
    v.map_values(|s: String| s@)
}

/// A command line taken apart.
pub struct ParsedCommand {
    pub command: Command,
    pub args: Vec<String>,
    pub flags: Vec<String>,
}

/// Whether `word` spells `name`.
fn word_is(word: &Vec<char>, name: &str) -> (same: bool)
    ensures
        same == (word@ == name@),
{
    let name_chars = chars_of(name);
    if word.len() != name_chars.len() {
        return false;
    }
    let mut i: usize = 0;
    while i < word.len()
        invariant
            i <= word.len() == name_chars.len(),
            name_chars@ == name@,
            forall|j: int| 0 <= j < i ==> word@[j] == name_chars@[j],
        decreases word.len() - i,
    {
        if word[i] != name_chars[i] {
            return false;
        }
        i += 1;
    }
    assert(word@ =~= name@);
    true
}

/// The command a word names.
pub fn command_of(word: &Vec<char>) -> (command: Command)
    ensures
        command == command_for(word@),
{
    if word_is(word, "help") {
        Command::Help
    } else if word_is(word, "about") {
        Command::About
    } else if word_is(word, "history") {
        Command::History
    } else if word_is(word, "echo") {
        Command::Echo
    } else if word_is(word, "meminfo") {
        Command::Meminfo
    } else if word_is(word, "font") {
        Command::Font
    } else if word_is(word, "clear") {
        Command::Clear
    } else if word_is(word, "shutdown") {
        Command::Shutdown
    } else if word_is(word, "uptime") {
        Command::Uptime
    } else if word.len() == 0 {
        Command::Empty
    } else {
        Command::Unknown
    }
}

/// Splits a command line into its command (named by the first word), its
/// flags (the later words that start with `-`) and its arguments (the other
/// later words).
pub fn parse(input: &str) -> (parsed: ParsedCommand)
    ensures
        ({
            let ws = words(input@);
            &&& parsed.command == (if ws.len() == 0 { Command::Empty } else { command_for(ws[0]) })
            &&& strings_view(parsed.flags@) == flags_of(rest_words(ws))
            &&& strings_view(parsed.args@) == args_of(rest_words(ws))
        }),
{
    let words = split_words(input);
    let ghost ws = words@.map_values(|w: Vec<char>| w@);
    if words.len() == 0 {
        proof {
            assert(flags_of(rest_words(ws)) =~= Seq::<Seq<char>>::empty());
            assert(args_of(rest_words(ws)) =~= Seq::<Seq<char>>::empty());
        }
        let parsed = ParsedCommand { command: Command::Empty, args: Vec::new(), flags: Vec::new() };
        assert(strings_view(parsed.args@) =~= Seq::<Seq<char>>::empty());
        assert(strings_view(parsed.flags@) =~= Seq::<Seq<char>>::empty());
        return parsed;
    }
    let command = command_of(&words[0]);
    let mut args: Vec<String> = Vec::new();
    let mut flags: Vec<String> = Vec::new();
    let mut i: usize = 1;
    assert(ws.skip(1).take(0) =~= Seq::<Seq<char>>::empty());
    assert(strings_view(args@) =~= Seq::<Seq<char>>::empty());
    assert(strings_view(flags@) =~= Seq::<Seq<char>>::empty());
    while i < words.len()
        invariant
            1 <= i <= words.len(),
            ws == words@.map_values(|w: Vec<char>| w@),
            strings_view(flags@) == flags_of(ws.skip(1).take(i - 1)),
            strings_view(args@) == args_of(ws.skip(1).take(i - 1)),
        decreases words.len() - i,
    {
        let word = &words[i];
        let ghost next = ws.skip(1).take(i as int);
        assert(next.drop_last() =~= ws.skip(1).take(i - 1));
        assert(next.last() == word@);
        let text = string_of(word);
        let flag = word.len() > 0 && word[0] == '-';
        if flag {
            let ghost before = strings_view(flags@);
            flags.push(text);
            assert(strings_view(flags@) =~= before.push(word@));
        } else {
            let ghost before = strings_view(args@);
            args.push(text);
            assert(strings_view(args@) =~= before.push(word@));
        }
        i += 1;
    }
    assert(ws.skip(1).take(i - 1) =~= ws.skip(1));
    ParsedCommand { command, args, flags }
}

/// The command names, in completion order.
pub open spec fn command_names() -> Seq<Seq<char>> {
    seq!["about"@, "clear"@, "echo"@, "font"@, "help"@, "history"@, "meminfo"@, "shutdown"@, "uptime"@]
}

pub const COMMAND_COUNT: usize = 9;

/// The `i`-th command name.
pub fn command_name(i: usize) -> (name: &'static str)
    requires
        i < COMMAND_COUNT,
    ensures
        name@ == command_names()[i as int],
{
    match i {
        0 => "about",
        1 => "clear",
        2 => "echo",
        3 => "font",
        4 => "help",
        5 => "history",
        6 => "meminfo",
        7 => "shutdown",
        _ => "uptime",
    }
}

/// The names among the first `k` that start with `prefix`.
pub open spec fn matching_names(prefix: Seq<char>, k: int) -> Seq<Seq<char>>
    decreases k,
{
    if k <= 0 {
        seq![]
    } else if prefix.is_prefix_of(command_names()[k - 1]) {
        matching_names(prefix, k - 1).push(command_names()[k - 1])
    } else {
        matching_names(prefix, k - 1)
    }
}

/// The completion of a prefix: the one command name it starts, when it is a
/// non-empty word that starts exactly one.
pub open spec fn completion(prefix: Seq<char>) -> Option<Seq<char>> {
    let matches = matching_names(prefix, COMMAND_COUNT as int);
    if prefix.len() == 0 || (exists|i: int| 0 <= i < prefix.len() && spec_is_whitespace(#[trigger] prefix[i])) {
        None
    } else if matches.len() == 1 {
        Some(matches[0])
    } else {
        None
    }
}

/// Whether `prefix` is a prefix of `name`.
fn starts_with(name: &Vec<char>, prefix: &Vec<char>) -> (starts: bool)
    ensures
        starts == prefix@.is_prefix_of(name@),
{
    if prefix.len() > name.len() {
        return false;
    }
    let mut i: usize = 0;
    while i < prefix.len()
        invariant
            i <= prefix.len() <= name.len(),
            forall|j: int| 0 <= j < i ==> prefix@[j] == name@[j],
        decreases prefix.len() - i,
    {
        if prefix[i] != name[i] {
            return false;
        }
        i += 1;
    }
    assert(prefix@ =~= name@.take(prefix@.len() as int));
    true
}

/// Returns the command name `prefix` starts, only when it identifies exactly
/// one command: completing an ambiguous prefix would choose arbitrarily.
pub fn complete_command(prefix: &str) -> (completed: Option<&'static str>)
    ensures
        match completion(prefix@) {
            None => completed.is_none(),
            Some(name) => completed.is_some() && completed.unwrap()@ == name,
        },
{
    let p = chars_of(prefix);
    if p.len() == 0 {
        return None;
    }
    let mut i: usize = 0;
    while i < p.len()
        invariant
            i <= p.len(),
            p@ == prefix@,
            forall|j: int| 0 <= j < i ==> !spec_is_whitespace(#[trigger] p@[j]),
        decreases p.len() - i,
    {
        if is_whitespace(p[i]) {
            assert(spec_is_whitespace(prefix@[i as int]));
            return None;
        }
        i += 1;
    }
    let mut found: Option<&'static str> = None;
    let mut count: usize = 0;
    let mut k: usize = 0;
    while k < COMMAND_COUNT
        invariant
            k <= COMMAND_COUNT,
            p@ == prefix@,
            count == matching_names(prefix@, k as int).len(),
            count <= k,
            count >= 1 ==> found.is_some() && found.unwrap()@ == matching_names(prefix@, k as int)[0],
        decreases COMMAND_COUNT - k,
    {
        let name = command_name(k);
        let name_chars = chars_of(name);
        if starts_with(&name_chars, &p) {
            if count == 0 {
                found = Some(name);
            }
            count += 1;
        }
        k += 1;
    }
    if count == 1 {
        found
    } else {
        None
    }
}

/// The names among the first `k` that start with `prefix` are command
/// names that start with it.
proof fn lemma_matching_names(prefix: Seq<char>, k: int)
    requires
        k <= COMMAND_COUNT,
    ensures
        forall|j: int|
            0 <= j < matching_names(prefix, k).len() ==> prefix.is_prefix_of(#[trigger] matching_names(prefix, k)[j])
                && exists|i: int| 0 <= i < k && matching_names(prefix, k)[j] == #[trigger] command_names()[i],
    decreases k,
{
    if k > 0 {
        lemma_matching_names(prefix, k - 1);
        let m = matching_names(prefix, k);
        assert forall|j: int| 0 <= j < m.len() implies prefix.is_prefix_of(#[trigger] m[j]) && exists|i: int|
            0 <= i < k && m[j] == #[trigger] command_names()[i] by {
            if j < matching_names(prefix, k - 1).len() {
                let i = choose|i: int| 0 <= i < k - 1 && matching_names(prefix, k - 1)[j] == #[trigger] command_names()[i];
                assert(m[j] == command_names()[i]);
            } else {
                assert(m[j] == command_names()[k - 1]);
            }
        }
    }
}

/// Every command name names a command.
proof fn lemma_command_names_are_commands(i: int)
    requires
        0 <= i < COMMAND_COUNT,
    ensures
        command_for(command_names()[i]) != Command::Unknown,
        command_for(command_names()[i]) != Command::Empty,
{
    reveal_strlit("about");
    reveal_strlit("clear");
    reveal_strlit("echo");
    reveal_strlit("font");
    reveal_strlit("help");
    reveal_strlit("history");
    reveal_strlit("meminfo");
    reveal_strlit("shutdown");
    reveal_strlit("uptime");
}

/// A completion starts with what was typed and is the name of a command.
pub proof fn completions_name_commands(prefix: Seq<char>)
    ensures
        completion(prefix) matches Some(name) ==> prefix.is_prefix_of(name) && command_for(name) != Command::Unknown
            && command_for(name) != Command::Empty,
{
    if let Some(name) = completion(prefix) {
        lemma_matching_names(prefix, COMMAND_COUNT as int);
        let m = matching_names(prefix, COMMAND_COUNT as int);
        assert(name == m[0]);
        let i = choose|i: int| 0 <= i < COMMAND_COUNT && m[0] == #[trigger] command_names()[i];
        lemma_command_names_are_commands(i);
    }
}

/// The words after the command split into flags and arguments: every flag
/// starts with `-`, no argument does, and no word is lost.
pub proof fn flags_and_arguments_split_the_words(ws: Seq<Seq<char>>)
    ensures
        flags_of(ws).len() + args_of(ws).len() == ws.len(),
        forall|j: int| 0 <= j < flags_of(ws).len() ==> is_flag(#[trigger] flags_of(ws)[j]),
        forall|j: int| 0 <= j < args_of(ws).len() ==> !is_flag(#[trigger] args_of(ws)[j]),
    decreases ws.len(),
{
    if ws.len() > 0 {
        flags_and_arguments_split_the_words(ws.drop_last());
        let (f, a) = (flags_of(ws.drop_last()), args_of(ws.drop_last()));
        assert forall|j: int| 0 <= j < flags_of(ws).len() implies is_flag(#[trigger] flags_of(ws)[j]) by {
            if j < f.len() {
                assert(flags_of(ws)[j] == f[j]);
            }
        }
        assert forall|j: int| 0 <= j < args_of(ws).len() implies !is_flag(#[trigger] args_of(ws)[j]) by {
            if j < a.len() {
                assert(args_of(ws)[j] == a[j]);
            }
        }
    }
}

} // verus!
