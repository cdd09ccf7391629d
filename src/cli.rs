use vstd::prelude::*;
use crate::text::{str_eq, push_str, push_char, push_padded_right, pad_right};

verus! {

/// The commands of the command line.
#[derive(PartialEq, Eq, Structural, Debug, Clone, Copy)]
pub enum CommandType {
    Help,
    Version,
    Compile,
    Output,
    Binary,
    Dump,
    Tree,
    Strict,
    Analyze,
}

/// The command a word names without its dashes, if any.
pub open spec fn bare_command(s: Seq<char>) -> Option<CommandType> {
    if s == "v"@ || s == "version"@ { Some(CommandType::Version) }
    else if s == "h"@ || s == "help"@ { Some(CommandType::Help) }
    else if s == "c"@ || s == "compile"@ { Some(CommandType::Compile) }
    else if s == "o"@ || s == "output"@ { Some(CommandType::Output) }
    else if s == "b"@ || s == "binary"@ { Some(CommandType::Binary) }
    else if s == "d"@ || s == "dump"@ { Some(CommandType::Dump) }
    else if s == "t"@ || s == "tree"@ { Some(CommandType::Tree) }
    else if s == "s"@ || s == "strict"@ { Some(CommandType::Strict) }
    else if s == "a"@ || s == "analyze"@ { Some(CommandType::Analyze) }
    else { None }
}

/// The command a word names with its dashes (`-c`, `--compile`), if any.
pub open spec fn prefixed_command(s: Seq<char>) -> Option<CommandType> {
    if s == "-v"@ || s == "--version"@ { Some(CommandType::Version) }
    else if s == "-h"@ || s == "--help"@ { Some(CommandType::Help) }
    else if s == "-c"@ || s == "--compile"@ { Some(CommandType::Compile) }
    else if s == "-o"@ || s == "--output"@ { Some(CommandType::Output) }
    else if s == "-b"@ || s == "--binary"@ { Some(CommandType::Binary) }
    else if s == "-d"@ || s == "--dump"@ { Some(CommandType::Dump) }
    else if s == "-t"@ || s == "--tree"@ { Some(CommandType::Tree) }
    else if s == "-s"@ || s == "--strict"@ { Some(CommandType::Strict) }
    else if s == "-a"@ || s == "--analyze"@ { Some(CommandType::Analyze) }
    else { None }
}

/// The command a word names; without `require_prefix` a bare name counts too.
pub open spec fn command_of(s: Seq<char>, require_prefix: bool) -> Option<CommandType> {
    match prefixed_command(s) {
        Some(c) => Some(c),
        None => if require_prefix { None } else { bare_command(s) },
    }
}

/// Order of execution: parameters first, then compile, then the rest.
pub open spec fn priority(c: CommandType) -> usize {
    match c {
        CommandType::Compile => 50,
        CommandType::Dump | CommandType::Tree | CommandType::Strict => 40,
        _ => 100,
    }
}

/// Arguments a command takes; -1 for an optional one.
pub open spec fn arg_count(c: CommandType) -> int {
    match c {
        CommandType::Version | CommandType::Binary | CommandType::Dump | CommandType::Strict
        | CommandType::Analyze | CommandType::Tree => 0,
        CommandType::Help => -1,
        _ => 1,
    }
}

/// Whether a command needs `--compile` beside it.
pub open spec fn needs_compile(c: CommandType) -> bool {
    match c {
        CommandType::Output | CommandType::Binary | CommandType::Tree | CommandType::Dump
        | CommandType::Analyze | CommandType::Strict => true,
        _ => false,
    }
}

impl CommandType {
    pub fn get_type(command: &str, require_prefix: bool) -> (r: Option<CommandType>)
        ensures
            r == command_of(command@, require_prefix),
    {
        if str_eq(command, "-v") || str_eq(command, "--version") { Some(CommandType::Version) }
        else if str_eq(command, "-h") || str_eq(command, "--help") { Some(CommandType::Help) }
        else if str_eq(command, "-c") || str_eq(command, "--compile") { Some(CommandType::Compile) }
        else if str_eq(command, "-o") || str_eq(command, "--output") { Some(CommandType::Output) }
        else if str_eq(command, "-b") || str_eq(command, "--binary") { Some(CommandType::Binary) }
        else if str_eq(command, "-d") || str_eq(command, "--dump") { Some(CommandType::Dump) }
        else if str_eq(command, "-t") || str_eq(command, "--tree") { Some(CommandType::Tree) }
        else if str_eq(command, "-s") || str_eq(command, "--strict") { Some(CommandType::Strict) }
        else if str_eq(command, "-a") || str_eq(command, "--analyze") { Some(CommandType::Analyze) }
        else if !require_prefix { CommandType::get_type_without_prefix(command) }
        else { None }
    }

    fn get_type_without_prefix(command: &str) -> (r: Option<CommandType>)
        ensures
            r == bare_command(command@),
    {
        if str_eq(command, "v") || str_eq(command, "version") { Some(CommandType::Version) }
        else if str_eq(command, "h") || str_eq(command, "help") { Some(CommandType::Help) }
        else if str_eq(command, "c") || str_eq(command, "compile") { Some(CommandType::Compile) }
        else if str_eq(command, "o") || str_eq(command, "output") { Some(CommandType::Output) }
        else if str_eq(command, "b") || str_eq(command, "binary") { Some(CommandType::Binary) }
        else if str_eq(command, "d") || str_eq(command, "dump") { Some(CommandType::Dump) }
        else if str_eq(command, "t") || str_eq(command, "tree") { Some(CommandType::Tree) }
        else if str_eq(command, "s") || str_eq(command, "strict") { Some(CommandType::Strict) }
        else if str_eq(command, "a") || str_eq(command, "analyze") { Some(CommandType::Analyze) }
        else { None }
    }

    pub fn get_priority(&self) -> (r: usize)
        ensures
            r == priority(*self),
    {
        match self {
            CommandType::Compile => 50,
            CommandType::Dump | CommandType::Tree | CommandType::Strict => 40,
            _ => 100,
        }
    }

    pub fn get_arg_count(&self) -> (r: isize)
        ensures
            r == arg_count(*self),
    {
        match self {
            CommandType::Version | CommandType::Binary | CommandType::Dump | CommandType::Strict
            | CommandType::Analyze | CommandType::Tree => 0,
            CommandType::Help => -1,
            _ => 1,
        }
    }

    /// The commands this one depends on: `--compile` for the options of a compilation.
    pub fn get_dependencies(&self) -> (r: Option<Vec<CommandType>>)
        ensures
            needs_compile(*self) ==> (r matches Some(v) && v@ == seq![CommandType::Compile]),
            !needs_compile(*self) ==> r is None,
    {
        match self {
            CommandType::Output | CommandType::Binary | CommandType::Tree | CommandType::Dump
            | CommandType::Analyze | CommandType::Strict => {
                let v = vec![CommandType::Compile];
                assert(v@ =~= seq![CommandType::Compile]);
                Some(v)
            },
            _ => None,
        }
    }
}

/// A command with its argument.
#[derive(Debug, PartialEq)]
pub struct Command {
    pub command_type: CommandType,
    pub arg: Option<String>,
}

/// The first command of the given kind, if any.
pub fn find_command(command_type: CommandType, commands: &[Command]) -> (r: Option<&Command>)
    ensures
        r is None <==> forall|i: int| 0 <= i < commands@.len() ==> commands@[i].command_type != command_type,
        r matches Some(c) ==> exists|i: int| 0 <= i < commands@.len() && commands@[i] == *c
            && c.command_type == command_type
            && forall|j: int| 0 <= j < i ==> commands@[j].command_type != command_type,
{
    let mut i: usize = 0;
    while i < commands.len()
        invariant
            i <= commands@.len(),
            forall|j: int| 0 <= j < i ==> commands@[j].command_type != command_type,
        decreases commands@.len() - i,
    {
        if commands[i].command_type == command_type {
            return Some(&commands[i]);
        }
        i = i + 1;
    }
    None
}

/// One help line: the usage in a field of 25 characters, a space, the text.
pub open spec fn help_line(usage: Seq<char>, text: Seq<char>) -> Seq<char> {
    pad_right(usage, 25) + seq![' '] + text
}

/// A help entry of two lines; the second is indented past the usage field.
pub open spec fn help_lines(usage: Seq<char>, text: Seq<char>, more: Seq<char>) -> Seq<char> {
    help_line(usage, text) + seq!['\n'] + pad_right(Seq::empty(), 25) + more
}

pub open spec fn help_text(c: CommandType) -> Seq<char> {
    match c {
        CommandType::Help => help_lines("[-h | --help] <command>"@, "Output help information for specified command"@, " or all if none specified."@),
        CommandType::Version => help_line("[-v | --version]"@, "Output current version information."@),
        CommandType::Compile => help_lines("[-c | --compile] <file>"@, "Compile the specified file. If no -o specified it"@, " will output to same directory with same file-name."@),
        CommandType::Output => help_line("[-o | --output] <file>"@, "Set the output file of the Compiled program."@),
        CommandType::Binary => help_lines("[-b | --binary]"@, "(Unsupported) Output the file as a binary instead"@, " of a logisim compatible file."@),
        CommandType::Dump => help_line("[-d | --dump]"@, "Output all tokens from the Compile target."@),
        CommandType::Tree => help_line("[-t | --tree]"@, "Output a statement heirchy of the Compile target."@),
        CommandType::Strict => help_lines("[-s | --strict]"@, "Strict flag | no register identifiers as labels and"@, " everything is case sensitive."@),
        CommandType::Analyze => help_lines("[-a | --analyze]"@, "Run trace analysis on the compiled program."@, "--"@),
    }
}

fn push_help_line(s: &mut String, usage: &str, text: &str)
    ensures
        final(s)@ == old(s)@ + help_line(usage@, text@),
{
    push_padded_right(s, usage, 25);
    push_char(s, ' ');
    push_str(s, text);
    assert(final(s)@ =~= old(s)@ + help_line(usage@, text@));
}

fn help_string_of(usage: &str, text: &str, more: Option<&str>) -> (r: String)
    ensures
        more is None ==> r@ == help_line(usage@, text@),
        more matches Some(m) ==> r@ == help_lines(usage@, text@, m@),
{
    let mut s = String::new();
    push_help_line(&mut s, usage, text);
    match more {
        None => {
            assert(s@ =~= help_line(usage@, text@));
        },
        Some(m) => {
            push_char(&mut s, '\n');
            proof {
                reveal_strlit("");
            }
            assert(""@ =~= Seq::<char>::empty());
            push_padded_right(&mut s, "", 25);
            push_str(&mut s, m);
            assert(s@ =~= help_lines(usage@, text@, m@));
        },
    }
    s
}

impl CommandType {
    /// The help entry of the command.
    pub fn get_help_string(&self) -> (r: String)
        ensures
            r@ == help_text(*self),
    {
        match self {
            CommandType::Help => help_string_of("[-h | --help] <command>", "Output help information for specified command", Some(" or all if none specified.")),
            CommandType::Version => help_string_of("[-v | --version]", "Output current version information.", None),
            CommandType::Compile => help_string_of("[-c | --compile] <file>", "Compile the specified file. If no -o specified it", Some(" will output to same directory with same file-name.")),
            CommandType::Output => help_string_of("[-o | --output] <file>", "Set the output file of the Compiled program.", None),
            CommandType::Binary => help_string_of("[-b | --binary]", "(Unsupported) Output the file as a binary instead", Some(" of a logisim compatible file.")),
            CommandType::Dump => help_string_of("[-d | --dump]", "Output all tokens from the Compile target.", None),
            CommandType::Tree => help_string_of("[-t | --tree]", "Output a statement heirchy of the Compile target.", None),
            CommandType::Strict => help_string_of("[-s | --strict]", "Strict flag | no register identifiers as labels and", Some(" everything is case sensitive.")),
            CommandType::Analyze => help_string_of("[-a | --analyze]", "Run trace analysis on the compiled program.", Some("--")),
        }
    }
}

/// The commands in the order the help table lists them.
pub open spec fn help_order() -> Seq<CommandType> {
    seq![
        CommandType::Help,
        CommandType::Version,
        CommandType::Compile,
        CommandType::Binary,
        CommandType::Output,
        CommandType::Dump,
        CommandType::Tree,
        CommandType::Strict,
        CommandType::Analyze,
    ]
}

/// The help table: each entry followed by a blank line.
pub open spec fn help_table(n: int) -> Seq<char>
    decreases n,
{
    if n <= 0 {
        Seq::empty()
    } else {
        help_table(n - 1) + help_text(help_order()[n - 1]) + "\n\n"@
    }
}

/// The help entries of all commands, each followed by a blank line.
pub fn all_help() -> (r: String)
    ensures
        r@ == help_table(9),
{
    let order = vec![
        CommandType::Help,
        CommandType::Version,
        CommandType::Compile,
        CommandType::Binary,
        CommandType::Output,
        CommandType::Dump,
        CommandType::Tree,
        CommandType::Strict,
        CommandType::Analyze,
    ];
    assert(order@ =~= help_order());
    let mut s = String::new();
    let mut i: usize = 0;
    while i < order.len()
        invariant
            order@ == help_order(),
            i <= 9,
            s@ == help_table(i as int),
        decreases 9 - i,
    {
        let h = order[i].get_help_string();
        push_str(&mut s, h.as_str());
        push_str(&mut s, "\n\n");
        i = i + 1;
    }
    s
}

/// A command as the contracts see it: its kind and its argument's text.
pub open spec fn command_view(c: Command) -> (CommandType, Option<Seq<char>>) {
    (c.command_type, match c.arg { Some(a) => Some(a@), None => None })
}

/// Reading commands from word `i` on: each word must name a command (with
/// its dashes); a command that takes an argument takes the next word, which
/// must not name a command; for `--help` the argument is optional.
pub open spec fn scan_commands(words: Seq<Seq<char>>, i: int) -> Option<Seq<(CommandType, Option<Seq<char>>)>>
    decreases words.len() - i,
{
    if i < 0 || i >= words.len() {
        Some(Seq::empty())
    } else {
        match command_of(words[i], true) {
            None => None,
            Some(c) => {
                let arg_next = i + 1 < words.len() && command_of(words[i + 1], true) is None;
                if arg_count(c) == 0 {
                    match scan_commands(words, i + 1) {
                        Some(rest) => Some(seq![(c, None::<Seq<char>>)] + rest),
                        None => None,
                    }
                } else if arg_count(c) == 1 && !arg_next {
                    None
                } else if arg_next {
                    match scan_commands(words, i + 2) {
                        Some(rest) => Some(seq![(c, Some(words[i + 1]))] + rest),
                        None => None,
                    }
                } else {
                    match scan_commands(words, i + 1) {
                        Some(rest) => Some(seq![(c, None::<Seq<char>>)] + rest),
                        None => None,
                    }
                }
            },
        }
    }
}

/// The test for commands of priority `p`.
pub open spec fn has_priority(p: usize) -> spec_fn((CommandType, Option<Seq<char>>)) -> bool {
    |c: (CommandType, Option<Seq<char>>)| priority(c.0) == p
}

/// Commands ordered by priority, keeping their order within a priority.
pub open spec fn by_priority(cs: Seq<(CommandType, Option<Seq<char>>)>) -> Seq<(CommandType, Option<Seq<char>>)> {
    cs.filter(has_priority(40)) + cs.filter(has_priority(50)) + cs.filter(has_priority(100))
}

/// The commands of a command line; a first word that names no command is the
/// program's own name and is skipped.
pub open spec fn commands_of(words: Seq<Seq<char>>) -> Option<Seq<(CommandType, Option<Seq<char>>)>> {
    let start = if words.len() > 0 && command_of(words[0], true) is None { 1int } else { 0int };
    match scan_commands(words, start) {
        None => None,
        Some(cs) => if cs.len() == 0 { None } else { Some(by_priority(cs)) },
    }
}

fn copy_command(c: &Command) -> (r: Command)
    ensures
        command_view(r) == command_view(*c),
{
    let arg = match &c.arg {
        Some(a) => Some(a.clone()),
        None => None,
    };
    Command { command_type: c.command_type, arg }
}

/// The commands of `cs` whose priority is `p`, in order, appended to `out`.
fn push_with_priority(out: &mut Vec<Command>, cs: &Vec<Command>, p: usize)
    ensures
        final(out)@.map_values(|c: Command| command_view(c)) == old(out)@.map_values(|c: Command| command_view(c))
            + cs@.map_values(|c: Command| command_view(c)).filter(has_priority(p)),
{
    let ghost f = has_priority(p);
    let ghost views = cs@.map_values(|c: Command| command_view(c));
    let mut i: usize = 0;
    while i < cs.len()
        invariant
            i <= cs@.len(),
            views == cs@.map_values(|c: Command| command_view(c)),
            f == has_priority(p),
            out@.map_values(|c: Command| command_view(c)) == old(out)@.map_values(|c: Command| command_view(c))
                + views.subrange(0, i as int).filter(f),
        decreases cs@.len() - i,
    {
        let ghost before = out@;
        assert(views.subrange(0, i + 1).drop_last() =~= views.subrange(0, i as int));
        proof {
            reveal(Seq::filter);
            assert(views.subrange(0, i + 1).last() == views[i as int]);
            assert(views[i as int] == command_view(cs@[i as int]));
        }
        if cs[i].command_type.get_priority() == p {
            out.push(copy_command(&cs[i]));
            assert(out@.map_values(|c: Command| command_view(c)) =~= before.map_values(|c: Command| command_view(c)).push(views[i as int]));
            proof {
                reveal(Seq::filter);
                assert(f(views[i as int]));
                assert(views.subrange(0, i + 1).filter(f) == views.subrange(0, i as int).filter(f).push(views[i as int]));
            }
        } else {
            assert(out@ == before);
            proof {
                reveal(Seq::filter);
                assert(!f(views[i as int]));
                assert(views.subrange(0, i + 1).filter(f) == views.subrange(0, i as int).filter(f));
            }
        }
        i = i + 1;
    }
    assert(views.subrange(0, cs@.len() as int) =~= views);
}

/// Read the commands of a command line (the program's name may come first)
/// and order them by priority.
pub fn parse_commands(args: &Vec<String>) -> (r: Result<Vec<Command>, String>)
    ensures
        r is Ok <==> commands_of(args@.map_values(|a: String| a@)) is Some,
        r matches Ok(cs) ==> cs@.map_values(|c: Command| command_view(c)) == commands_of(args@.map_values(|a: String| a@))->0,
{
    let ghost words = args@.map_values(|a: String| a@);
    let n = args.len();
    let mut i: usize = 0;
    assert(n > 0 ==> words[0] == args@[0]@);
    if n > 0 && CommandType::get_type(args[0].as_str(), true).is_none() {
        i = 1;
    }
    let ghost start = i as int;
    let mut scanned: Vec<Command> = Vec::new();
    while i < n
        invariant
            n == args@.len(),
            words == args@.map_values(|a: String| a@),
            start <= i <= n,
            words.len() == n,
            start == (if words.len() > 0 && command_of(words[0], true) is None { 1int } else { 0int }),
            scan_commands(words, start) == match scan_commands(words, i as int) {
                Some(rest) => Some(scanned@.map_values(|c: Command| command_view(c)) + rest),
                None => None::<Seq<(CommandType, Option<Seq<char>>)>>,
            },
        decreases n - i,
    {
        let ghost before = scanned@.map_values(|c: Command| command_view(c));
        let word = &args[i];
        assert(words[i as int] == word@);
        assert(i + 1 < n ==> words[i + 1] == args@[i + 1]@);
        match CommandType::get_type(word.as_str(), true) {
            None => {
                proof {
                    assert(scan_commands(words, i as int) is None);
                    assert(commands_of(words) is None);
                }
                let mut m = all_help();
                push_str(&mut m, "[");
                push_str(&mut m, word.as_str());
                push_str(&mut m, "] is not a valid command. use --help | -h for a list of valid commands.");
                return Err(m);
            },
            Some(c) => {
                let arg_next = i + 1 < n && CommandType::get_type(args[i + 1].as_str(), true).is_none();
                let count = c.get_arg_count();
                if count == 0 {
                    scanned.push(Command { command_type: c, arg: None });
                    i = i + 1;
                } else if count == 1 && !arg_next {
                    proof {
                        assert(scan_commands(words, i as int) is None);
                        assert(commands_of(words) is None);
                    }
                    let mut m = String::from_str("Expected an argument for command ");
                    push_str(&mut m, word.as_str());
                    return Err(m);
                } else if arg_next {
                    scanned.push(Command { command_type: c, arg: Some(args[i + 1].clone()) });
                    i = i + 2;
                } else {
                    scanned.push(Command { command_type: c, arg: None });
                    i = i + 1;
                }
                proof {
                    let v = scanned@.map_values(|c: Command| command_view(c));
                    assert(v =~= before.push(v.last()));
                    assert(seq![v.last()] + scan_commands(words, i as int).unwrap_or(Seq::empty()) =~= seq![v.last()] + scan_commands(words, i as int).unwrap_or(Seq::empty()));
                    match scan_commands(words, i as int) {
                        Some(rest) => {
                            assert(before + (seq![v.last()] + rest) =~= v + rest);
                        },
                        None => {},
                    }
                }
            },
        }
    }
    let ghost cs = scanned@.map_values(|c: Command| command_view(c));
    assert(cs + Seq::empty() =~= cs);
    if scanned.len() == 0 {
        return Err(String::from_str("No commands. use --help | -h for a list of valid commands."));
    }
    let mut out: Vec<Command> = Vec::new();
    push_with_priority(&mut out, &scanned, 40);
    push_with_priority(&mut out, &scanned, 50);
    push_with_priority(&mut out, &scanned, 100);
    assert(out@.map_values(|c: Command| command_view(c)) =~= by_priority(cs));
    Ok(out)
}

pub open spec fn command_name(c: CommandType) -> Seq<char> {
    match c {
        CommandType::Help => "Help"@,
        CommandType::Version => "Version"@,
        CommandType::Compile => "Compile"@,
        CommandType::Output => "Output"@,
        CommandType::Binary => "Binary"@,
        CommandType::Dump => "Dump"@,
        CommandType::Tree => "Tree"@,
        CommandType::Strict => "Strict"@,
        CommandType::Analyze => "Analyze"@,
    }
}

impl CommandType {
    /// The command's name, as messages show it.
    pub fn name(&self) -> (r: &'static str)
        ensures
            r@ == command_name(*self),
    {
        match self {
            CommandType::Help => "Help",
            CommandType::Version => "Version",
            CommandType::Compile => "Compile",
            CommandType::Output => "Output",
            CommandType::Binary => "Binary",
            CommandType::Dump => "Dump",
            CommandType::Tree => "Tree",
            CommandType::Strict => "Strict",
            CommandType::Analyze => "Analyze",
        }
    }
}

/// Whether every command that needs `--compile` has one beside it.
pub open spec fn dependencies_met(commands: Seq<Command>) -> bool {
    forall|i: int|
        0 <= i < commands.len() && needs_compile(#[trigger] commands[i].command_type) ==> exists|j: int|
            0 <= j < commands.len() && #[trigger] commands[j].command_type == CommandType::Compile
}

/// Check that each command's dependencies are present.
pub fn check_dependencies(commands: &[Command]) -> (r: Result<(), String>)
    ensures
        r is Ok <==> dependencies_met(commands@),
        r matches Err(m) ==> exists|i: int|
            0 <= i < commands@.len() && needs_compile(#[trigger] commands@[i].command_type)
                && m@ == "Dependency missing for ["@ + command_name(commands@[i].command_type)
                + "] command. required:Compile."@,
{
    let has_compile = find_command(CommandType::Compile, commands).is_some();
    let mut i: usize = 0;
    while i < commands.len()
        invariant
            i <= commands@.len(),
            has_compile <==> exists|j: int| 0 <= j < commands@.len() && #[trigger] commands@[j].command_type == CommandType::Compile,
            forall|k: int| 0 <= k < i ==> !needs_compile(#[trigger] commands@[k].command_type) || has_compile,
        decreases commands@.len() - i,
    {
        if !has_compile {
            match commands[i].command_type.get_dependencies() {
                Some(_) => {
                    let mut m = String::from_str("Dependency missing for [");
                    push_str(&mut m, commands[i].command_type.name());
                    push_str(&mut m, "] command. required:Compile.");
                    assert(commands@[i as int].command_type == commands[i as int].command_type);
                    return Err(m);
                },
                None => {},
            }
        }
        i = i + 1;
    }
    Ok(())
}

/// The switches a command line sets.
#[derive(PartialEq, Eq, Structural, Debug, Clone, Copy)]
pub struct Settings {
    pub binary: bool,
    pub dump_tokens: bool,
    pub show_tree: bool,
    pub strict: bool,
    pub analyze: bool,
}

/// Whether a command of the given kind is among the commands.
pub open spec fn has(commands: Seq<Command>, kind: CommandType) -> bool {
    exists|i: int| 0 <= i < commands.len() && #[trigger] commands[i].command_type == kind
}

/// The switches set by the commands.
pub fn settings_of(commands: &[Command]) -> (r: Settings)
    ensures
        r.binary == has(commands@, CommandType::Binary),
        r.dump_tokens == has(commands@, CommandType::Dump),
        r.show_tree == has(commands@, CommandType::Tree),
        r.strict == has(commands@, CommandType::Strict),
        r.analyze == has(commands@, CommandType::Analyze),
{
    Settings {
        binary: find_command(CommandType::Binary, commands).is_some(),
        dump_tokens: find_command(CommandType::Dump, commands).is_some(),
        show_tree: find_command(CommandType::Tree, commands).is_some(),
        strict: find_command(CommandType::Strict, commands).is_some(),
        analyze: find_command(CommandType::Analyze, commands).is_some(),
    }
}

/// What `--help` prints: a usage line, then the entry of the named command,
/// or the whole table (and a note when a name was given but not recognised).
pub fn help_for(arg: Option<&str>) -> (r: String)
    ensures
        ({
            let head = "format: (ttpc) [COMMAND] <Argument>\n"@;
            match arg {
                None => r@ == head + help_table(9),
                Some(a) => match command_of(a@, false) {
                    Some(c) => r@ == head + help_text(c),
                    None => r@ == head + help_table(9) + "\n"@ + a@ + " was not a recognized command!"@,
                },
            }
        }),
{
    let mut s = String::from_str("format: (ttpc) [COMMAND] <Argument>\n");
    match arg {
        None => {
            push_str(&mut s, all_help().as_str());
        },
        Some(a) => match CommandType::get_type(a, false) {
            Some(c) => {
                push_str(&mut s, c.get_help_string().as_str());
            },
            None => {
                push_str(&mut s, all_help().as_str());
                push_str(&mut s, "\n");
                push_str(&mut s, a);
                push_str(&mut s, " was not a recognized command!");
            },
        },
    }
    s
}

} // verus!
