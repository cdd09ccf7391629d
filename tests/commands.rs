use ttpc::cli::{find_command, parse_commands, all_help, CommandType};

fn words(v: &[&str]) -> Vec<String> {
    v.iter().map(|s| s.to_string()).collect()
}

#[test]
fn commands_sorted_by_priority() {
    let cs = parse_commands(&words(&["ttpc", "-c", "prog.ttpasm", "-a", "-s"])).unwrap();
    let kinds: Vec<CommandType> = cs.iter().map(|c| c.command_type).collect();
    assert_eq!(kinds, vec![CommandType::Strict, CommandType::Compile, CommandType::Analyze]);
    assert_eq!(cs[1].arg.as_deref(), Some("prog.ttpasm"));
    assert!(find_command(CommandType::Compile, &cs).is_some());
    assert!(find_command(CommandType::Output, &cs).is_none());
}

#[test]
fn command_errors() {
    assert!(parse_commands(&words(&["ttpc"])).is_err());
    assert!(parse_commands(&words(&["ttpc", "-c"])).is_err());
    assert!(parse_commands(&words(&["ttpc", "-c", "-s"])).is_err());
    assert!(parse_commands(&words(&["ttpc", "-x"])).is_err());
}

#[test]
fn help_takes_an_optional_argument() {
    let cs = parse_commands(&words(&["-h", "compile"])).unwrap();
    assert_eq!(cs[0].arg.as_deref(), Some("compile"));
    let cs = parse_commands(&words(&["-h", "-v"])).unwrap();
    assert_eq!(cs.len(), 2);
    assert_eq!(cs[0].arg, None);
}

#[test]
fn command_tables() {
    assert_eq!(CommandType::get_type("--tree", true), Some(CommandType::Tree));
    assert_eq!(CommandType::get_type("tree", true), None);
    assert_eq!(CommandType::get_type("tree", false), Some(CommandType::Tree));
    assert_eq!(CommandType::Compile.get_priority(), 50);
    assert_eq!(CommandType::Dump.get_priority(), 40);
    assert_eq!(CommandType::Help.get_arg_count(), -1);
    assert_eq!(CommandType::Output.get_arg_count(), 1);
    assert_eq!(CommandType::Output.get_dependencies(), Some(vec![CommandType::Compile]));
    assert_eq!(CommandType::Version.get_dependencies(), None);
    assert_eq!(
        CommandType::Version.get_help_string(),
        "[-v | --version]          Output current version information."
    );
    assert!(all_help().starts_with("[-h | --help] <command>"));
}
