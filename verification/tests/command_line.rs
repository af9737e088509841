use hyveos::command_line::{
    families, family_of_line, line_action_of, parse_ports, parse_u16, FamilyId, IntErrorKind,
    KadBootstrapCommand, KadCommands, KadGetCommand, KadGetProvidersCommand, KadProvideCommand,
    KadPutCommand, LineAction, MeIdCommand, ScriptDeploySelfCommand, ScriptStopAllCommand,
};

#[test]
fn test_kad_put_command() {
    let input = ["KAD", "PUT", "key", "value"];
    assert!(KadPutCommand.is_command(&input));
    let m = KadPutCommand.help_message().into_iter().next().unwrap().example_use;
    assert_eq!(m, "KAD PUT key value");
}

#[test]
fn test_kad_get_command() {
    let input = ["KAD", "GET", "key"];
    assert!(KadGetCommand.is_command(&input));
    let m = KadGetCommand.help_message().into_iter().next().unwrap().example_use;
    assert_eq!(m, "KAD GET key");
}

#[test]
fn test_kad_bootstrap_command() {
    let input = ["KAD", "BOOT"];
    assert!(KadBootstrapCommand.is_command(&input));
    let m = KadBootstrapCommand.help_message().into_iter().next().unwrap().example_use;
    assert_eq!(m, "KAD BOOT");
}

#[test]
fn test_kad_provide_command() {
    let input = ["KAD", "PROVIDE", "key"];
    assert!(KadProvideCommand.is_command(&input));
    let m = KadProvideCommand.help_message().into_iter().next().unwrap().example_use;
    assert_eq!(m, "KAD PROVIDE key");
}

#[test]
fn test_kad_get_providers_command() {
    let input = ["KAD", "PROVIDERS", "key"];
    assert!(KadGetProvidersCommand.is_command(&input));
    let m = KadGetProvidersCommand.help_message().into_iter().next().unwrap().example_use;
    assert_eq!(m, "KAD PROVIDERS key");
}

#[test]
fn words_are_matched_without_case_but_counted() {
    assert!(KadPutCommand.is_command(&["kad", "put", "k", "v"]));
    assert!(!KadPutCommand.is_command(&["KAD", "PUT", "k"]));
    assert!(!KadPutCommand.is_command(&["KAD", "PUT", "k", "v", "extra"]));
    assert!(!KadGetCommand.is_command(&["KAD", "PUT", "k"]));
}

#[test]
fn help_message_gives_prefix_example_and_description() {
    let m = ScriptDeploySelfCommand.help_message().into_iter().next().unwrap();
    assert_eq!(m.completion_prefix, "SCRIPT DEPLOY SELF");
    assert_eq!(m.example_use, "SCRIPT DEPLOY SELF image ports");
    let m = MeIdCommand.help_message().into_iter().next().unwrap();
    assert_eq!(m.completion_prefix, "ME ID");
    assert_eq!(m.example_use, "ME ID");
}

#[test]
fn family_lookup_by_prefix() {
    assert_eq!(family_of_line("KAD GET x"), Some(FamilyId::Kad));
    assert_eq!(family_of_line("ME ID"), Some(FamilyId::Me));
    assert_eq!(family_of_line("kad get x"), None);
    assert_eq!(family_of_line("HELLO"), None);
    assert_eq!(families().len(), 7);
    assert!(KadCommands.is_command(&["KAD", "BOOT"]));
    assert!(!KadCommands.is_command(&["KAD", "NOPE"]));
}

#[test]
fn line_actions() {
    assert!(matches!(line_action_of(""), LineAction::Skip));
    assert!(matches!(line_action_of("KAD HELP"), LineAction::Help(FamilyId::Kad)));
    assert!(matches!(line_action_of("KAD NOPE"), LineAction::Invalid(FamilyId::Kad)));
    assert!(matches!(line_action_of("WHAT"), LineAction::Unknown));
    match line_action_of("KAD PUT  alpha   beta") {
        LineAction::Run { command, args } => {
            assert_eq!(command, KadPutCommand);
            assert_eq!(args, vec!["alpha".to_string(), "beta".to_string()]);
        }
        _ => panic!("expected a command to run"),
    }
    match line_action_of("SCRIPT STOP ALL self") {
        LineAction::Run { command, args } => {
            assert_eq!(command, ScriptStopAllCommand);
            assert_eq!(args, vec!["self".to_string()]);
        }
        _ => panic!("expected a command to run"),
    }
}

#[test]
fn help_lines_are_a_padded_table() {
    let lines = FamilyId::Me.help_lines();
    assert_eq!(lines[0], "Me Commands:");
    assert_eq!(lines.len(), 3);
    assert_eq!(lines[1], format!("  Example  {}Description  ", " ".repeat(12)));
    assert_eq!(lines[2], "  ME ID  Print the local peer ID  ");
}

#[test]
fn ports_parse_like_str_parse() {
    assert_eq!(parse_ports("80,443").unwrap(), vec![80u16, 443u16]);
    assert_eq!(parse_ports("8080").unwrap(), vec![8080u16]);
    assert_eq!(parse_ports("").unwrap_err().kind, IntErrorKind::Empty);
    assert_eq!(parse_ports("80,x").unwrap_err().kind, IntErrorKind::InvalidDigit);
    assert_eq!(parse_ports("70000").unwrap_err().kind, IntErrorKind::PosOverflow);
    assert_eq!(parse_u16("+7").unwrap(), 7);
    assert_eq!(parse_u16("-").unwrap_err().kind, IntErrorKind::InvalidDigit);
    assert_eq!(parse_u16("65535").unwrap(), 65535);
}
