use ferrowl::ocpp::commands::{
    client_command_table, client_commands, parse_client_command, parse_server_command,
    server_command_table, server_commands, OcppClientCmd, OcppServerCmd,
};

#[test]
fn ut_server_commands_parse_aliases_and_arguments() {
    assert!(matches!(parse_server_command("start"), Some(OcppServerCmd::Start)));
    assert!(matches!(parse_server_command("  stop  "), Some(OcppServerCmd::Stop)));
    assert!(matches!(parse_server_command("restart"), Some(OcppServerCmd::Restart)));
    assert!(matches!(parse_server_command("e"), Some(OcppServerCmd::Edit)));
    assert!(matches!(parse_server_command("edit"), Some(OcppServerCmd::Edit)));
    assert!(matches!(parse_server_command("compact"), Some(OcppServerCmd::Compact)));
    assert!(matches!(parse_server_command("wd"), Some(OcppServerCmd::WriteDevice(None))));
    match parse_server_command("write-device  dev.toml ") {
        Some(OcppServerCmd::WriteDevice(Some(p))) => assert_eq!(p, "dev.toml"),
        _ => panic!("write-device takes a path"),
    }
    match parse_server_command("log out.log") {
        Some(OcppServerCmd::Log(Some(p))) => assert_eq!(p, "out.log"),
        _ => panic!("log takes a file"),
    }
    match parse_server_command("rfid add  TAG1") {
        Some(OcppServerCmd::Rfid(Some(sub))) => assert_eq!(sub, "add  TAG1"),
        _ => panic!("rfid takes a subcommand"),
    }
    assert!(matches!(parse_server_command("rfid"), Some(OcppServerCmd::Rfid(None))));
    assert!(parse_server_command("startx").is_none());
    assert!(parse_server_command("").is_none());
}

#[test]
fn ut_client_commands_parse_aliases_and_arguments() {
    assert!(matches!(parse_client_command("edit"), Some(OcppClientCmd::Edit)));
    assert!(matches!(parse_client_command("start"), Some(OcppClientCmd::Start)));
    assert!(matches!(parse_client_command("stop"), Some(OcppClientCmd::Stop)));
    assert!(matches!(parse_client_command("restart"), Some(OcppClientCmd::Restart)));
    assert!(matches!(parse_client_command("compact"), Some(OcppClientCmd::Compact)));
    match parse_client_command("wd a b.toml") {
        Some(OcppClientCmd::WriteDevice(Some(p))) => assert_eq!(p, "a b.toml"),
        _ => panic!("wd takes a path"),
    }
    assert!(matches!(parse_client_command("log"), Some(OcppClientCmd::Log(None))));
    assert!(parse_client_command("rfid add X").is_none());
}

#[test]
fn ut_command_help_lists() {
    let server: Vec<&str> = server_commands().iter().map(|d| d.name).collect();
    assert_eq!(
        server,
        vec![
            ":start",
            ":stop",
            ":restart",
            ":e | :edit",
            ":wd | :write-device [path]",
            ":compact",
            ":log [file]",
            ":rfid [add|del <tag> | clear]",
            "d",
            "Enter",
        ]
    );
    let client: Vec<&str> = client_commands().iter().map(|d| d.name).collect();
    assert_eq!(client.len(), 7);
    assert_eq!(client[0], ":e | :edit");
    assert_eq!(server_command_table().len(), 8);
    assert_eq!(client_command_table()[5].0, ["wd", "write-device"]);
}
