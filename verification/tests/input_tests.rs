use russel::input::{parse_command, Command, USAGE};

#[test]
fn commands_are_recognised() {
    assert_eq!(parse_command("set_variable"), Command::SetVariable);
    assert_eq!(parse_command("install_service"), Command::InstallService);
    assert_eq!(parse_command("start_service"), Command::StartService);
    assert_eq!(parse_command("stop_service"), Command::StopService);
    assert_eq!(parse_command("delete_service"), Command::DeleteService);
}

#[test]
fn other_arguments_are_unknown() {
    assert_eq!(parse_command(""), Command::Unknown);
    assert_eq!(parse_command("--install_service"), Command::Unknown);
    assert_eq!(parse_command("set_variable "), Command::Unknown);
    assert_eq!(parse_command("Start_service"), Command::Unknown);
}

#[test]
fn messages_follow_the_command() {
    assert_eq!(
        Command::SetVariable.success_message(true),
        "* Environment variable set successfully"
    );
    assert_eq!(
        Command::SetVariable.success_message(false),
        "____Environment variable set before"
    );
    assert_eq!(
        Command::InstallService.success_message(true),
        "* Service installed successfully."
    );
    assert_eq!(Command::StartService.success_message(true), "* Service run successfully.");
    assert_eq!(Command::StopService.success_message(true), "* Service stopped successfully.");
    assert_eq!(
        Command::DeleteService.success_message(true),
        "* Service deleted successfully. restart your system for apply cahnge"
    );
    assert_eq!(Command::Unknown.success_message(true), USAGE);
    assert!(USAGE.starts_with("Invalid command."));
}

#[test]
fn failures_have_their_prefix() {
    assert_eq!(
        Command::InstallService.failure_message(),
        Some("____Failed to install service")
    );
    assert_eq!(Command::StartService.failure_message(), Some("___Failed to start service"));
    assert_eq!(Command::StopService.failure_message(), Some("____Failed to stop service"));
    assert_eq!(
        Command::DeleteService.failure_message(),
        Some("____Failed to delete service")
    );
    assert_eq!(Command::SetVariable.failure_message(), None);
    assert_eq!(Command::Unknown.failure_message(), None);
}
