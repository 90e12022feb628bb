use vstd::prelude::*;
use vstd::string::*;

verus! {

/// Printed after the user `Path` got the new entry.
pub const VARIABLE_SET: &'static str = "* Environment variable set successfully";

/// Printed when the user `Path` already held the entry.
pub const VARIABLE_SET_BEFORE: &'static str = "____Environment variable set before";

/// Printed after the service was installed.
pub const SERVICE_INSTALLED: &'static str = "* Service installed successfully.";

/// Printed after the service was started.
pub const SERVICE_STARTED: &'static str = "* Service run successfully.";

/// Printed after the service was stopped.
pub const SERVICE_STOPPED: &'static str = "* Service stopped successfully.";

/// Printed after the service was deleted.
pub const SERVICE_DELETED: &'static str =
    "* Service deleted successfully. restart your system for apply cahnge";

/// Printed, followed by the error, when installing failed.
pub const INSTALL_FAILED: &'static str = "____Failed to install service";

/// Printed, followed by the error, when starting failed.
pub const START_FAILED: &'static str = "___Failed to start service";

/// Printed, followed by the error, when stopping failed.
pub const STOP_FAILED: &'static str = "____Failed to stop service";

/// Printed, followed by the error, when deleting failed.
pub const DELETE_FAILED: &'static str = "____Failed to delete service";

/// Printed for a command that is not known.
pub const USAGE: &'static str =
    "Invalid command. Use 'start_service' '-- install_service', '--stop_service','--set_variable' or '--delete_service'.";

/// The commands that the program accepts as its argument.
#[derive(Debug, Clone, Copy, PartialEq, Eq)]
pub enum Command {
    SetVariable,
    InstallService,
    StartService,
    StopService,
    DeleteService,
    Unknown,
}

/// The command that the argument `s` names.
pub open spec fn command_named(s: Seq<char>) -> Command {
    if s == "set_variable"@ {
        Command::SetVariable
    } else if s == "install_service"@ {
        Command::InstallService
    } else if s == "start_service"@ {
        Command::StartService
    } else if s == "stop_service"@ {
        Command::StopService
    } else if s == "delete_service"@ {
        Command::DeleteService
    } else {
        Command::Unknown
    }
}

/// What is printed after `c` has run without error; for `SetVariable`,
/// `changed` tells whether the `Path` got the entry.
pub open spec fn success_text(c: Command, changed: bool) -> &'static str {
    match c {
        Command::SetVariable => if changed {
            VARIABLE_SET
        } else {
            VARIABLE_SET_BEFORE
        },
        Command::InstallService => SERVICE_INSTALLED,
        Command::StartService => SERVICE_STARTED,
        Command::StopService => SERVICE_STOPPED,
        Command::DeleteService => SERVICE_DELETED,
        Command::Unknown => USAGE,
    }
}

/// What is printed before the error when `c` fails; none for the commands
/// whose failure is not reported that way.
pub open spec fn failure_text(c: Command) -> Option<&'static str> {
    match c {
        Command::InstallService => Some(INSTALL_FAILED),
        Command::StartService => Some(START_FAILED),
        Command::StopService => Some(STOP_FAILED),
        Command::DeleteService => Some(DELETE_FAILED),
        _ => None,
    }
}

/// The five command names are pairwise different.
pub proof fn lemma_command_names_distinct()
    ensures
        "set_variable"@ != "install_service"@,
        "set_variable"@ != "start_service"@,
        "set_variable"@ != "stop_service"@,
        "set_variable"@ != "delete_service"@,
        "install_service"@ != "start_service"@,
        "install_service"@ != "stop_service"@,
        "install_service"@ != "delete_service"@,
        "start_service"@ != "stop_service"@,
        "start_service"@ != "delete_service"@,
        "stop_service"@ != "delete_service"@,
{
    reveal_strlit("set_variable");
    reveal_strlit("install_service");
    reveal_strlit("start_service");
    reveal_strlit("stop_service");
    reveal_strlit("delete_service");
    assert("set_variable"@.len() == 12);
    assert("install_service"@.len() == 15);
    assert("start_service"@.len() == 13);
    assert("stop_service"@.len() == 12);
    assert("delete_service"@.len() == 14);
    assert("set_variable"@[1] != "stop_service"@[1]);
}

/// An argument names a command exactly when it is that command's name,
/// character for character; every other argument is unknown.
pub proof fn lemma_command_named_exactly(s: Seq<char>)
    ensures
        (command_named(s) == Command::SetVariable) <==> s == "set_variable"@,
        (command_named(s) == Command::InstallService) <==> s == "install_service"@,
        (command_named(s) == Command::StartService) <==> s == "start_service"@,
        (command_named(s) == Command::StopService) <==> s == "stop_service"@,
        (command_named(s) == Command::DeleteService) <==> s == "delete_service"@,
        (command_named(s) == Command::Unknown) <==> (s != "set_variable"@ && s
            != "install_service"@ && s != "start_service"@ && s != "stop_service"@ && s
            != "delete_service"@),
{
    lemma_command_names_distinct();
}

/// The command that `args` names; `Unknown` when it names none.
pub fn parse_command(args: &str) -> (c: Command)
    ensures
        c == command_named(args@),
        (c == Command::SetVariable) <==> args@ == "set_variable"@,
        (c == Command::InstallService) <==> args@ == "install_service"@,
        (c == Command::StartService) <==> args@ == "start_service"@,
        (c == Command::StopService) <==> args@ == "stop_service"@,
        (c == Command::DeleteService) <==> args@ == "delete_service"@,
{
    proof {
        lemma_command_named_exactly(args@);
    }
    let a = args.to_owned();
    if a == String::from_str("set_variable") {
        Command::SetVariable
    } else if a == String::from_str("install_service") {
        Command::InstallService
    } else if a == String::from_str("start_service") {
        Command::StartService
    } else if a == String::from_str("stop_service") {
        Command::StopService
    } else if a == String::from_str("delete_service") {
        Command::DeleteService
    } else {
        Command::Unknown
    }
}

impl Command {
    /// What is printed after the command has run without error.
    pub fn success_message(&self, changed: bool) -> (m: &'static str)
        ensures
            m == success_text(*self, changed),
    {
        match self {
            Command::SetVariable => if changed {
                VARIABLE_SET
            } else {
                VARIABLE_SET_BEFORE
            },
            Command::InstallService => SERVICE_INSTALLED,
            Command::StartService => SERVICE_STARTED,
            Command::StopService => SERVICE_STOPPED,
            Command::DeleteService => SERVICE_DELETED,
            Command::Unknown => USAGE,
        }
    }

    /// What is printed before the error when the command fails.
    pub fn failure_message(&self) -> (m: Option<&'static str>)
        ensures
            m == failure_text(*self),
    {
        match self {
            Command::InstallService => Some(INSTALL_FAILED),
            Command::StartService => Some(START_FAILED),
            Command::StopService => Some(STOP_FAILED),
            Command::DeleteService => Some(DELETE_FAILED),
            _ => None,
        }
    }
}

} // verus!
