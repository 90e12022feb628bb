use vstd::prelude::*;
use vstd::string::*;

verus! {

/// The name under which the service is registered.
pub const SERVICE_NAME: &'static str = "MyServiceName";

/// The argument list handed to `nssm` to register the executable `exe` as
/// the service: `nssm.exe install MyServiceName, "<exe>"`.
pub fn install_arguments(exe: &str) -> (args: String)
    ensures
        args@ == "nssm.exe install "@ + SERVICE_NAME@ + ", \""@ + exe@ + "\""@,
{
    let mut args = String::from_str("nssm.exe install ");
    args.append(SERVICE_NAME);
    args.append(", \"");
    args.append(exe);
    args.append("\"");
    args
}

/// The argument list handed to `nssm` to apply `verb` (`start`, `stop`,
/// `remove`) to the service: `nssm.exe <verb> MyServiceName`.
pub fn service_arguments(verb: &str) -> (args: String)
    ensures
        args@ == "nssm.exe "@ + verb@ + " "@ + SERVICE_NAME@,
{
    let mut args = String::from_str("nssm.exe ");
    args.append(verb);
    args.append(" ");
    args.append(SERVICE_NAME);
    args
}

} // verus!
