//! Starting with Windows: whether it is on, what toggling it does, and the batch
//! file and registry entry that turn it on.

use vstd::prelude::*;

verus! {

/// The registry key under which programs start at login.
pub const RUN_KEY: &'static str = "HKCU\\Software\\Microsoft\\Windows\\CurrentVersion\\Run";

/// The name of the registry value and of the batch file.
pub const APP_NAME: &'static str = "DeskTrace";

/// Whether the app starts with Windows: only on Windows, when the startup batch
/// file exists.
pub fn is_enabled(on_windows: bool, startup_file_exists: bool) -> (r: bool)
    ensures
        r == (on_windows && startup_file_exists),
{
    on_windows && startup_file_exists
}

/// The change that toggling makes.
#[derive(Debug, Clone, Copy, PartialEq, Eq, Structural)]
pub enum StartupChange {
    Enable,
    Disable,
}

/// What toggling does when starting with Windows is `enabled`: it turns it off when
/// on and on when off, and reports the new state.
pub fn toggle(enabled: bool) -> (r: (StartupChange, bool))
    ensures
        r.0 == if enabled {
            StartupChange::Disable
        } else {
            StartupChange::Enable
        },
        r.1 == toggled(enabled),
{
    if enabled {
        (StartupChange::Disable, false)
    } else {
        (StartupChange::Enable, true)
    }
}

/// The state toggling leads to.
pub open spec fn toggled(enabled: bool) -> bool {
    if enabled {
        false
    } else {
        true
    }
}

/// Toggling flips the state, so toggling twice restores it.
pub proof fn law_toggle_twice_restores(enabled: bool)
    ensures
        toggled(enabled) == !enabled,
        toggled(toggled(enabled)) == enabled,
{
}

/// The startup batch file that starts `exe`: `start "" "<exe>"` and a CRLF.
pub fn startup_script(exe: &str) -> (r: String)
    ensures
        r@ == "start \"\" \""@ + exe@ + "\"\r\n"@,
{
    let mut body = "start \"\" \"".to_owned();
    body.append(exe);
    body.append("\"\r\n");
    body
}

/// The `reg` arguments that make `exe` start at login.
pub fn enable_registry_args(exe: &str) -> (r: Vec<String>)
    ensures
        r@.len() == 9,
        r@[0]@ == "add"@,
        r@[1]@ == RUN_KEY@,
        r@[2]@ == "/v"@,
        r@[3]@ == APP_NAME@,
        r@[4]@ == "/t"@,
        r@[5]@ == "REG_SZ"@,
        r@[6]@ == "/d"@,
        r@[7]@ == exe@,
        r@[8]@ == "/f"@,
{
    let mut args: Vec<String> = Vec::new();
    args.push("add".to_owned());
    args.push(RUN_KEY.to_owned());
    args.push("/v".to_owned());
    args.push(APP_NAME.to_owned());
    args.push("/t".to_owned());
    args.push("REG_SZ".to_owned());
    args.push("/d".to_owned());
    args.push(exe.to_owned());
    args.push("/f".to_owned());
    args
}

/// The `reg` arguments that stop the app starting at login.
pub fn disable_registry_args() -> (r: Vec<String>)
    ensures
        r@.len() == 5,
        r@[0]@ == "delete"@,
        r@[1]@ == RUN_KEY@,
        r@[2]@ == "/v"@,
        r@[3]@ == APP_NAME@,
        r@[4]@ == "/f"@,
{
    let mut args: Vec<String> = Vec::new();
    args.push("delete".to_owned());
    args.push(RUN_KEY.to_owned());
    args.push("/v".to_owned());
    args.push(APP_NAME.to_owned());
    args.push("/f".to_owned());
    args
}

} // verus!
