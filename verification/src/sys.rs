//! What a finished external command hands back, and the argument lists of
//! the commands that the library has run.
use vstd::prelude::*;

verus! {

/// Exit code and captured output of a finished command.
pub struct CommandOutput {
    pub exit_code: Option<i32>,
    pub stdout: String,
    pub stderr: String,
}

/// The command exited with code 0 (a missing code counts as a failure).
pub open spec fn exited_ok(o: &CommandOutput) -> bool {
    o.exit_code == Some(0i32)
}

pub fn command_succeeded(o: &CommandOutput) -> (b: bool)
    ensures
        b == exited_ok(o),
{
    match o.exit_code {
        Some(c) => c == 0,
        None => false,
    }
}

/// The arguments with which `powershell.exe` runs a script: no logo, no
/// profile, non-interactive, execution policy bypassed.
pub open spec fn powershell_args_spec(script: Seq<char>) -> Seq<Seq<char>> {
    seq![
        "-NoLogo"@,
        "-NoProfile"@,
        "-NonInteractive"@,
        "-ExecutionPolicy"@,
        "Bypass"@,
        "-Command"@,
        script,
    ]
}

pub fn powershell_args(script: &str) -> (r: Vec<String>)
    ensures
        r@.map_values(|s: String| s@) == powershell_args_spec(script@),
{
    let mut r: Vec<String> = Vec::new();
    r.push("-NoLogo".to_owned());
    r.push("-NoProfile".to_owned());
    r.push("-NonInteractive".to_owned());
    r.push("-ExecutionPolicy".to_owned());
    r.push("Bypass".to_owned());
    r.push("-Command".to_owned());
    r.push(script.to_owned());
    proof {
        assert(r@.map_values(|s: String| s@) =~= powershell_args_spec(script@));
    }
    r
}

} // verus!
