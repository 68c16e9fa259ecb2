//! What a finished subprocess reports. Spawning (program and arguments, never a shell, over a
//! minimized environment, bounded by a timeout) is the application's; the library states what
//! comes back.

use vstd::prelude::*;

verus! {

/// The captured result of a finished subprocess: the process *ran*; whether its exit status
/// is acceptable is the caller's judgment.
#[derive(Clone, Debug)]
pub struct Output {
    /// The process exit code, if the process exited normally.
    pub exit_code: Option<i32>,
    /// Captured standard output.
    pub stdout: String,
    /// Captured standard error.
    pub stderr: String,
}

/// An infrastructure failure running a subprocess, distinct from the process exiting non-zero
/// (which is reported in [`Output`], not raised).
#[derive(Debug)]
pub enum ExecError {
    /// The process could not be spawned.
    Spawn(std::io::Error),
    /// The process did not exit within its timeout and was terminated.
    TimedOut,
    /// An I/O failure while communicating with the process.
    Io(std::io::Error),
}

/// The base environment handed to every spawned process: a stable locale, and the parent's
/// `PATH` when it has one (so programs resolve) — nothing else, so ambient secrets do not leak.
pub fn minimal_base_env(path: Option<String>) -> (env: Vec<(String, String)>)
    ensures
        env@.len() == if path is Some { 2int } else { 1int },
        env@[0].0@ == "LANG"@ && env@[0].1@ == "C"@,
        path matches Some(p) ==> env@[1].0@ == "PATH"@ && env@[1].1@ == p@,
{
    let mut env: Vec<(String, String)> = Vec::new();
    env.push((String::from_str("LANG"), String::from_str("C")));
    match path {
        Some(p) => {
            env.push((String::from_str("PATH"), p));
        },
        None => {},
    }
    env
}

} // verus!
