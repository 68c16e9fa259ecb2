use std::time::Duration;

use ringi::exec::{minimal_base_env, ExecError, Output};
use ringi::verify::{command_passed, CommandVerification, Verdict, VerifyCommand};

fn cmd(program: &str) -> VerifyCommand {
    VerifyCommand::new(program, Vec::new(), Duration::from_secs(5))
}

fn exited(code: i32) -> Result<Output, ExecError> {
    Ok(Output { exit_code: Some(code), stdout: String::new(), stderr: String::new() })
}

#[test]
fn all_commands_pass_is_green() {
    let verifier = CommandVerification::new(vec![cmd("a.sh"), cmd("b.sh")], "/ws");
    assert_eq!(verifier.verdict_after(&vec![exited(0)]), None);
    assert_eq!(verifier.verdict_after(&vec![exited(0), exited(0)]), Some(Verdict::Pass));
}

#[test]
fn any_failing_command_is_red() {
    let verifier = CommandVerification::new(vec![cmd("a.sh"), cmd("b.sh")], "/ws");
    assert_eq!(verifier.verdict_after(&vec![exited(3)]), Some(Verdict::Fail));
    assert_eq!(verifier.verdict_after(&vec![exited(0), exited(1)]), Some(Verdict::Fail));
}

#[test]
fn a_spawn_failure_is_red() {
    let spawn = Err(ExecError::Spawn(std::io::Error::new(std::io::ErrorKind::NotFound, "missing")));
    assert!(!command_passed(&spawn));
    let verifier = CommandVerification::new(vec![cmd("missing")], "/ws");
    assert_eq!(verifier.verdict_after(&vec![spawn]), Some(Verdict::Fail));
}

#[test]
fn a_timeout_is_red() {
    assert!(!command_passed(&Err(ExecError::TimedOut)));
    let killed = Ok(Output { exit_code: None, stdout: String::new(), stderr: String::new() });
    assert!(!command_passed(&killed));
}

#[test]
fn no_command_is_vacuously_green() {
    let verifier = CommandVerification::new(vec![], "/ws");
    assert_eq!(verifier.verdict_after(&vec![]), Some(Verdict::Pass));
    assert_eq!(verifier.workspace(), "/ws");
    assert!(verifier.commands().is_empty());
}

#[test]
fn the_base_environment_is_a_locale_and_the_path_only() {
    let env = minimal_base_env(Some("/usr/bin".to_string()));
    assert_eq!(
        env,
        vec![
            ("LANG".to_string(), "C".to_string()),
            ("PATH".to_string(), "/usr/bin".to_string())
        ]
    );
    assert_eq!(minimal_base_env(None), vec![("LANG".to_string(), "C".to_string())]);
}
