use std::time::Duration;

use ringi::config::{AgentConfig, CommandConfig, RunFileConfig};
use uuid::Uuid;

fn file(program: &str, args: &[&str], timeout_secs: u64, verification: Vec<CommandConfig>) -> RunFileConfig {
    RunFileConfig {
        agent: AgentConfig {
            program: program.to_string(),
            args: args.iter().map(|s| s.to_string()).collect(),
            timeout_secs,
        },
        verification,
    }
}

fn command(program: &str, args: &[&str], timeout_secs: u64) -> CommandConfig {
    CommandConfig {
        program: program.to_string(),
        args: args.iter().map(|s| s.to_string()).collect(),
        timeout_secs,
    }
}

#[test]
fn a_well_formed_config_parses_and_converts() {
    let file = file(
        "agent",
        &["--json"],
        120,
        vec![command("cargo", &["test"], 300), command("cargo", &["clippy"], 60)],
    );
    let config = file.into_run_config("/tmp/ws", "do it".to_string());

    assert_eq!(config.agent_program, "agent");
    assert_eq!(config.agent_args, vec!["--json"]);
    assert_eq!(config.task, "do it");
    assert_eq!(config.timeout, Duration::from_secs(120));
    assert_eq!(config.verification.len(), 2);
    assert_eq!(config.verification[0].program, "cargo");
    assert_eq!(config.verification[0].args, vec!["test"]);
    assert_eq!(config.verification[1].timeout, Duration::from_secs(60));
    assert!(!config.run_id.is_empty());
}

#[test]
fn the_run_id_is_deterministic_over_workspace_and_task() {
    let mk = || file("a", &[], 1, vec![]).into_run_config("/ws", "task".to_string()).run_id;
    assert_eq!(mk(), mk(), "same workspace + task yields the same run id");
}

#[test]
fn the_run_id_is_the_v5_uuid_of_workspace_and_task() {
    let config = file("a", &[], 1, vec![]).into_run_config("/ws", "task".to_string());
    let expected = Uuid::new_v5(&Uuid::NAMESPACE_OID, b"/ws\ntask").to_string();
    assert_eq!(config.run_id, expected);
    let other = file("a", &[], 1, vec![]).into_run_config("/ws", "other".to_string());
    assert_ne!(config.run_id, other.run_id);
    assert_eq!(config.workspace, "/ws");
}
