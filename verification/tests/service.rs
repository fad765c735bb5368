use t2_fancontrol::error::FanControlError;
use t2_fancontrol::service::{set_autostart, AutostartStep, SystemctlOutcome};

fn words(ws: &[&str]) -> Vec<String> {
    ws.iter().map(|w| w.to_string()).collect()
}

#[test]
fn enabling_runs_reload_then_enable() {
    let mut outcomes = Vec::new();
    assert_eq!(set_autostart(true, &outcomes), AutostartStep::Run(words(&["daemon-reload"])));
    outcomes.push(SystemctlOutcome::Succeeded);
    assert_eq!(
        set_autostart(true, &outcomes),
        AutostartStep::Run(words(&["enable", "--now", "t2-fancontrol.service"]))
    );
    outcomes.push(SystemctlOutcome::Succeeded);
    assert_eq!(set_autostart(true, &outcomes), AutostartStep::Finished(Ok(())));
}

#[test]
fn disabling_runs_disable_then_reload() {
    let mut outcomes = Vec::new();
    assert_eq!(
        set_autostart(false, &outcomes),
        AutostartStep::Run(words(&["disable", "--now", "t2-fancontrol.service"]))
    );
    outcomes.push(SystemctlOutcome::Succeeded);
    assert_eq!(set_autostart(false, &outcomes), AutostartStep::Run(words(&["daemon-reload"])));
    outcomes.push(SystemctlOutcome::Succeeded);
    assert_eq!(set_autostart(false, &outcomes), AutostartStep::Finished(Ok(())));
}

#[test]
fn failed_command_is_reported_with_trimmed_stderr() {
    let outcomes = vec![
        SystemctlOutcome::Succeeded,
        SystemctlOutcome::Failed("  Failed to enable unit: Access denied\n".to_string()),
    ];
    assert_eq!(
        set_autostart(true, &outcomes),
        AutostartStep::Finished(Err(FanControlError::CommandFailed {
            command: "systemctl enable --now t2-fancontrol.service".to_string(),
            stderr: "Failed to enable unit: Access denied".to_string(),
        }))
    );
}

#[test]
fn first_failure_stops_the_request() {
    let outcomes = vec![SystemctlOutcome::Failed("busy".to_string())];
    assert_eq!(
        set_autostart(false, &outcomes),
        AutostartStep::Finished(Err(FanControlError::CommandFailed {
            command: "systemctl disable --now t2-fancontrol.service".to_string(),
            stderr: "busy".to_string(),
        }))
    );
}

#[test]
fn spawn_failure_is_reported() {
    let outcomes = vec![SystemctlOutcome::SpawnFailed("No such file or directory".to_string())];
    assert_eq!(
        set_autostart(true, &outcomes),
        AutostartStep::Finished(Err(FanControlError::ProcessSpawn(
            "No such file or directory".to_string()
        )))
    );
}
