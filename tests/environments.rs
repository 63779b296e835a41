use sa::environment::{dockerfile_content, environment_names, ContainerRun, EnvAction, EnvironmentRegistry, ExecAction, ExecPhase};

#[test]
fn concurrent_requests_create_once() {
    let mut reg = EnvironmentRegistry::new();
    let actions: Vec<EnvAction> = (0..5).map(|_| reg.request(".sa_env", false)).collect();
    let creates = actions.iter().filter(|a| **a == EnvAction::Create).count();
    assert_eq!(creates, 1);
    assert_eq!(actions[0], EnvAction::Create);
    assert!(actions[1..].iter().all(|a| *a == EnvAction::Wait));
    reg.finish(".sa_env", true);
    assert_eq!(reg.request(".sa_env", false), EnvAction::UseExisting);
}

#[test]
fn existing_directory_is_used_as_is() {
    let mut reg = EnvironmentRegistry::new();
    assert_eq!(reg.request("/work/venv", true), EnvAction::UseExisting);
    assert_eq!(reg.request("/work/venv", false), EnvAction::UseExisting);
}

#[test]
fn failed_creation_is_retried() {
    let mut reg = EnvironmentRegistry::new();
    assert_eq!(reg.request("a", false), EnvAction::Create);
    assert_eq!(reg.request("b", false), EnvAction::Create);
    reg.finish("a", false);
    assert_eq!(reg.request("a", false), EnvAction::Create);
    assert_eq!(reg.request("b", false), EnvAction::Wait);
}

#[test]
fn build_definition_without_requirements() {
    assert_eq!(
        dockerfile_content("python:3.11-slim", None),
        "FROM python:3.11-slim\nWORKDIR /app\nRUN pip install --upgrade pip\nCMD [\"python\"]\n"
    );
}

#[test]
fn build_definition_with_requirements() {
    assert_eq!(
        dockerfile_content("python:3.12", Some("requirements.txt")),
        "FROM python:3.12\nWORKDIR /app\nRUN pip install --upgrade pip\nCOPY requirements.txt /app/requirements.txt\nRUN pip install -r requirements.txt\nCMD [\"python\"]\n"
    );
}

#[test]
fn image_names_drop_latest_suffix() {
    let tags = vec![
        "sa-build-env:latest".to_string(),
        "python:3.11-slim".to_string(),
        "plain".to_string(),
        "sa-temp-1:latest".to_string(),
    ];
    assert_eq!(environment_names(&tags), vec!["sa-build-env".to_string(), "plain".to_string(), "sa-temp-1".to_string()]);
    assert!(environment_names(&vec![]).is_empty());
}

#[test]
fn container_is_removed_after_failed_command() {
    let mut run = ContainerRun::new();
    assert_eq!(run.step(true), ExecAction::StartContainer);
    assert_eq!(run.step(true), ExecAction::StreamLogs);
    assert_eq!(run.step(false), ExecAction::RemoveContainer);
    assert_eq!(run.step(true), ExecAction::Finish { ok: false });
    assert_eq!(run.phase, ExecPhase::Done);
}

#[test]
fn container_run_succeeds_when_every_step_does() {
    let mut run = ContainerRun::new();
    assert_eq!(run.step(true), ExecAction::StartContainer);
    assert_eq!(run.step(true), ExecAction::StreamLogs);
    assert_eq!(run.step(true), ExecAction::RemoveContainer);
    assert_eq!(run.step(true), ExecAction::Finish { ok: true });
}

#[test]
fn failed_start_still_removes_container() {
    let mut run = ContainerRun::new();
    assert_eq!(run.step(true), ExecAction::StartContainer);
    assert_eq!(run.step(false), ExecAction::RemoveContainer);
    assert_eq!(run.step(true), ExecAction::Finish { ok: false });
}

#[test]
fn failed_creation_has_nothing_to_remove() {
    let mut run = ContainerRun::new();
    assert_eq!(run.step(false), ExecAction::Finish { ok: false });
}
