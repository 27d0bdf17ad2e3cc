use haval_tool::build_run_command;
use haval_tool::error::ApiError;
use haval_tool::install::{downloaded, plan_installation, Installation, Step};
use haval_tool::shell::{build_upload_command, command_event, wire_line};

#[test]
fn build_run_command_without_pinned_url() {
    assert_eq!(
        build_run_command(None),
        "cd /data/local/tmp && ./install.sh"
    );
    // Empty string is treated as unpinned.
    assert_eq!(
        build_run_command(Some("")),
        "cd /data/local/tmp && ./install.sh"
    );
}

#[test]
fn build_run_command_with_pinned_url() {
    let cmd = build_run_command(Some("https://example.com/a.apk"));
    assert_eq!(
        cmd,
        "cd /data/local/tmp && HAVAL_APK_URL='https://example.com/a.apk' ./install.sh"
    );
}

#[test]
fn build_run_command_escapes_single_quote() {
    // Single quote in the URL must not break the shell command.
    let cmd = build_run_command(Some("https://example.com/weird'name.apk"));
    // Single quote is escaped by closing the quoted string, emitting \', and reopening: '\''.
    assert_eq!(
        cmd,
        "cd /data/local/tmp && HAVAL_APK_URL='https://example.com/weird'\\''name.apk' ./install.sh"
    );
}

#[test]
fn quotes_are_escaped_wherever_they_stand() {
    assert_eq!(
        build_run_command(Some("''é'")),
        "cd /data/local/tmp && HAVAL_APK_URL=''\\'''\\''é'\\''' ./install.sh"
    );
}

#[test]
fn script_is_uploaded_on_one_line() {
    assert_eq!(
        build_upload_command("#!/bin/sh\necho hi\n"),
        "echo -e '#!/bin/sh\\necho hi\\n' > /data/local/tmp/install.sh"
    );
    assert_eq!(
        build_upload_command(""),
        "echo -e '' > /data/local/tmp/install.sh"
    );
    assert!(!build_upload_command("a\n\nb\r\n").contains('\n'));
}

#[test]
fn commands_on_the_wire_and_in_the_log() {
    assert_eq!(wire_line("ls"), "ls\n");
    assert_eq!(wire_line(""), "\n");
    assert_eq!(command_event("ls"), "$ ls");
}

#[test]
fn download_that_failed_is_an_error() {
    assert_eq!(downloaded(None), Err(ApiError::DownloadFailed));
    assert_eq!(downloaded(Some("s".to_string())), Ok("s".to_string()));
}

fn notify(s: &str) -> Step {
    Step::Notify(s.to_string())
}

fn send(s: &str) -> Step {
    Step::Send(s.to_string())
}

#[test]
fn installation_has_its_steps_in_order() {
    let upload = "echo -e 'x\\ny' > /data/local/tmp/install.sh";
    let allow = "chmod +x /data/local/tmp/install.sh";
    let run = "cd /data/local/tmp && HAVAL_APK_URL='u' ./install.sh";
    assert_eq!(
        plan_installation("x\ny", Some("u"), false),
        vec![
            Step::Connect,
            notify("📦 Enviando script para o dispositivo..."),
            notify(&format!("$ {}", upload)),
            send(upload),
            Step::Wait(2),
            notify("🔧 Definindo permissões de execução..."),
            notify(&format!("$ {}", allow)),
            send(allow),
            Step::Wait(1),
            notify("🚀 Executando script de instalação..."),
            notify(&format!("$ {}", run)),
            send(run),
            Step::Wait(1),
        ]
    );
    assert_eq!(
        plan_installation("x\ny", Some("u"), true)[..],
        plan_installation("x\ny", Some("u"), false)[1..]
    );
}

#[test]
fn installation_runs_to_its_end() {
    let mut inst = Installation::new("s", None, false);
    let mut seen: Vec<Step> = Vec::new();
    while let Some(step) = inst.current() {
        seen.push(step.clone());
        assert_eq!(inst.report(Ok(())), Ok(()));
    }
    assert_eq!(seen, plan_installation("s", None, false));
    assert_eq!(inst.report(Err(ApiError::Timeout)), Ok(()));
}

#[test]
fn failed_command_ends_the_installation() {
    let mut inst = Installation::new("s", None, true);
    for _ in 0..2 {
        // A text that cannot be shown stops nothing.
        assert_eq!(inst.report(Err(ApiError::Io("log".to_string()))), Ok(()));
    }
    assert!(matches!(inst.current(), Some(Step::Send(_))));
    let lost = ApiError::Io("broken pipe".to_string());
    assert_eq!(inst.report(Err(lost.clone())), Err(lost));
    assert!(inst.current().is_none());
}

#[test]
fn failed_connection_ends_the_installation() {
    let mut inst = Installation::new("s", None, false);
    assert_eq!(inst.current(), Some(&Step::Connect));
    assert_eq!(
        inst.report(Err(ApiError::GatewayNotFound)),
        Err(ApiError::GatewayNotFound)
    );
    assert!(inst.current().is_none());
}
