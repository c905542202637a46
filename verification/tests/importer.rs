use wifi_creds::cred::WifiCred;
use wifi_creds::error::ErrorKind;
use wifi_creds::importer::{
    add_network_command, bulk_import, ImportAction, ImportReport, ImportState, MIN_IMPORT_LEVEL,
};
use wifi_creds::shell::{command_outcome, shell_quote, CommandOutput, ShellEvent};

fn cred(ssid: &str, pass: Option<&str>) -> WifiCred {
    WifiCred { ssid: String::from(ssid), pass: pass.map(String::from) }
}

fn out(stdout: &str, stderr: &str, success: bool) -> CommandOutput {
    CommandOutput { stdout: String::from(stdout), stderr: String::from(stderr), success }
}

/// Runs an import against a shell that answers each command by `answer`.
fn run(
    creds: Vec<WifiCred>,
    level: i32,
    answer: fn(&str) -> CommandOutput,
) -> (Result<ImportReport, ErrorKind>, Vec<String>) {
    let mut state = ImportState::new(creds, level);
    let mut event = ShellEvent::Begin;
    let mut commands = Vec::new();
    loop {
        match bulk_import(&mut state, event) {
            ImportAction::Run(cmd) => {
                event = ShellEvent::Output(answer(&cmd));
                commands.push(cmd);
            }
            ImportAction::Finished => return (Ok(state.report), commands),
            ImportAction::Refused(e) => return (Err(e), commands),
        }
    }
}

#[test]
fn shell_quote_wraps_and_escapes_single_quotes() {
    assert_eq!(shell_quote("Home"), "'Home'");
    assert_eq!(shell_quote(""), "''");
    assert_eq!(shell_quote("it's"), "'it'\\''s'");
    assert_eq!(shell_quote("a b;$(c)"), "'a b;$(c)'");
    assert_eq!(shell_quote("''"), "''\\'''\\'''");
}

#[test]
fn add_command_picks_the_form_by_the_key() {
    assert_eq!(add_network_command(&cred("A", None)), "cmd wifi add-network 'A' open");
    assert_eq!(add_network_command(&cred("A", Some(""))), "cmd wifi add-network 'A' open");
    assert_eq!(
        add_network_command(&cred("B", Some("x y"))),
        "cmd wifi add-network 'B' wpa2 'x y'"
    );
}

#[test]
fn command_outcome_reads_the_output() {
    assert_eq!(command_outcome(out("", "", true)), Ok(String::from("OK")));
    assert_eq!(command_outcome(out("added", "warn", true)), Ok(String::from("added")));
    assert_eq!(command_outcome(out("printed", "complaint", false)), Err(String::from("complaint")));
    assert_eq!(command_outcome(out("printed", "", false)), Err(String::from("printed")));
    assert_eq!(command_outcome(out("", "", false)), Err(String::new()));
}

#[test]
fn bulk_import_counts_and_lists_failures() {
    let creds = vec![cred("A", None), cred("B", Some("x"))];
    let (result, commands) = run(creds, 33, |cmd| {
        if cmd.contains("'B'") {
            out("", "Invalid passphrase", false)
        } else {
            out("", "", true)
        }
    });
    let report = result.unwrap();
    assert_eq!(report.success, 1);
    assert_eq!(report.failed, 1);
    assert_eq!(report.errors.len(), 1);
    assert_eq!(report.errors[0].ssid, "B");
    assert_eq!(report.errors[0].message, "Invalid passphrase");
    assert_eq!(
        commands,
        vec!["cmd wifi add-network 'A' open", "cmd wifi add-network 'B' wpa2 'x'"]
    );
}

#[test]
fn bulk_import_goes_on_after_a_failure() {
    let creds = vec![cred("a", Some("1")), cred("b", Some("2")), cred("c", None), cred("d", None)];
    let (result, commands) = run(creds, MIN_IMPORT_LEVEL, |cmd| {
        if cmd.contains("'a'") || cmd.contains("'c'") {
            out("failed here", "", false)
        } else {
            out("done", "", true)
        }
    });
    let report = result.unwrap();
    assert_eq!((report.success, report.failed), (2, 2));
    let listed: Vec<(String, String)> =
        report.errors.iter().map(|f| (f.ssid.clone(), f.message.clone())).collect();
    assert_eq!(
        listed,
        vec![
            (String::from("a"), String::from("failed here")),
            (String::from("c"), String::from("failed here")),
        ]
    );
    assert_eq!(commands.len(), 4);
}

#[test]
fn bulk_import_is_refused_on_an_old_platform() {
    let (result, commands) = run(vec![cred("A", None)], 29, |_| out("", "", true));
    assert_eq!(result.err(), Some(ErrorKind::ImportUnsupported));
    assert!(commands.is_empty());
}

#[test]
fn bulk_import_of_nothing_finishes_at_once() {
    let (result, commands) = run(Vec::new(), 30, |_| out("", "", true));
    let report = result.unwrap();
    assert_eq!((report.success, report.failed, report.errors.len()), (0, 0, 0));
    assert!(commands.is_empty());
}

#[test]
fn bulk_import_hands_an_unanswered_command_out_again() {
    let mut state = ImportState::new(vec![cred("A", None), cred("B", None)], 30);
    let first = match bulk_import(&mut state, ShellEvent::Begin) {
        ImportAction::Run(cmd) => cmd,
        other => panic!("unexpected action {:?}", other),
    };
    let again = match bulk_import(&mut state, ShellEvent::Begin) {
        ImportAction::Run(cmd) => cmd,
        other => panic!("unexpected action {:?}", other),
    };
    assert_eq!(first, again);
    assert_eq!((state.issued, state.recorded), (1, 0));
}
