use wifi_creds::cred::WifiCred;
use wifi_creds::error::ErrorKind;
use wifi_creds::shell::{CommandOutput, ShellEvent};
use wifi_creds::source::{
    candidate_path, parse_source, su_cat_command, su_cat_result, try_read_with_su, ReadAction,
    ReadState, CANDIDATES,
};

fn ok(text: &str) -> CommandOutput {
    CommandOutput { stdout: String::from(text), stderr: String::new(), success: true }
}

fn denied() -> CommandOutput {
    CommandOutput { stdout: String::new(), stderr: String::from("su: denied"), success: false }
}

fn pairs(v: &[WifiCred]) -> Vec<(String, Option<String>)> {
    v.iter().map(|c| (c.ssid.clone(), c.pass.clone())).collect()
}

/// Runs a reading against a shell that answers the commands in order.
fn run(outputs: Vec<CommandOutput>) -> (Result<Vec<WifiCred>, ErrorKind>, Vec<String>) {
    let mut state = ReadState::new();
    let mut event = ShellEvent::Begin;
    let mut commands = Vec::new();
    let mut outputs = outputs.into_iter();
    loop {
        match try_read_with_su(&mut state, event) {
            ReadAction::Run(cmd) => {
                commands.push(cmd);
                event = ShellEvent::Output(outputs.next().expect("one output for each command"));
            }
            ReadAction::Found(list) => return (Ok(list), commands),
            ReadAction::Failed(e) => return (Err(e), commands),
        }
    }
}

const XML: &str = "<Network><string name=\"SSID\">&quot;Home&quot;</string><string name=\"PreSharedKey\">&quot;pw&quot;</string></Network>";
const CONF: &str = "network={\n ssid=\"Lab\"\n psk=\"key\"\n}\n";

#[test]
fn candidates_are_tried_in_order() {
    assert_eq!(CANDIDATES, 4);
    assert_eq!(
        candidate_path(0),
        Some("/data/misc/apexdata/com.android.wifi/WifiConfigStore.xml")
    );
    assert_eq!(candidate_path(1), Some("/data/misc/wifi/WifiConfigStore.xml"));
    assert_eq!(candidate_path(2), Some("/data/misc/wifi/WifiConfigStore.conf"));
    assert_eq!(candidate_path(3), Some("/data/misc/wifi/wpa_supplicant.conf"));
    assert_eq!(candidate_path(4), None);
}

#[test]
fn cat_command_quotes_the_path_and_drops_complaints() {
    assert_eq!(su_cat_command("/data/x.conf"), "cat '/data/x.conf' 2>/dev/null");
}

#[test]
fn a_read_fails_without_success_or_without_text() {
    assert_eq!(su_cat_result(ok("text")), Ok(String::from("text")));
    assert_eq!(su_cat_result(ok("")), Err(ErrorKind::SourceUnavailable));
    assert_eq!(su_cat_result(denied()), Err(ErrorKind::SourceUnavailable));
    let printed_but_failed =
        CommandOutput { stdout: String::from("partial"), stderr: String::new(), success: false };
    assert_eq!(su_cat_result(printed_but_failed), Err(ErrorKind::SourceUnavailable));
}

#[test]
fn parse_source_goes_by_path_and_marker() {
    assert_eq!(
        pairs(&parse_source("/data/misc/wifi/WifiConfigStore.xml", XML)),
        vec![(String::from("Home"), Some(String::from("pw")))]
    );
    assert_eq!(
        pairs(&parse_source("/data/misc/wifi/WifiConfigStore.conf", XML)),
        vec![(String::from("Home"), Some(String::from("pw")))]
    );
    assert_eq!(
        pairs(&parse_source("/data/misc/wifi/wpa_supplicant.conf", CONF)),
        vec![(String::from("Lab"), Some(String::from("key")))]
    );
    assert!(parse_source("/data/misc/wifi/WifiConfigStore.xml", CONF).is_empty());
    assert!(parse_source("/data/misc/wifi/wpa_supplicant.conf", "nothing here").is_empty());
    assert!(parse_source("xml", CONF).len() == 1);
}

#[test]
fn reading_stops_at_the_first_source_that_gives_credentials() {
    let (result, commands) = run(vec![denied(), ok(XML), ok(CONF), ok(CONF)]);
    assert_eq!(pairs(&result.unwrap()), vec![(String::from("Home"), Some(String::from("pw")))]);
    assert_eq!(
        commands,
        vec![
            "cat '/data/misc/apexdata/com.android.wifi/WifiConfigStore.xml' 2>/dev/null",
            "cat '/data/misc/wifi/WifiConfigStore.xml' 2>/dev/null",
        ]
    );
}

#[test]
fn reading_goes_on_after_an_empty_result() {
    let (result, commands) =
        run(vec![ok("<Network></Network>"), ok("garbage"), ok("no block"), ok(CONF)]);
    assert_eq!(pairs(&result.unwrap()), vec![(String::from("Lab"), Some(String::from("key")))]);
    assert_eq!(commands.len(), 4);
}

#[test]
fn reading_fails_when_no_source_gives_credentials() {
    let (result, commands) = run(vec![denied(), denied(), ok(""), ok("network={\n}\n")]);
    assert_eq!(result.err(), Some(ErrorKind::NoReadableSource));
    assert_eq!(commands.len(), 4);
    assert_eq!(commands[3], "cat '/data/misc/wifi/wpa_supplicant.conf' 2>/dev/null");
}

#[test]
fn an_output_that_no_command_waits_for_is_ignored() {
    let mut state = ReadState::new();
    match try_read_with_su(&mut state, ShellEvent::Output(ok(XML))) {
        ReadAction::Run(cmd) => {
            assert_eq!(
                cmd,
                "cat '/data/misc/apexdata/com.android.wifi/WifiConfigStore.xml' 2>/dev/null"
            )
        }
        other => panic!("unexpected action {:?}", other),
    }
    assert_eq!(state.next, 1);
    let mut spent = ReadState { next: 9 };
    assert!(matches!(
        try_read_with_su(&mut spent, ShellEvent::Output(ok(XML))),
        ReadAction::Failed(ErrorKind::NoReadableSource)
    ));
    assert_eq!(spent.next, 9);
}
