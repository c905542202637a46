use wifi_creds::cred::WifiCred;
use wifi_creds::error::ErrorKind;
use wifi_creds::importer::{AddFailure, ImportReport, ImportState};
use wifi_creds::session::{export_file_name, to_decimal, Session};

fn cred(ssid: &str, pass: Option<&str>) -> WifiCred {
    WifiCred { ssid: String::from(ssid), pass: pass.map(String::from) }
}

fn pairs(v: &[WifiCred]) -> Vec<(String, Option<String>)> {
    v.iter().map(|c| (c.ssid.clone(), c.pass.clone())).collect()
}

#[test]
fn session_starts_empty() {
    let s = Session::new();
    assert!(s.list.is_empty());
    assert_eq!(s.to_json(), "[\n]");
}

#[test]
fn load_keeps_one_record_for_each_network_in_order() {
    let mut s = Session::new();
    s.load(&[cred("b", Some("1")), cred("", None), cred("A", None), cred("B", Some("2"))]);
    assert_eq!(
        pairs(&s.list),
        vec![(String::from("A"), None), (String::from("B"), Some(String::from("2")))]
    );
    assert_eq!(
        s.to_json(),
        "[\n  {\"ssid\":\"A\",\"password\":\"\"},\n  {\"ssid\":\"B\",\"password\":\"2\"}\n]"
    );
}

#[test]
fn imported_records_do_not_replace_loaded_ones() {
    let mut s = Session::new();
    s.load(&[cred("Home", Some("loaded"))]);
    let r = s.import_json("{\"networks\":[{\"ssid\":\"HOME\",\"password\":\"file\"},{\"ssid\":\"Cafe\"}]}");
    assert_eq!(r, Ok(()));
    assert_eq!(
        pairs(&s.list),
        vec![(String::from("Cafe"), None), (String::from("Home"), Some(String::from("loaded")))]
    );
}

#[test]
fn refused_text_leaves_the_list_as_it_is() {
    let mut s = Session::new();
    s.load(&[cred("Home", Some("pw"))]);
    assert_eq!(s.import_json("{\"networks\": 5}"), Err(ErrorKind::InvalidFormat));
    assert_eq!(s.import_json("not json"), Err(ErrorKind::InvalidFormat));
    assert_eq!(pairs(&s.list), vec![(String::from("Home"), Some(String::from("pw")))]);
}

#[test]
fn what_a_session_writes_it_reads_back() {
    let mut s = Session::new();
    s.load(&[cred("x\"y", Some("p\\q")), cred("open", None)]);
    let text = s.to_json();
    let mut t = Session::new();
    assert_eq!(t.import_json(&text), Ok(()));
    assert_eq!(
        pairs(&t.list),
        vec![
            (String::from("open"), Some(String::new())),
            (String::from("x\"y"), Some(String::from("p\\q"))),
        ]
    );
}

#[test]
fn file_name_holds_the_seconds() {
    assert_eq!(export_file_name(0), "wifi_passwords_0.json");
    assert_eq!(export_file_name(7), "wifi_passwords_7.json");
    assert_eq!(export_file_name(1700000000), "wifi_passwords_1700000000.json");
    assert_eq!(export_file_name(u64::MAX), "wifi_passwords_18446744073709551615.json");
}

#[test]
fn decimal_numerals() {
    for n in [0u64, 1, 9, 10, 11, 99, 100, 101, 12345, 1_000_000, u64::MAX] {
        let got: String = to_decimal(n).iter().collect();
        assert_eq!(got, n.to_string());
    }
}

#[test]
fn each_kind_of_failure_has_its_words() {
    assert_eq!(ErrorKind::SourceUnavailable.message(), "could not read the file");
    assert_eq!(ErrorKind::NoReadableSource.message(), "root denied or config not found");
    assert_eq!(ErrorKind::InvalidFormat.message(), "invalid JSON format");
    assert_eq!(
        ErrorKind::ImportUnsupported.message(),
        "adding networks is not supported on this platform"
    );
    assert_eq!(ErrorKind::PerItemAddFailure.message(), "could not add the network");
}

#[test]
fn first_failure_of_a_report() {
    let none = ImportReport { success: 2, failed: 0, errors: Vec::new() };
    assert!(none.first_failure().is_none());
    let some = ImportReport {
        success: 0,
        failed: 2,
        errors: vec![
            AddFailure { ssid: String::from("a"), message: String::from("first") },
            AddFailure { ssid: String::from("b"), message: String::from("second") },
        ],
    };
    let f = some.first_failure().unwrap();
    assert_eq!((f.ssid.as_str(), f.message.as_str()), ("a", "first"));
    assert_eq!(f.kind(), ErrorKind::PerItemAddFailure);
}

#[test]
fn import_state_validity() {
    let mut st = ImportState::new(vec![cred("a", None)], 30);
    assert!(st.is_ok());
    st.issued = 2;
    assert!(!st.is_ok());
    st.issued = 1;
    assert!(st.is_ok());
    st.recorded = 1;
    assert!(!st.is_ok());
    st.report.success = 1;
    assert!(st.is_ok());
    st.report.failed = usize::MAX;
    assert!(!st.is_ok());
}
