use wifi_creds::cred::WifiCred;
use wifi_creds::json::build_json;

fn cred(ssid: &str, pass: Option<&str>) -> WifiCred {
    WifiCred { ssid: String::from(ssid), pass: pass.map(String::from) }
}

#[test]
fn build_json_of_empty_list() {
    assert_eq!(build_json(&[]), "[\n]");
}

#[test]
fn build_json_writes_one_object_a_line() {
    let list = vec![cred("A", None), cred("B", Some("x"))];
    assert_eq!(
        build_json(&list),
        "[\n  {\"ssid\":\"A\",\"password\":\"\"},\n  {\"ssid\":\"B\",\"password\":\"x\"}\n]"
    );
}

#[test]
fn build_json_escapes_backslash_quote_and_line_feed() {
    let list = vec![cred("a\\b\"c\nd", Some("\\n\t"))];
    assert_eq!(
        build_json(&list),
        "[\n  {\"ssid\":\"a\\\\b\\\"c\\nd\",\"password\":\"\\\\n\t\"}\n]"
    );
}
