use wifi_creds::cred::WifiCred;
use wifi_creds::import::parse_imported_json;
use wifi_creds::json::build_json;
use wifi_creds::lexer::{tokenize, Token};
use wifi_creds::error::ErrorKind;

fn cred(ssid: &str, pass: Option<&str>) -> WifiCred {
    WifiCred { ssid: String::from(ssid), pass: pass.map(String::from) }
}

fn pairs(v: &[WifiCred]) -> Vec<(String, Option<String>)> {
    v.iter().map(|c| (c.ssid.clone(), c.pass.clone())).collect()
}

fn read(text: &str) -> Vec<(String, Option<String>)> {
    match parse_imported_json(text) {
        Ok(v) => pairs(&v),
        Err(e) => panic!("refused: {:?}", e),
    }
}

fn refused(text: &str) -> bool {
    matches!(parse_imported_json(text), Err(ErrorKind::InvalidFormat))
}

#[test]
fn import_reads_a_bare_array() {
    let got = read("[{\"ssid\":\"Home\",\"password\":\"s3cret\"},{\"ssid\":\"Cafe\"}]");
    assert_eq!(
        got,
        vec![
            (String::from("Home"), Some(String::from("s3cret"))),
            (String::from("Cafe"), None),
        ]
    );
}

#[test]
fn import_reads_the_wrapped_shape() {
    let got = read("{ \"version\": 2, \"networks\": [ { \"pass\": \"k\", \"ssid\": \"N\" } ], \"meta\": {\"a\":[1,2,{\"b\":null}]} }");
    assert_eq!(got, vec![(String::from("N"), Some(String::from("k")))]);
}

#[test]
fn import_takes_password_and_pass_alike() {
    assert_eq!(
        read("[{\"ssid\":\"a\",\"pass\":\"x\"},{\"ssid\":\"b\",\"password\":\"y\"}]"),
        vec![
            (String::from("a"), Some(String::from("x"))),
            (String::from("b"), Some(String::from("y"))),
        ]
    );
}

#[test]
fn import_reads_null_and_missing_keys_as_absent() {
    assert_eq!(
        read("[{\"ssid\":\"a\",\"password\":null},{\"ssid\":\"b\"}]"),
        vec![(String::from("a"), None), (String::from("b"), None)]
    );
}

#[test]
fn import_passes_over_unknown_fields() {
    let got = read("[{\"hidden\":true,\"ssid\":\"a\",\"priority\":-1.5e+3,\"tags\":[\"x\",[],{}],\"password\":\"p\"}]");
    assert_eq!(got, vec![(String::from("a"), Some(String::from("p")))]);
}

#[test]
fn import_reads_empty_lists() {
    assert_eq!(read("[]"), vec![]);
    assert_eq!(read(" \n[ ]\t"), vec![]);
    assert_eq!(read("{\"networks\":[]}"), vec![]);
}

#[test]
fn import_resolves_escapes() {
    let got = read("[{\"ssid\":\"a\\\"b\\\\c\\/d\\n\\t\\u0041\\u00e9\\ud83d\\ude00\",\"password\":\"\"}]");
    assert_eq!(got, vec![(String::from("a\"b\\c/d\n\tA\u{e9}\u{1F600}"), Some(String::new()))]);
}

#[test]
fn import_refuses_other_shapes() {
    assert!(refused(""));
    assert!(refused("   "));
    assert!(refused("null"));
    assert!(refused("\"text\""));
    assert!(refused("42"));
    assert!(refused("{}"));
    assert!(refused("{\"nets\":[]}"));
    assert!(refused("{\"networks\":{}}"));
    assert!(refused("{\"networks\":[],\"networks\":[]}"));
    assert!(refused("[[]]"));
    assert!(refused("[\"a\"]"));
    assert!(refused("[{}]"));
    assert!(refused("[{\"password\":\"x\"}]"));
    assert!(refused("[{\"ssid\":null}]"));
    assert!(refused("[{\"ssid\":5}]"));
    assert!(refused("[{\"ssid\":\"a\",\"ssid\":\"b\"}]"));
    assert!(refused("[{\"ssid\":\"a\",\"pass\":\"x\",\"password\":\"y\"}]"));
    assert!(refused("[{\"ssid\":\"a\",\"password\":7}]"));
}

#[test]
fn import_refuses_broken_json() {
    assert!(refused("["));
    assert!(refused("[{\"ssid\":\"a\"}"));
    assert!(refused("[{\"ssid\":\"a\"}]]"));
    assert!(refused("[{\"ssid\":\"a\"},]"));
    assert!(refused("[{\"ssid\":\"a\",}]"));
    assert!(refused("[{\"ssid\" \"a\"}]"));
    assert!(refused("[{ssid:\"a\"}]"));
    assert!(refused("[{\"ssid\":\"a}]"));
    assert!(refused("[{\"ssid\":\"a\\x\"}]"));
    assert!(refused("[{\"ssid\":\"\\ud83d\"}]"));
    assert!(refused("[{\"ssid\":\"\\ude00\"}]"));
    assert!(refused("[{\"ssid\":\"\\u12g4\"}]"));
    assert!(refused("[{\"ssid\":\"a\",\"n\":01}]"));
    assert!(refused("[{\"ssid\":\"a\",\"n\":1.}]"));
    assert!(refused("[{\"ssid\":\"a\",\"n\":-}]"));
    assert!(refused("[{\"ssid\":\"a\",\"n\":1e}]"));
    assert!(refused("[{\"ssid\":\"a\",\"n\":nul}]"));
    assert!(refused("[{\"ssid\":\"a\",\"n\":True}]"));
    assert!(refused("[{\"ssid\":\"a\"}] x"));
    assert!(refused("[{\"ssid\":\"a\",\"n\":[1 2]}]"));
    assert!(refused("[{\"ssid\":\"a\",\"n\":{\"k\":1]}]"));
}

#[test]
fn import_round_trip_of_built_json() {
    let list = vec![
        cred("Home", Some("s3cret")),
        cred("Open", None),
        cred("q\"uo\\te\nline\ttab", Some("")),
        cred("", Some("\\n")),
        cred("caf\u{e9} \u{1F600}", Some("\"")),
    ];
    let text = build_json(&list);
    let back = read(&text);
    let expect: Vec<(String, Option<String>)> = list
        .iter()
        .map(|c| (c.ssid.clone(), Some(c.pass.clone().unwrap_or_default())))
        .collect();
    assert_eq!(back, expect);
    assert_eq!(read(&build_json(&[])), vec![]);
}

#[test]
fn import_round_trip_inside_the_wrapping_object() {
    let list = vec![cred("Home", Some("s3cret")), cred("Open", None), cred("a\"b", Some("c\\d"))];
    let text = format!("{{\"networks\":{}}}", build_json(&list));
    let back = read(&text);
    assert_eq!(back, read(&build_json(&list)));
    assert_eq!(back.len(), 3);
    assert_eq!(back[2], (String::from("a\"b"), Some(String::from("c\\d"))));
}

#[test]
fn wrapping_a_wrapped_text_is_refused() {
    let inner = "{\"networks\":[{\"ssid\":\"a\"}]}";
    assert_eq!(read(inner).len(), 1);
    assert!(refused(&format!("{{\"networks\":{}}}", inner)));
}

#[test]
fn the_main_functions_stand_at_the_root() {
    let list = wifi_creds::parse_wpa_supplicant("network={\nssid=\"r\"\n}");
    let merged = wifi_creds::merge(&[], &list);
    let text = wifi_creds::build_json(&merged);
    let back = wifi_creds::parse_imported_json(&text).unwrap();
    assert_eq!(back, vec![wifi_creds::WifiCred { ssid: String::from("r"), pass: Some(String::new()) }]);
    assert!(wifi_creds::parse_wifi_configstore_xml(&text).is_empty());
}

#[test]
fn tokenize_cuts_text_into_tokens() {
    let toks = tokenize("[{\"a\":null,\"b\":-0.5e10} , true]").unwrap();
    let kinds: Vec<String> = toks.iter().map(|t| format!("{:?}", t)).collect();
    assert_eq!(
        kinds,
        vec![
            "ArrayOpen", "ObjectOpen", "Text(['a'])", "Colon", "Null", "Comma", "Text(['b'])",
            "Colon", "Scalar", "ObjectClose", "Comma", "Scalar", "ArrayClose",
        ]
    );
    assert!(matches!(tokenize("0").unwrap()[0], Token::Scalar));
    assert!(tokenize("#").is_none());
    assert!(tokenize("\"open").is_none());
    assert!(tokenize("").unwrap().is_empty());
}
