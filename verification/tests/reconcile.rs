use wifi_creds::cred::WifiCred;
use wifi_creds::reconcile::{merge, normalize, text_less};

fn cred(ssid: &str, pass: Option<&str>) -> WifiCred {
    WifiCred { ssid: String::from(ssid), pass: pass.map(String::from) }
}

fn pairs(v: &[WifiCred]) -> Vec<(String, Option<String>)> {
    v.iter().map(|c| (c.ssid.clone(), c.pass.clone())).collect()
}

#[test]
fn merge_precedence_higher_wins() {
    let a = vec![cred("Home", Some("old"))];
    let b = vec![cred("home", Some("new"))];
    let out = merge(&a, &b);
    assert_eq!(pairs(&out), vec![(String::from("home"), Some(String::from("new")))]);
}

#[test]
fn merge_sorts_without_regard_to_case_and_keeps_case() {
    let list = vec![cred("Zeta", None), cred("alpha", None)];
    let out = merge(&[], &list);
    assert_eq!(pairs(&out), vec![(String::from("alpha"), None), (String::from("Zeta"), None)]);
    let out = normalize(&list);
    assert_eq!(pairs(&out), vec![(String::from("alpha"), None), (String::from("Zeta"), None)]);
}

#[test]
fn merge_with_itself_is_the_normal_form() {
    let list = vec![
        cred("beta", Some("1")),
        cred("", Some("nameless")),
        cred("Alpha", None),
        cred("BETA", Some("2")),
        cred("gamma", Some("3")),
        cred("alpha", Some("4")),
    ];
    let once = normalize(&list);
    let twice = merge(&list, &list);
    assert_eq!(pairs(&once), pairs(&twice));
    assert_eq!(
        pairs(&once),
        vec![
            (String::from("alpha"), Some(String::from("4"))),
            (String::from("BETA"), Some(String::from("2"))),
            (String::from("gamma"), Some(String::from("3"))),
        ]
    );
    assert_eq!(pairs(&normalize(&once)), pairs(&once));
}

#[test]
fn merge_keeps_records_of_both_lists() {
    let lower = vec![cred("b", Some("lb")), cred("a", Some("la"))];
    let higher = vec![cred("c", None), cred("A", Some("ha"))];
    let out = merge(&lower, &higher);
    assert_eq!(
        pairs(&out),
        vec![
            (String::from("A"), Some(String::from("ha"))),
            (String::from("b"), Some(String::from("lb"))),
            (String::from("c"), None),
        ]
    );
}

#[test]
fn merge_of_nothing_is_empty() {
    assert!(merge(&[], &[]).is_empty());
    assert!(normalize(&[cred("", None)]).is_empty());
}

#[test]
fn merge_uses_unicode_lower_case() {
    let out = merge(&[cred("ÉCOLE", Some("x"))], &[cred("école", Some("y"))]);
    assert_eq!(pairs(&out), vec![(String::from("école"), Some(String::from("y")))]);
}

#[test]
fn text_order_is_by_code_point() {
    let a: Vec<char> = "abc".chars().collect();
    let b: Vec<char> = "abd".chars().collect();
    let c: Vec<char> = "ab".chars().collect();
    assert!(text_less(&a, &b));
    assert!(!text_less(&b, &a));
    assert!(text_less(&c, &a));
    assert!(!text_less(&a, &a));
    assert!(text_less(&[], &c));
    let z: Vec<char> = "Z".chars().collect();
    assert!(text_less(&z, &a));
}

#[test]
fn same_network_ignores_case() {
    assert!(cred("Home", None).same_network(&cred("hOME", Some("x"))));
    assert!(!cred("Home", None).same_network(&cred("Home2", None)));
}

#[test]
fn equality_is_of_name_and_key_with_their_case() {
    assert_eq!(cred("Home", Some("pw")), cred("Home", Some("pw")));
    assert_eq!(cred("Home", None), cred("Home", None));
    assert_ne!(cred("Home", Some("pw")), cred("home", Some("pw")));
    assert_ne!(cred("Home", Some("pw")), cred("Home", Some("PW")));
    assert_ne!(cred("Home", Some("")), cred("Home", None));
    assert_ne!(cred("Home", None), cred("Home", Some("")));
}

#[test]
fn clone_copies_both_fields() {
    let c = cred("n", Some("p"));
    let d = c.clone();
    assert_eq!(d.ssid, "n");
    assert_eq!(d.pass, Some(String::from("p")));
}
