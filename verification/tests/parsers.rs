use wifi_creds::parsers::{
    find_string, html_unescape, parse_wifi_configstore_xml, parse_wpa_supplicant, strip_quotes,
};

#[test]
fn xml_block_with_ssid_and_key() {
    let xml = "<WifiConfigStoreData><NetworkList><Network><WifiConfiguration>\n<string name=\"ConfigKey\">&quot;Home&quot;WPA_PSK</string>\n<string name=\"SSID\">&quot;Home&quot;</string>\n<string name=\"PreSharedKey\">&quot;s3cret&amp;more&quot;</string>\n</WifiConfiguration></Network></NetworkList></WifiConfigStoreData>";
    let v = parse_wifi_configstore_xml(xml);
    assert_eq!(v.len(), 1);
    assert_eq!(v[0].ssid, "Home");
    assert_eq!(v[0].pass, Some(String::from("s3cret&more")));
}

#[test]
fn xml_falls_back_to_config_key() {
    let xml = "<Network><string name=\"ConfigKey\">&quot;Cafe&quot;NONE</string></Network>";
    let v = parse_wifi_configstore_xml(xml);
    assert_eq!(v.len(), 1);
    assert_eq!(v[0].ssid, "\"Cafe\"NONE");
    assert_eq!(v[0].pass, None);
}

#[test]
fn xml_last_block_may_lack_its_close_tag() {
    let xml = "<Network><string name=\"SSID\">A</string></Network><Network><string name=\"SSID\"> B </string><string name=\"PreSharedKey\">\"k\"</string>";
    let v = parse_wifi_configstore_xml(xml);
    assert_eq!(v.len(), 2);
    assert_eq!(v[0].ssid, "A");
    assert_eq!(v[0].pass, None);
    assert_eq!(v[1].ssid, "B");
    assert_eq!(v[1].pass, Some(String::from("k")));
}

#[test]
fn xml_block_without_name_is_dropped() {
    let xml = "<Network><string name=\"PreSharedKey\">x</string></Network><Network><string name=\"SSID\">Z</string></Network>";
    let v = parse_wifi_configstore_xml(xml);
    assert_eq!(v.len(), 1);
    assert_eq!(v[0].ssid, "Z");
}

#[test]
fn xml_fields_after_the_close_tag_do_not_count() {
    let xml = "<Network></Network><string name=\"SSID\">late</string>";
    assert!(parse_wifi_configstore_xml(xml).is_empty());
}

#[test]
fn supplicant_block_with_ssid_and_psk() {
    let conf = "ctrl_interface=wlan0\nnetwork={\n\tssid=\"Home\"\n\tpsk=\"s3cret\"\n\tkey_mgmt=WPA-PSK\n}\n";
    let v = parse_wpa_supplicant(conf);
    assert_eq!(v.len(), 1);
    assert_eq!(v[0].ssid, "Home");
    assert_eq!(v[0].pass, Some(String::from("s3cret")));
}

#[test]
fn supplicant_block_without_ssid_yields_nothing() {
    let conf = "network={\n psk=\"orphan\"\n}\n";
    assert!(parse_wpa_supplicant(conf).is_empty());
}

#[test]
fn supplicant_reads_crlf_lines_and_open_networks() {
    let conf = "network={\r\n  ssid=\"Open\"\r\n  key_mgmt=NONE\r\n}\r\nnetwork={\r\n  ssid=plain\r\n  psk=abc=def\r\n}";
    let v = parse_wpa_supplicant(conf);
    assert_eq!(v.len(), 2);
    assert_eq!(v[0].ssid, "Open");
    assert_eq!(v[0].pass, None);
    assert_eq!(v[1].ssid, "plain");
    assert_eq!(v[1].pass, Some(String::from("abc=def")));
}

#[test]
fn supplicant_ignores_lines_outside_blocks_and_unclosed_blocks() {
    let conf = "ssid=\"stray\"\n}\nnetwork={\nssid=\"never closed\"\n";
    assert!(parse_wpa_supplicant(conf).is_empty());
}

#[test]
fn supplicant_key_must_be_exact() {
    let conf = "network={\nssid =\"spaced\"\nbssid=\"x\"\n}\n";
    assert!(parse_wpa_supplicant(conf).is_empty());
}

#[test]
fn parsers_give_nothing_on_empty_or_garbage_text() {
    assert!(parse_wifi_configstore_xml("").is_empty());
    assert!(parse_wifi_configstore_xml("\u{0}\u{1}garbage <Net work> }{").is_empty());
    assert!(parse_wpa_supplicant("").is_empty());
    assert!(parse_wpa_supplicant("\u{0}\u{1}garbage <Network> }{").is_empty());
}

#[test]
fn find_string_takes_the_first_field_of_that_name() {
    let hay = "<string name=\"SSID\"> a&lt;b </string><string name=\"SSID\">second</string>";
    assert_eq!(find_string(hay, "SSID"), Some(String::from("a<b")));
    assert_eq!(find_string(hay, "PreSharedKey"), None);
    assert_eq!(find_string("<string name=\"SSID\">unterminated", "SSID"), None);
}

#[test]
fn html_unescape_replaces_in_order() {
    assert_eq!(html_unescape("&quot;a&amp;b&lt;c&gt;&quot;"), "\"a&b<c>\"");
    assert_eq!(html_unescape("&amp;lt;"), "<");
    assert_eq!(html_unescape("plain &apos; text"), "plain &apos; text");
}

#[test]
fn strip_quotes_removes_one_layer() {
    assert_eq!(strip_quotes("  \"abc\"  "), "abc");
    assert_eq!(strip_quotes("\"\"x\"\""), "\"x\"");
    assert_eq!(strip_quotes("\""), "\"");
    assert_eq!(strip_quotes("\"\""), "");
    assert_eq!(strip_quotes(" plain\u{3000}"), "plain");
    assert_eq!(strip_quotes("\"open"), "\"open");
}
