//! The parsers and the renderer against the same logic written with the
//! string functions of the standard library.

use wifi_creds::cred::WifiCred;
use wifi_creds::json::build_json;
use wifi_creds::parsers::{
    find_string, html_unescape, parse_wifi_configstore_xml, parse_wpa_supplicant, strip_quotes,
};
use wifi_creds::reconcile::normalize;

type Pair = (String, Option<String>);

fn pairs(v: &[WifiCred]) -> Vec<Pair> {
    v.iter().map(|c| (c.ssid.clone(), c.pass.clone())).collect()
}

fn std_strip_quotes(s: &str) -> String {
    let t = s.trim();
    if t.starts_with('"') && t.ends_with('"') && t.len() >= 2 {
        t[1..t.len() - 1].to_string()
    } else {
        t.to_string()
    }
}

fn std_unescape(s: &str) -> String {
    s.replace("&quot;", "\"").replace("&amp;", "&").replace("&lt;", "<").replace("&gt;", ">")
}

fn std_find_string(hay: &str, name: &str) -> Option<String> {
    let needle = format!("<string name=\"{}\">", name);
    let i = hay.find(&needle)?;
    let rest = &hay[i + needle.len()..];
    let end = rest.find("</string>")?;
    Some(std_unescape(rest[..end].trim()))
}

fn std_xml(xml: &str) -> Vec<Pair> {
    let mut out = Vec::new();
    for blk in xml.split("<Network>").skip(1) {
        let end = blk.find("</Network>").unwrap_or(blk.len());
        let chunk = &blk[..end];
        let ssid = std_find_string(chunk, "SSID")
            .or_else(|| std_find_string(chunk, "ConfigKey"))
            .map(|s| std_strip_quotes(&s));
        let psk = std_find_string(chunk, "PreSharedKey").map(|s| std_strip_quotes(&s));
        if let Some(s) = ssid {
            out.push((s, psk));
        }
    }
    out
}

fn std_supplicant(conf: &str) -> Vec<Pair> {
    let mut out = Vec::new();
    let mut ssid: Option<String> = None;
    let mut psk: Option<String> = None;
    let mut in_blk = false;
    for line in conf.lines() {
        let l = line.trim();
        if l.starts_with("network={") {
            in_blk = true;
            ssid = None;
            psk = None;
            continue;
        }
        if in_blk && l.starts_with('}') {
            if let Some(s) = ssid.take() {
                out.push((s, psk.take()));
            }
            in_blk = false;
            continue;
        }
        if !in_blk {
            continue;
        }
        if let Some(eq) = l.find('=') {
            let k = &l[..eq];
            let v = &l[eq + 1..];
            match k {
                "ssid" => ssid = Some(std_strip_quotes(v)),
                "psk" => psk = Some(std_strip_quotes(v)),
                _ => {}
            }
        }
    }
    out
}

fn std_json(creds: &[WifiCred]) -> String {
    let esc = |t: &str| t.replace('\\', "\\\\").replace('"', "\\\"").replace('\n', "\\n");
    let mut s = String::from("[\n");
    for (i, c) in creds.iter().enumerate() {
        s.push_str(&format!(
            "  {{\"ssid\":\"{}\",\"password\":\"{}\"}}{}",
            esc(&c.ssid),
            esc(c.pass.as_deref().unwrap_or("")),
            if i + 1 == creds.len() { "\n" } else { ",\n" }
        ));
    }
    s.push(']');
    s
}

/// A source of numbers that gives the same numbers each time.
struct Numbers(u64);

impl Numbers {
    fn next(&mut self, below: usize) -> usize {
        self.0 = self.0.wrapping_mul(6364136223846793005).wrapping_add(1442695040888963407);
        ((self.0 >> 33) as usize) % below
    }
}

const PIECES: [&str; 40] = [
    "<Network>", "</Network>", "<string name=\"SSID\">", "<string name=\"ConfigKey\">",
    "<string name=\"PreSharedKey\">", "</string>", "<string name=\"", "\">", "&quot;", "&amp;",
    "&lt;", "&gt;", "&amp;quot;", "network={", "}", "{", "ssid=", "psk=", "ssid", "psk", "=",
    "\"", "\"\"", "\n", "\r\n", "\r", " ", "\t", "\u{a0}", "\u{3000}", "Home", "caf\u{e9}",
    "\u{1F600}", "key_mgmt=NONE", "bssid=", "\\", "<", ">", "&", "x",
];

fn text_of(numbers: &mut Numbers, pieces: usize) -> String {
    let mut s = String::new();
    for _ in 0..pieces {
        s.push_str(PIECES[numbers.next(PIECES.len())]);
    }
    s
}

#[test]
fn xml_parser_agrees_on_made_up_texts() {
    let mut numbers = Numbers(1);
    for round in 0..3000 {
        let text = text_of(&mut numbers, 1 + round % 40);
        assert_eq!(pairs(&parse_wifi_configstore_xml(&text)), std_xml(&text), "text {:?}", text);
    }
}

#[test]
fn supplicant_parser_agrees_on_made_up_texts() {
    let mut numbers = Numbers(2);
    for round in 0..3000 {
        let text = text_of(&mut numbers, 1 + round % 40);
        assert_eq!(pairs(&parse_wpa_supplicant(&text)), std_supplicant(&text), "text {:?}", text);
    }
}

#[test]
fn field_helpers_agree_on_made_up_texts() {
    let mut numbers = Numbers(3);
    for round in 0..3000 {
        let text = text_of(&mut numbers, 1 + round % 12);
        assert_eq!(strip_quotes(&text), std_strip_quotes(&text), "text {:?}", text);
        assert_eq!(html_unescape(&text), std_unescape(&text), "text {:?}", text);
        for name in ["SSID", "ConfigKey", "PreSharedKey", ""] {
            assert_eq!(find_string(&text, name), std_find_string(&text, name), "text {:?}", text);
        }
    }
}

#[test]
fn renderer_agrees_on_made_up_lists() {
    let mut numbers = Numbers(4);
    for round in 0..500 {
        let mut list = Vec::new();
        for _ in 0..(round % 6) {
            let ssid = text_of(&mut numbers, 1 + round % 5);
            let pass = match numbers.next(3) {
                0 => None,
                1 => Some(String::new()),
                _ => Some(text_of(&mut numbers, 2)),
            };
            list.push(WifiCred { ssid, pass });
        }
        assert_eq!(build_json(&list), std_json(&list));
    }
}

#[test]
fn merged_form_is_sorted_and_without_repeats() {
    let mut numbers = Numbers(5);
    let names = ["a", "A", "b", "B", "", "caf\u{e9}", "CAF\u{c9}", "z", "Zz", "zz", "0", "_"];
    for round in 0..500 {
        let mut list = Vec::new();
        for _ in 0..(round % 10) {
            let ssid = String::from(names[numbers.next(names.len())]);
            let pass = Some(format!("{}", numbers.next(100)));
            list.push(WifiCred { ssid, pass });
        }
        let out = normalize(&list);
        for w in out.windows(2) {
            assert!(w[0].ssid.to_lowercase() < w[1].ssid.to_lowercase());
        }
        for c in &out {
            assert!(!c.ssid.is_empty());
            let last = list.iter().rev().find(|d| d.ssid.to_lowercase() == c.ssid.to_lowercase());
            assert_eq!(last, Some(c));
        }
        for d in &list {
            if !d.ssid.is_empty() {
                assert!(out.iter().any(|c| c.same_network(d)));
            }
        }
    }
}
