//! The two readers of on-device configuration text: the XML configuration
//! store and the supplicant configuration. Both are total: text that holds
//! nothing recognisable gives an empty list.

use vstd::prelude::*;
use vstd::slice::slice_subrange;
use crate::cred::{Credential, WifiCred};
use crate::text::{
    chars_of, extend, find, first_occurrence, has_prefix, lemma_first_occurrence_bounds, lines,
    replace, replaced, same_text, split_line, starts_with, string_of, trim, trimmed,
};

verus! {

/// The view of an optional text.
pub open spec fn opt_text(o: Option<&[char]>) -> Option<Seq<char>> {
    match o {
        Some(s) => Some(s@),
        None => None,
    }
}

/// `s` trimmed, and without one pair of enclosing double quotes where the
/// trimmed text has one.
pub open spec fn quote_stripped(s: Seq<char>) -> Seq<char> {
    let t = trimmed(s);
    if t.len() >= 2 && t[0] == '"' && t.last() == '"' {
        t.subrange(1, t.len() - 1)
    } else {
        t
    }
}

/// `s` with the four entities `&quot;`, `&amp;`, `&lt;` and `&gt;` replaced by
/// the characters they stand for, one entity after the other in this order.
pub open spec fn unescaped(s: Seq<char>) -> Seq<char> {
    replaced(
        replaced(replaced(replaced(s, "&quot;"@, "\""@), "&amp;"@, "&"@), "&lt;"@, "<"@),
        "&gt;"@,
        ">"@,
    )
}

/// The tag that opens the string field `name`.
pub open spec fn field_open(name: Seq<char>) -> Seq<char> {
    "<string name=\""@ + name + "\">"@
}

/// The value of the first string field `name` in `hay`: the text between the
/// first opening tag of that name and the first `</string>` after it, trimmed
/// and unescaped. There is none where either tag is missing.
pub open spec fn field_value(hay: Seq<char>, name: Seq<char>) -> Option<Seq<char>> {
    match first_occurrence(hay, field_open(name)) {
        None => None,
        Some(i) => {
            let rest = hay.skip(i + field_open(name).len());
            match first_occurrence(rest, "</string>"@) {
                None => None,
                Some(e) => Some(unescaped(trimmed(rest.take(e)))),
            }
        },
    }
}

/// The credential that one network block describes, if it names a network:
/// the name is the field `SSID`, or `ConfigKey` where there is no `SSID`, and
/// the key is the field `PreSharedKey`.
pub open spec fn block_cred(chunk: Seq<char>) -> Option<Credential> {
    let name = match field_value(chunk, "SSID"@) {
        Some(s) => Some(s),
        None => field_value(chunk, "ConfigKey"@),
    };
    match name {
        None => None,
        Some(s) => Some(
            Credential {
                ssid: quote_stripped(s),
                pass: match field_value(chunk, "PreSharedKey"@) {
                    Some(p) => Some(quote_stripped(p)),
                    None => None,
                },
            },
        ),
    }
}

/// The part of `s` before the first occurrence of `mark`, or all of `s` where
/// `mark` does not occur.
pub open spec fn before(s: Seq<char>, mark: Seq<char>) -> Seq<char> {
    match first_occurrence(s, mark) {
        Some(i) => s.take(i),
        None => s,
    }
}

/// The credentials of the network blocks of `xml`, in block order. A block
/// starts after `<Network>` and runs to the next `<Network>` or to the end of
/// the text; its body ends at the first `</Network>` in it, if there is one.
pub open spec fn xml_creds(xml: Seq<char>) -> Seq<Credential>
    decreases xml.len(),
{
    match first_occurrence(xml, "<Network>"@) {
        None => Seq::empty(),
        Some(i) => {
            let rest = xml.skip(i + "<Network>"@.len());
            let found = match block_cred(before(before(rest, "<Network>"@), "</Network>"@)) {
                Some(c) => seq![c],
                None => Seq::empty(),
            };
            proof {
                lemma_first_occurrence_bounds(xml, "<Network>"@);
                reveal_strlit("<Network>");
            }
            found + xml_creds(rest)
        },
    }
}

/// What the supplicant reader remembers between two lines.
pub struct BlockState {
    /// A `network={` line was read and its block is not closed yet.
    pub in_block: bool,
    /// The name given in the open block so far.
    pub ssid: Option<Seq<char>>,
    /// The key given in the open block so far.
    pub psk: Option<Seq<char>>,
    /// The credentials of the blocks closed so far.
    pub found: Seq<Credential>,
}

/// The state after one more line.
pub open spec fn supplicant_step(st: BlockState, line: Seq<char>) -> BlockState {
    let l = trimmed(line);
    if starts_with(l, "network={"@) {
        BlockState { in_block: true, ssid: None, psk: None, found: st.found }
    } else if !st.in_block {
        st
    } else if starts_with(l, "}"@) {
        BlockState {
            in_block: false,
            ssid: None,
            psk: None,
            found: match st.ssid {
                Some(s) => st.found.push(Credential { ssid: s, pass: st.psk }),
                None => st.found,
            },
        }
    } else {
        match first_occurrence(l, "="@) {
            None => st,
            Some(e) => {
                let key = l.take(e);
                let value = quote_stripped(l.skip(e + 1));
                if key == "ssid"@ {
                    BlockState { ssid: Some(value), ..st }
                } else if key == "psk"@ {
                    BlockState { psk: Some(value), ..st }
                } else {
                    st
                }
            },
        }
    }
}

/// The state after the lines `ls`, read in order.
pub open spec fn supplicant_run(st: BlockState, ls: Seq<Seq<char>>) -> BlockState
    decreases ls.len(),
{
    if ls.len() == 0 {
        st
    } else {
        supplicant_run(supplicant_step(st, ls[0]), ls.skip(1))
    }
}

/// The state before the first line.
pub open spec fn supplicant_start() -> BlockState {
    BlockState { in_block: false, ssid: None, psk: None, found: Seq::empty() }
}

/// The credentials of the closed blocks of `conf` that name a network, in the
/// order in which the blocks close.
pub open spec fn supplicant_creds(conf: Seq<char>) -> Seq<Credential> {
    supplicant_run(supplicant_start(), lines(conf)).found
}

/// Trims `s` and removes one pair of enclosing double quotes.
pub fn unquote(s: &[char]) -> (r: &[char])
    ensures
        r@ == quote_stripped(s@),
{
    let t = trim(s);
    let n = t.len();
    if n >= 2 && t[0] == '"' && t[n - 1] == '"' {
        slice_subrange(t, 1, n - 1)
    } else {
        t
    }
}

/// Replaces the four entities by their characters.
pub fn unescape(s: &[char]) -> (r: Vec<char>)
    ensures
        r@ == unescaped(s@),
{
    let quot = chars_of("&quot;");
    let quot_to = chars_of("\"");
    let amp = chars_of("&amp;");
    let amp_to = chars_of("&");
    let lt = chars_of("&lt;");
    let lt_to = chars_of("<");
    let gt = chars_of("&gt;");
    let gt_to = chars_of(">");
    let a = replace(s, quot.as_slice(), quot_to.as_slice());
    let b = replace(a.as_slice(), amp.as_slice(), amp_to.as_slice());
    let c = replace(b.as_slice(), lt.as_slice(), lt_to.as_slice());
    replace(c.as_slice(), gt.as_slice(), gt_to.as_slice())
}

/// Looks up the value of the first string field `name` in `hay`.
pub fn field(hay: &[char], name: &[char]) -> (r: Option<Vec<char>>)
    ensures
        match r {
            Some(v) => field_value(hay@, name@) == Some(v@),
            None => field_value(hay@, name@) is None,
        },
{
    let mut needle = chars_of("<string name=\"");
    extend(&mut needle, name);
    let tail = chars_of("\">");
    extend(&mut needle, tail.as_slice());
    let close = chars_of("</string>");
    match find(hay, needle.as_slice()) {
        None => None,
        Some(i) => {
            let end = hay.len();
            let rest = slice_subrange(hay, i + needle.len(), end);
            match find(rest, close.as_slice()) {
                None => None,
                Some(e) => {
                    let raw = slice_subrange(rest, 0, e);
                    Some(unescape(trim(raw)))
                },
            }
        },
    }
}

/// Cuts `s` before the first occurrence of `mark`.
pub fn cut_before<'a>(s: &'a [char], mark: &[char]) -> (r: &'a [char])
    ensures
        r@ == before(s@, mark@),
{
    match find(s, mark) {
        Some(i) => {
            slice_subrange(s, 0, i)
        },
        None => s,
    }
}

/// Builds a record from the characters of its name and of its key.
pub fn make_cred(ssid: &[char], pass: Option<&[char]>) -> (c: WifiCred)
    ensures
        c@ == (Credential { ssid: ssid@, pass: opt_text(pass) }),
{
    WifiCred {
        ssid: string_of(ssid),
        pass: match pass {
            Some(p) => Some(string_of(p)),
            None => None,
        },
    }
}

/// Reads the credential that one network block describes.
pub fn read_block(chunk: &[char]) -> (r: Option<WifiCred>)
    ensures
        match r {
            Some(c) => block_cred(chunk@) == Some(c@),
            None => block_cred(chunk@) is None,
        },
{
    let ssid_name = chars_of("SSID");
    let key_name = chars_of("ConfigKey");
    let psk_name = chars_of("PreSharedKey");
    let name = match field(chunk, ssid_name.as_slice()) {
        Some(s) => Some(s),
        None => field(chunk, key_name.as_slice()),
    };
    match name {
        None => None,
        Some(s) => {
            let psk = field(chunk, psk_name.as_slice());
            let pass: Option<&[char]> = match &psk {
                Some(p) => Some(unquote(p.as_slice())),
                None => None,
            };
            Some(make_cred(unquote(s.as_slice()), pass))
        },
    }
}

/// Reads the credentials stored in the text of an XML configuration store.
pub fn parse_wifi_configstore_xml(xml: &str) -> (out: Vec<WifiCred>)
    ensures
        out.deep_view() == xml_creds(xml@),
{
    let text = chars_of(xml);
    let open = chars_of("<Network>");
    let close = chars_of("</Network>");
    let mut out: Vec<WifiCred> = Vec::new();
    let mut rest: &[char] = text.as_slice();
    loop
        invariant
            open@ == "<Network>"@,
            close@ == "</Network>"@,
            out.deep_view() + xml_creds(rest@) == xml_creds(xml@),
        decreases rest@.len(),
    {
        match find(rest, open.as_slice()) {
            None => {
                return out;
            },
            Some(i) => {
                proof {
                    reveal_strlit("<Network>");
                }
                let end = rest.len();
                let after = slice_subrange(rest, i + open.len(), end);
                let chunk = cut_before(cut_before(after, open.as_slice()), close.as_slice());
                match read_block(chunk) {
                    Some(c) => {
                        out.push(c);
                    },
                    None => {},
                }
                rest = after;
            },
        }
    }
}

/// The state of the supplicant reader, from its parts.
pub open spec fn block_state(
    in_block: bool,
    ssid: Option<&[char]>,
    psk: Option<&[char]>,
    found: Seq<Credential>,
) -> BlockState {
    BlockState { in_block, ssid: opt_text(ssid), psk: opt_text(psk), found }
}

/// Reads the credentials stored in the text of a supplicant configuration.
pub fn parse_wpa_supplicant(conf: &str) -> (out: Vec<WifiCred>)
    ensures
        out.deep_view() == supplicant_creds(conf@),
{
    let text = chars_of(conf);
    let open = chars_of("network={");
    let close = chars_of("}");
    let equals = chars_of("=");
    let ssid_key = chars_of("ssid");
    let psk_key = chars_of("psk");
    let mut out: Vec<WifiCred> = Vec::new();
    let mut in_block = false;
    let mut ssid: Option<&[char]> = None;
    let mut psk: Option<&[char]> = None;
    let mut rest: &[char] = text.as_slice();
    assert(out.deep_view() =~= Seq::<Credential>::empty());
    loop
        invariant
            open@ == "network={"@,
            close@ == "}"@,
            equals@ == "="@,
            ssid_key@ == "ssid"@,
            psk_key@ == "psk"@,
            supplicant_run(block_state(in_block, ssid, psk, out.deep_view()), lines(rest@)).found
                == supplicant_creds(conf@),
        decreases rest@.len(),
    {
        let (line, next) = match split_line(rest) {
            Some(parts) => parts,
            None => {
                return out;
            },
        };
        assert((seq![line@] + lines(next@)).skip(1) =~= lines(next@));
        let l = trim(line);
        if has_prefix(l, open.as_slice()) {
            in_block = true;
            ssid = None;
            psk = None;
        } else if !in_block {
            // a line outside any block says nothing
        } else if has_prefix(l, close.as_slice()) {
            match ssid {
                Some(s) => {
                    let ghost before_push = out.deep_view();
                    let c = make_cred(s, psk);
                    let ghost cv = c@;
                    out.push(c);
                    assert(out.deep_view() =~= before_push.push(cv));
                },
                None => {},
            }
            in_block = false;
            ssid = None;
            psk = None;
        } else {
            match find(l, equals.as_slice()) {
                None => {},
                Some(e) => {
                    proof {
                        reveal_strlit("=");
                    }
                    let end = l.len();
                    let key = slice_subrange(l, 0, e);
                    let value = unquote(slice_subrange(l, e + 1, end));
                    if same_text(key, ssid_key.as_slice()) {
                        ssid = Some(value);
                    } else if same_text(key, psk_key.as_slice()) {
                        psk = Some(value);
                    }
                },
            }
        }
        rest = next;
    }
}

/// Looks up the value of the first string field `name` in `hay`.
pub fn find_string(hay: &str, name: &str) -> (r: Option<String>)
    ensures
        match r {
            Some(v) => field_value(hay@, name@) == Some(v@),
            None => field_value(hay@, name@) is None,
        },
{
    let h = chars_of(hay);
    let n = chars_of(name);
    match field(h.as_slice(), n.as_slice()) {
        Some(v) => Some(string_of(v.as_slice())),
        None => None,
    }
}

/// Replaces the four entities `&quot;`, `&amp;`, `&lt;` and `&gt;` by their
/// characters.
pub fn html_unescape(s: &str) -> (r: String)
    ensures
        r@ == unescaped(s@),
{
    let v = chars_of(s);
    let u = unescape(v.as_slice());
    string_of(u.as_slice())
}

/// Trims `s` and removes one pair of enclosing double quotes.
pub fn strip_quotes(s: &str) -> (r: String)
    ensures
        r@ == quote_stripped(s@),
{
    let v = chars_of(s);
    string_of(unquote(v.as_slice()))
}

} // verus!
