//! The JSON text of a credential list: an array with one object for each
//! record, one object a line. The key of a record is always written; a record
//! without key is written with an empty key.

use vstd::prelude::*;
use vstd::std_specs::iter::IteratorSpec;
use vstd::string::StringExecFns;
use crate::cred::{Credential, WifiCred};

verus! {

/// What stands in a JSON string for the character `c`: a backslash, a double
/// quote and a line feed are written as two characters, any other character
/// as itself.
pub open spec fn escaped_char(c: char) -> Seq<char> {
    if c == '\\' {
        seq!['\\', '\\']
    } else if c == '"' {
        seq!['\\', '"']
    } else if c == '\n' {
        seq!['\\', 'n']
    } else {
        seq![c]
    }
}

/// What stands in a JSON string for the text `s`.
pub open spec fn escaped(s: Seq<char>) -> Seq<char>
    decreases s.len(),
{
    if s.len() == 0 {
        Seq::empty()
    } else {
        escaped_char(s[0]) + escaped(s.skip(1))
    }
}

/// The key as it is written: an absent key is written as the empty text.
pub open spec fn written_pass(c: Credential) -> Seq<char> {
    match c.pass {
        Some(p) => p,
        None => Seq::empty(),
    }
}

/// The object written for one credential, without what separates it from
/// its neighbours.
pub open spec fn json_object(c: Credential) -> Seq<char> {
    "{\"ssid\":\""@ + escaped(c.ssid) + "\",\"password\":\""@ + escaped(written_pass(c)) + "\"}"@
}

/// The lines written for the credentials `creds`, one object a line, each
/// line but the last ending in a comma.
pub open spec fn json_lines(creds: Seq<Credential>) -> Seq<char>
    decreases creds.len(),
{
    if creds.len() == 0 {
        Seq::empty()
    } else {
        "  "@ + json_object(creds[0]) + (if creds.len() == 1 {
            "\n"@
        } else {
            ",\n"@
        }) + json_lines(creds.skip(1))
    }
}

/// The JSON text of a credential list: an array of objects with the fields
/// `ssid` and `password`.
pub open spec fn json_text(creds: Seq<Credential>) -> Seq<char> {
    "[\n"@ + json_lines(creds) + "]"@
}

/// Escaping a text piece by piece gives the escaped text.
pub proof fn lemma_escaped_concat(a: Seq<char>, b: Seq<char>)
    ensures
        escaped(a + b) == escaped(a) + escaped(b),
    decreases a.len(),
{
    if a.len() > 0 {
        assert((a + b).skip(1) =~= a.skip(1) + b);
        lemma_escaped_concat(a.skip(1), b);
        assert(escaped_char(a[0]) + (escaped(a.skip(1)) + escaped(b)) =~= (escaped_char(a[0])
            + escaped(a.skip(1))) + escaped(b));
    }
}

/// Appends to `out` what stands in a JSON string for `s`.
pub fn push_escaped(out: &mut String, s: &str)
    ensures
        final(out)@ == old(out)@ + escaped(s@),
{
    for c in it: s.chars()
        invariant
            it.seq() == s@,
            out@ == old(out)@ + escaped(it.seq().take(it.index())),
    {
        proof {
            let done = s@.take(it.index());
            assert(s@.take(it.index() + 1) =~= done + seq![c]);
            lemma_escaped_concat(done, seq![c]);
            assert(escaped(seq![c].skip(1)) =~= Seq::<char>::empty());
        }
        if c == '\\' {
            out.push('\\');
            out.push('\\');
        } else if c == '"' {
            out.push('\\');
            out.push('"');
        } else if c == '\n' {
            out.push('\\');
            out.push('n');
        } else {
            out.push(c);
        }
        assert((old(out)@ + escaped(s@.take(it.index() as int))) + escaped_char(c) =~= old(out)@
            + (escaped(s@.take(it.index() as int)) + escaped_char(c)));
    }
    assert(s@.take(s@.len() as int) =~= s@);
}

/// Appends to `out` the object written for `c`.
pub fn push_object(out: &mut String, c: &WifiCred)
    ensures
        final(out)@ == old(out)@ + json_object(c@),
{
    out.append("{\"ssid\":\"");
    push_escaped(out, c.ssid.as_str());
    out.append("\",\"password\":\"");
    match &c.pass {
        Some(p) => {
            push_escaped(out, p.as_str());
        },
        None => {},
    }
    out.append("\"}");
}

/// Renders the list as JSON text. An absent key is written as an empty
/// string.
pub fn build_json(creds: &[WifiCred]) -> (s: String)
    ensures
        s@ == json_text(creds.deep_view()),
{
    let mut s = String::from_str("[\n");
    let n = creds.len();
    let mut i: usize = 0;
    assert(creds.deep_view().skip(0) =~= creds.deep_view());
    while i < n
        invariant
            n == creds@.len(),
            i <= n,
            s@ + json_lines(creds.deep_view().skip(i as int)) == "[\n"@ + json_lines(
                creds.deep_view(),
            ),
        decreases n - i,
    {
        assert(creds.deep_view().skip(i as int).skip(1) =~= creds.deep_view().skip(i + 1));
        s.append("  ");
        push_object(&mut s, &creds[i]);
        if i + 1 == n {
            s.append("\n");
        } else {
            s.append(",\n");
        }
        i += 1;
    }
    s.append("]");
    s
}

} // verus!
