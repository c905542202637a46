//! What holds of the two readers of configuration text on all inputs of a
//! kind: text without blocks gives nothing, and a block with a name and a key
//! gives the credential of both.

use vstd::prelude::*;
use crate::cred::Credential;
use crate::parsers::{
    before, block_cred, field_open, field_value, quote_stripped, supplicant_creds, supplicant_run,
    supplicant_start, supplicant_step, unescaped, xml_creds, BlockState,
};
use crate::text::{
    first_from, first_line_len, first_occurrence, is_whitespace, lemma_first_from,
    lemma_first_line_len, lines, occurs_at, starts_with, trimmed, trimmed_end, trimmed_start,
    without_cr,
};

verus! {

/// `pat` occurs nowhere in `s`.
pub open spec fn free_of(s: Seq<char>, pat: Seq<char>) -> bool {
    forall|j: int| !occurs_at(s, pat, j)
}

/// A text holds a pattern exactly if a first occurrence is found.
pub proof fn lemma_free_of(s: Seq<char>, pat: Seq<char>)
    ensures
        free_of(s, pat) <==> first_occurrence(s, pat) is None,
{
    lemma_first_from(s, pat, 0);
}

/// A part of a text that is free of a pattern is free of it.
pub proof fn lemma_free_part(s: Seq<char>, pat: Seq<char>, a: int, b: int)
    requires
        free_of(s, pat),
        0 <= a <= b <= s.len(),
    ensures
        free_of(s.subrange(a, b), pat),
{
    let part = s.subrange(a, b);
    assert forall|j: int| !occurs_at(part, pat, j) by {
        if occurs_at(part, pat, j) {
            assert(s.subrange(a + j, a + j + pat.len()) =~= part.subrange(j, j + pat.len()));
            assert(occurs_at(s, pat, a + j));
        }
    }
}

/// Trimming a text that is free of a pattern leaves it free of it.
pub proof fn lemma_free_trimmed(s: Seq<char>, pat: Seq<char>)
    requires
        free_of(s, pat),
    ensures
        free_of(trimmed(s), pat),
{
    lemma_free_trimmed_start(s, pat);
    lemma_free_trimmed_end(trimmed_start(s), pat);
}

/// Trimming at the start leaves a text free of what it was free of.
proof fn lemma_free_trimmed_start(s: Seq<char>, pat: Seq<char>)
    requires
        free_of(s, pat),
    ensures
        free_of(trimmed_start(s), pat),
    decreases s.len(),
{
    if s.len() > 0 && is_whitespace(s[0]) {
        lemma_free_part(s, pat, 1, s.len() as int);
        lemma_free_trimmed_start(s.skip(1), pat);
    }
}

/// Trimming at the end leaves a text free of what it was free of.
proof fn lemma_free_trimmed_end(s: Seq<char>, pat: Seq<char>)
    requires
        free_of(s, pat),
    ensures
        free_of(trimmed_end(s), pat),
    decreases s.len(),
{
    if s.len() > 0 && is_whitespace(s.last()) {
        lemma_free_part(s, pat, 0, s.len() - 1);
        lemma_free_trimmed_end(s.drop_last(), pat);
    }
}

/// Each line of a text that is free of a pattern is free of it.
pub proof fn lemma_free_lines(s: Seq<char>, pat: Seq<char>)
    requires
        free_of(s, pat),
    ensures
        forall|i: int| 0 <= i < lines(s).len() ==> free_of(#[trigger] lines(s)[i], pat),
    decreases s.len(),
{
    if s.len() > 0 {
        lemma_first_line_len(s);
        let n = first_line_len(s) as int;
        if n < s.len() {
            let head = s.take(n);
            lemma_free_part(s, pat, 0, n);
            if head.len() > 0 && head.last() == '\r' {
                lemma_free_part(head, pat, 0, head.len() - 1);
            }
            lemma_free_part(s, pat, n + 1, s.len() as int);
            lemma_free_lines(s.skip(n + 1), pat);
            let tail = lines(s.skip(n + 1));
            assert forall|i: int| 0 <= i < lines(s).len() implies free_of(
                #[trigger] lines(s)[i],
                pat,
            ) by {
                if i > 0 {
                    assert(lines(s)[i] == tail[i - 1]);
                }
            }
        }
    }
}

/// Lines of which none opens a block leave the reader where it is, as long
/// as it is in no block.
pub proof fn lemma_supplicant_idle(st: BlockState, ls: Seq<Seq<char>>)
    requires
        !st.in_block,
        forall|i: int| 0 <= i < ls.len() ==> !starts_with(trimmed(#[trigger] ls[i]), "network={"@),
    ensures
        supplicant_run(st, ls) == st,
    decreases ls.len(),
{
    if ls.len() > 0 {
        assert forall|i: int| 0 <= i < ls.skip(1).len() implies !starts_with(
            trimmed(#[trigger] ls.skip(1)[i]),
            "network={"@,
        ) by {
        }
        lemma_supplicant_idle(st, ls.skip(1));
    }
}

/// A configuration text in which `network={` does not occur gives no
/// credential.
pub proof fn lemma_supplicant_nothing(conf: Seq<char>)
    requires
        first_occurrence(conf, "network={"@) is None,
    ensures
        supplicant_creds(conf) == Seq::<Credential>::empty(),
{
    let pat = "network={"@;
    lemma_free_of(conf, pat);
    lemma_free_lines(conf, pat);
    let ls = lines(conf);
    assert forall|i: int| 0 <= i < ls.len() implies !starts_with(trimmed(#[trigger] ls[i]), pat) by {
        lemma_free_trimmed(ls[i], pat);
    }
    lemma_supplicant_idle(supplicant_start(), ls);
}

/// A store text in which `<Network>` does not occur gives no credential.
pub proof fn lemma_xml_nothing(xml: Seq<char>)
    requires
        first_occurrence(xml, "<Network>"@) is None,
    ensures
        xml_creds(xml) == Seq::<Credential>::empty(),
{
}

/// The empty text gives no credential, read as a store text or as a
/// configuration text.
pub proof fn lemma_empty_text()
    ensures
        xml_creds(Seq::<char>::empty()) == Seq::<Credential>::empty(),
        supplicant_creds(Seq::<char>::empty()) == Seq::<Credential>::empty(),
{
    reveal_strlit("<Network>");
    reveal_strlit("network={");
    lemma_supplicant_nothing(Seq::empty());
}

/// A text that neither begins nor ends with white space is its own trimmed
/// form.
pub proof fn lemma_trimmed_fixed(s: Seq<char>)
    requires
        s.len() > 0,
        !is_whitespace(s[0]),
        !is_whitespace(s.last()),
    ensures
        trimmed(s) == s,
{
}

/// A text in double quotes, stripped of them, is the text between them.
pub proof fn lemma_quote_stripped(x: Seq<char>)
    ensures
        quote_stripped("\""@ + x + "\""@) == x,
{
    reveal_strlit("\"");
    let q = "\""@ + x + "\""@;
    lemma_trimmed_fixed(q);
}

/// Where the first occurrence of a one-character pattern lies: after a
/// prefix that does not hold the character.
proof fn lemma_first_char(s: Seq<char>, c: char, k: int, from: int)
    requires
        0 <= from <= k < s.len(),
        s[k] == c,
        forall|j: int| from <= j < k ==> s[j] != c,
    ensures
        first_from(s, seq![c], from) == Some(k),
    decreases k - from,
{
    let pat = seq![c];
    if from < k {
        assert(s.subrange(from, from + 1)[0] == s[from]);
        lemma_first_char(s, c, k, from + 1);
    } else {
        assert(s.subrange(k, k + 1) =~= pat);
    }
}

/// The beginning of a line that gives the name or the key, in its parts.
proof fn lemma_field_heads()
    ensures
        "ssid=\""@ == "ssid"@ + "=\""@,
        "psk=\""@ == "psk"@ + "=\""@,
{
    reveal_strlit("ssid=\"");
    reveal_strlit("psk=\"");
    reveal_strlit("ssid");
    reveal_strlit("psk");
    reveal_strlit("=\"");
    assert("ssid=\""@ =~= "ssid"@ + "=\""@);
    assert("psk=\""@ =~= "psk"@ + "=\""@);
}

/// What a line `key="value"` does to an open block, for the two keys that
/// count.
proof fn lemma_field_line(st: BlockState, line: Seq<char>, key: Seq<char>, x: Seq<char>)
    requires
        st.in_block,
        key == "ssid"@ || key == "psk"@,
        trimmed(line) == key + "=\""@ + x + "\""@,
    ensures
        key == "ssid"@ ==> supplicant_step(st, line) == (BlockState { ssid: Some(x), ..st }),
        key == "psk"@ ==> supplicant_step(st, line) == (BlockState { psk: Some(x), ..st }),
{
    reveal_strlit("ssid");
    reveal_strlit("psk");
    reveal_strlit("=\"");
    reveal_strlit("\"");
    reveal_strlit("=");
    reveal_strlit("network={");
    reveal_strlit("}");
    let l = trimmed(line);
    let n = key.len() as int;
    assert(!starts_with(l, "network={"@)) by {
        if starts_with(l, "network={"@) {
            assert(l.subrange(0, 9)[0] == l[0]);
        }
    }
    assert(!starts_with(l, "}"@)) by {
        if starts_with(l, "}"@) {
            assert(l.subrange(0, 1)[0] == l[0]);
        }
    }
    assert("="@ =~= seq!['=']);
    assert forall|j: int| 0 <= j < n implies l[j] != '=' by {
    }
    lemma_first_char(l, '=', n, 0);
    assert(l.take(n) =~= key);
    assert(l.skip(n + 1) =~= "\""@ + x + "\""@);
    lemma_quote_stripped(x);
}

/// A block that gives a name and a key yields one credential with both,
/// whatever came before it: a line that opens the block, a line `ssid="X"`,
/// a line `psk="Y"` and a line that closes the block, each as it reads when
/// trimmed, add the credential of `X` and `Y` to what was found.
pub proof fn lemma_supplicant_block_lines(
    st: BlockState,
    open: Seq<char>,
    name_line: Seq<char>,
    key_line: Seq<char>,
    close: Seq<char>,
    x: Seq<char>,
    y: Seq<char>,
)
    requires
        starts_with(trimmed(open), "network={"@),
        trimmed(name_line) == "ssid=\""@ + x + "\""@,
        trimmed(key_line) == "psk=\""@ + y + "\""@,
        starts_with(trimmed(close), "}"@),
    ensures
        supplicant_run(st, seq![open, name_line, key_line, close]) == (BlockState {
            in_block: false,
            ssid: None,
            psk: None,
            found: st.found.push(Credential { ssid: x, pass: Some(y) }),
        }),
{
    lemma_field_heads();
    let ls = seq![open, name_line, key_line, close];
    let s1 = supplicant_step(st, open);
    lemma_field_line(s1, name_line, "ssid"@, x);
    let s2 = supplicant_step(s1, name_line);
    lemma_field_line(s2, key_line, "psk"@, y);
    let s3 = supplicant_step(s2, key_line);
    lemma_close_line(s3, close);
    let none = Seq::<Seq<char>>::empty();
    assert(ls =~= seq![open] + (seq![name_line] + (seq![key_line] + (seq![close] + none))));
    lemma_supplicant_run_cons(st, open, seq![name_line] + (seq![key_line] + (seq![close] + none)));
    lemma_supplicant_run_cons(s1, name_line, seq![key_line] + (seq![close] + none));
    lemma_supplicant_run_cons(s2, key_line, seq![close] + none);
    lemma_supplicant_run_cons(s3, close, none);
}

/// A block that gives no name yields nothing: a line that opens the block, a
/// line `psk="Y"` and a line that closes the block leave what was found as it
/// was.
pub proof fn lemma_supplicant_block_without_name(
    st: BlockState,
    open: Seq<char>,
    key_line: Seq<char>,
    close: Seq<char>,
    y: Seq<char>,
)
    requires
        starts_with(trimmed(open), "network={"@),
        trimmed(key_line) == "psk=\""@ + y + "\""@,
        starts_with(trimmed(close), "}"@),
    ensures
        supplicant_run(st, seq![open, key_line, close]) == (BlockState {
            in_block: false,
            ssid: None,
            psk: None,
            found: st.found,
        }),
{
    lemma_field_heads();
    let ls = seq![open, key_line, close];
    let s1 = supplicant_step(st, open);
    lemma_field_line(s1, key_line, "psk"@, y);
    let s2 = supplicant_step(s1, key_line);
    lemma_close_line(s2, close);
    let none = Seq::<Seq<char>>::empty();
    assert(ls =~= seq![open] + (seq![key_line] + (seq![close] + none)));
    lemma_supplicant_run_cons(st, open, seq![key_line] + (seq![close] + none));
    lemma_supplicant_run_cons(s1, key_line, seq![close] + none);
    lemma_supplicant_run_cons(s2, close, none);
}

/// Reading lines begins with the first line.
proof fn lemma_supplicant_run_cons(st: BlockState, line: Seq<char>, rest: Seq<Seq<char>>)
    ensures
        supplicant_run(st, seq![line] + rest) == supplicant_run(supplicant_step(st, line), rest),
{
    assert((seq![line] + rest).skip(1) =~= rest);
}

/// What a line that closes a block does to an open block.
proof fn lemma_close_line(st: BlockState, close: Seq<char>)
    requires
        st.in_block,
        starts_with(trimmed(close), "}"@),
    ensures
        supplicant_step(st, close) == (BlockState {
            in_block: false,
            ssid: None,
            psk: None,
            found: match st.ssid {
                Some(s) => st.found.push(Credential { ssid: s, pass: st.psk }),
                None => st.found,
            },
        }),
{
    reveal_strlit("network={");
    reveal_strlit("}");
    let l = trimmed(close);
    if starts_with(l, "network={"@) {
        assert(l.subrange(0, 9)[0] == l[0]);
    }
}

/// Reading lines piece by piece gives what reading them all gives.
pub proof fn lemma_supplicant_run_concat(st: BlockState, a: Seq<Seq<char>>, b: Seq<Seq<char>>)
    ensures
        supplicant_run(st, a + b) == supplicant_run(supplicant_run(st, a), b),
    decreases a.len(),
{
    if a.len() > 0 {
        assert((a + b).skip(1) =~= a.skip(1) + b);
        lemma_supplicant_run_concat(supplicant_step(st, a[0]), a.skip(1), b);
    }
}

/// The first line of a text ends at its first line feed.
pub proof fn lemma_lines_cons(line: Seq<char>, rest: Seq<char>)
    requires
        forall|j: int| 0 <= j < line.len() ==> line[j] != '\n',
    ensures
        lines(line + "\n"@ + rest) == seq![without_cr(line)] + lines(rest),
{
    reveal_strlit("\n");
    let s = line + "\n"@ + rest;
    lemma_first_line_len(s);
    let n = first_line_len(s) as int;
    if n > line.len() {
        assert(s[line.len() as int] == '\n');
    }
    assert(s.take(n) =~= line);
    assert(s.skip(n + 1) =~= rest);
}

/// A text without line feed is one line.
pub proof fn lemma_lines_last(line: Seq<char>)
    requires
        line.len() > 0,
        forall|j: int| 0 <= j < line.len() ==> line[j] != '\n',
    ensures
        lines(line) == seq![line],
{
    lemma_first_line_len(line);
}

/// A configuration text that is one block with a name and a key gives one
/// credential, with that name and that key.
pub proof fn lemma_supplicant_block(x: Seq<char>, y: Seq<char>)
    requires
        forall|j: int| 0 <= j < x.len() ==> x[j] != '\n',
        forall|j: int| 0 <= j < y.len() ==> y[j] != '\n',
    ensures
        supplicant_creds("network={\nssid=\""@ + x + "\"\npsk=\""@ + y + "\"\n}"@) == seq![
            Credential { ssid: x, pass: Some(y) },
        ],
{
    reveal_strlit("network={\nssid=\"");
    reveal_strlit("ssid=\"");
    reveal_strlit("psk=\"");
    reveal_strlit("\"\npsk=\"");
    reveal_strlit("\"\n}");
    reveal_strlit("network={");
    reveal_strlit("ssid");
    reveal_strlit("psk");
    reveal_strlit("=\"");
    reveal_strlit("\"");
    reveal_strlit("\n");
    reveal_strlit("}");
    let conf = "network={\nssid=\""@ + x + "\"\npsk=\""@ + y + "\"\n}"@;
    let open = "network={"@;
    let name_line = "ssid=\""@ + x + "\""@;
    let key_line = "psk=\""@ + y + "\""@;
    let close = "}"@;
    let nl = "\n"@;
    let r3 = close;
    let r2 = key_line + nl + r3;
    let r1 = name_line + nl + r2;
    assert(conf =~= open + nl + r1);
    lemma_lines_cons(open, r1);
    lemma_lines_cons(name_line, r2);
    lemma_lines_cons(key_line, r3);
    lemma_lines_last(close);
    let ls = seq![open, name_line, key_line, close];
    assert(lines(conf) =~= ls);
    lemma_trimmed_fixed(open);
    lemma_trimmed_fixed(name_line);
    lemma_trimmed_fixed(key_line);
    lemma_trimmed_fixed(close);
    assert(open.subrange(0, 9) =~= open);
    assert(close.subrange(0, 1) =~= close);
    lemma_supplicant_block_lines(supplicant_start(), open, name_line, key_line, close, x, y);
    assert(Seq::<Credential>::empty().push(Credential { ssid: x, pass: Some(y) }) =~= seq![
        Credential { ssid: x, pass: Some(y) },
    ]);
}

/// A configuration text that is one block with a key and no name gives no
/// credential.
pub proof fn lemma_supplicant_block_nameless(y: Seq<char>)
    requires
        forall|j: int| 0 <= j < y.len() ==> y[j] != '\n',
    ensures
        supplicant_creds("network={\npsk=\""@ + y + "\"\n}"@) == Seq::<Credential>::empty(),
{
    reveal_strlit("network={\npsk=\"");
    reveal_strlit("psk=\"");
    reveal_strlit("\"\n}");
    reveal_strlit("network={");
    reveal_strlit("psk");
    reveal_strlit("=\"");
    reveal_strlit("\"");
    reveal_strlit("\n");
    reveal_strlit("}");
    let conf = "network={\npsk=\""@ + y + "\"\n}"@;
    let open = "network={"@;
    let key_line = "psk=\""@ + y + "\""@;
    let close = "}"@;
    let nl = "\n"@;
    let r2 = key_line + nl + close;
    assert(conf =~= open + nl + r2);
    lemma_lines_cons(open, r2);
    lemma_lines_cons(key_line, close);
    lemma_lines_last(close);
    let ls = seq![open, key_line, close];
    assert(lines(conf) =~= ls);
    lemma_trimmed_fixed(open);
    lemma_trimmed_fixed(key_line);
    lemma_trimmed_fixed(close);
    assert(open.subrange(0, 9) =~= open);
    assert(close.subrange(0, 1) =~= close);
    lemma_supplicant_block_without_name(supplicant_start(), open, key_line, close, y);
}

/// The characters of `t` from the second to the one at `k` are no angle
/// brackets.
pub open spec fn no_bracket(t: Seq<char>, k: int) -> bool
    decreases k,
{
    k <= 0 || (t[k] != '<' && t[k] != '>' && no_bracket(t, k - 1))
}

/// `t` is a tag: it begins with `<`, ends with `>`, and holds no other angle
/// bracket.
pub open spec fn is_tag(t: Seq<char>) -> bool {
    &&& t.len() >= 2
    &&& t[0] == '<'
    &&& t.last() == '>'
    &&& no_bracket(t, t.len() - 2)
}

/// What `no_bracket` says of one character.
proof fn lemma_no_bracket(t: Seq<char>, k: int, j: int)
    requires
        no_bracket(t, k),
        1 <= j <= k,
    ensures
        t[j] != '<' && t[j] != '>',
    decreases k,
{
    if j < k {
        lemma_no_bracket(t, k - 1, j);
    }
}

/// Inside a tag stands no `<`, and before its end no `>`.
proof fn lemma_tag_inside(t: Seq<char>, j: int)
    requires
        is_tag(t),
        1 <= j < t.len(),
    ensures
        t[j] != '<',
        j < t.len() - 1 ==> t[j] != '>',
{
    if j < t.len() - 1 {
        lemma_no_bracket(t, t.len() - 2, j);
    }
}

/// An occurrence before which there is none is the first.
proof fn lemma_first_is(s: Seq<char>, m: Seq<char>, k: int)
    requires
        occurs_at(s, m, k),
        forall|p: int| 0 <= p < k ==> !occurs_at(s, m, p),
    ensures
        first_occurrence(s, m) == Some(k),
{
    lemma_first_from(s, m, 0);
}

/// An occurrence of a tag cannot begin in `g` and reach into what follows,
/// where that begins with `<`.
proof fn lemma_no_span(g: Seq<char>, w: Seq<char>, m: Seq<char>, p: int)
    requires
        is_tag(m),
        free_of(g, m),
        w.len() > 0 ==> w[0] == '<',
        0 <= p < g.len(),
    ensures
        !occurs_at(g + w, m, p),
{
    let s = g + w;
    if occurs_at(s, m, p) {
        let part = s.subrange(p, p + m.len());
        if p + m.len() <= g.len() {
            assert(g.subrange(p, p + m.len()) =~= part);
            assert(occurs_at(g, m, p));
        } else {
            let j = g.len() - p;
            lemma_tag_inside(m, j);
        }
    }
}

/// Where a tag is first found in a text that begins with a stretch free of
/// it, followed by a tag: at that tag, if it is the one looked for, and
/// after it otherwise.
proof fn lemma_find_step(g: Seq<char>, t: Seq<char>, w: Seq<char>, m: Seq<char>)
    requires
        is_tag(m),
        is_tag(t),
        free_of(g, m),
    ensures
        first_occurrence(g + t + w, m) == if t == m {
            Some(g.len() as int)
        } else {
            match first_occurrence(w, m) {
                Some(i) => Some(g.len() + t.len() + i),
                None => None,
            }
        },
{
    let s = g + t + w;
    let base = g.len() + t.len();
    assert(s =~= g + (t + w));
    assert forall|p: int| 0 <= p < g.len() implies !occurs_at(s, m, p) by {
        lemma_no_span(g, t + w, m, p);
    }
    assert forall|p: int| g.len() < p < base implies !occurs_at(s, m, p) by {
        if occurs_at(s, m, p) {
            lemma_tag_inside(t, p - g.len());
        }
    }
    assert forall|p: int| p >= base implies (occurs_at(s, m, p) <==> occurs_at(w, m, p - base)) by {
        if p + m.len() <= s.len() {
            assert(s.subrange(p, p + m.len()) =~= w.subrange(p - base, p - base + m.len()));
        }
    }
    let at = g.len() as int;
    if t == m {
        assert(s.subrange(at, at + m.len()) =~= t);
        lemma_first_is(s, m, at);
    } else {
        if occurs_at(s, m, at) {
            let part = s.subrange(at, at + m.len());
            if m.len() <= t.len() {
                lemma_tag_inside(t, m.len() - 1);
                assert(part =~= t);
            } else {
                lemma_tag_inside(m, t.len() - 1);
            }
        }
        lemma_first_from(w, m, 0);
        match first_occurrence(w, m) {
            Some(i) => {
                assert forall|p: int| 0 <= p < base + i implies !occurs_at(s, m, p) by {}
                lemma_first_is(s, m, base + i);
            },
            None => {
                assert forall|p: int| !occurs_at(s, m, p) by {}
                lemma_free_of(s, m);
            },
        }
    }
}

/// Where a tag is first found in a text whose second part begins with it: in
/// the first part if it occurs there, and else where the second part begins.
proof fn lemma_find_concat(u: Seq<char>, v: Seq<char>, m: Seq<char>)
    requires
        is_tag(m),
        starts_with(v, m),
    ensures
        first_occurrence(u + v, m) == match first_occurrence(u, m) {
            Some(i) => Some(i),
            None => Some(u.len() as int),
        },
{
    let s = u + v;
    lemma_first_from(u, m, 0);
    match first_occurrence(u, m) {
        Some(i) => {
            assert(s.subrange(i, i + m.len()) =~= u.subrange(i, i + m.len()));
            assert forall|p: int| 0 <= p < i implies !occurs_at(s, m, p) by {
                if occurs_at(s, m, p) {
                    assert(s.subrange(p, p + m.len()) =~= u.subrange(p, p + m.len()));
                    assert(occurs_at(u, m, p));
                }
            }
            lemma_first_is(s, m, i);
        },
        None => {
            lemma_free_of(u, m);
            let w = v.skip(m.len() as int);
            assert(s =~= u + m + w);
            lemma_find_step(u, m, w, m);
        },
    }
}

/// The credentials of a text whose second part begins with `<Network>` are
/// those of the first part, followed by those of the second.
pub proof fn lemma_xml_concat(u: Seq<char>, v: Seq<char>)
    requires
        starts_with(v, "<Network>"@),
    ensures
        xml_creds(u + v) == xml_creds(u) + xml_creds(v),
    decreases u.len(),
{
    let open = "<Network>"@;
    let close = "</Network>"@;
    lemma_tag_network();
    reveal_strlit("<Network>");
    let s = u + v;
    lemma_find_concat(u, v, open);
    lemma_first_from(u, open, 0);
    match first_occurrence(u, open) {
        Some(i) => {
            let rest_u = u.skip(i + 9);
            let rest_s = s.skip(i + 9);
            assert(rest_s =~= rest_u + v);
            lemma_find_concat(rest_u, v, open);
            lemma_first_from(rest_u, open, 0);
            assert(before(rest_s, open) =~= before(rest_u, open));
            lemma_xml_concat(rest_u, v);
            let found = match block_cred(before(before(rest_u, open), close)) {
                Some(c) => seq![c],
                None => Seq::<Credential>::empty(),
            };
            assert(found + (xml_creds(rest_u) + xml_creds(v)) =~= (found + xml_creds(rest_u))
                + xml_creds(v));
        },
        None => {
            lemma_find_concat(Seq::empty(), v, open);
            assert(s.skip(u.len() as int + 9) =~= v.skip(9));
        },
    }
}

/// The four marks of the store's text are tags.
proof fn lemma_tag_network()
    ensures
        is_tag("<Network>"@),
        is_tag("</Network>"@),
        is_tag("</string>"@),
{
    reveal_strlit("<Network>");
    reveal_strlit("</Network>");
    reveal_strlit("</string>");
    reveal_with_fuel(no_bracket, 12);
}

/// The tags that open the fields `SSID` and `PreSharedKey` are tags.
proof fn lemma_tag_fields()
    ensures
        is_tag(field_open("SSID"@)),
        is_tag(field_open("PreSharedKey"@)),
        field_open("SSID"@).len() == 20,
        field_open("PreSharedKey"@).len() == 28,
{
    reveal_strlit("<string name=\"");
    reveal_strlit("SSID");
    reveal_strlit("PreSharedKey");
    reveal_strlit("\">");
    reveal_strlit("<string name=\"SSID\">");
    reveal_strlit("<string name=\"PreSharedKey\">");
    reveal_with_fuel(no_bracket, 30);
}

/// The tag that opens the field `ConfigKey` is a tag.
proof fn lemma_tag_config_key()
    ensures
        is_tag(field_open("ConfigKey"@)),
{
    reveal_strlit("<string name=\"");
    reveal_strlit("ConfigKey");
    reveal_strlit("\">");
    reveal_strlit("<string name=\"ConfigKey\">");
    reveal_with_fuel(no_bracket, 30);
}

/// The text holds no network tag, neither the opening nor the closing one.
pub open spec fn tagless(g: Seq<char>) -> bool {
    &&& free_of(g, "<Network>"@)
    &&& free_of(g, "</Network>"@)
}

/// The value of a string field, where no field of that name opens in the
/// text `g` before it and its value `x` holds no closing tag.
proof fn lemma_field_found(g: Seq<char>, name: Seq<char>, x: Seq<char>, w: Seq<char>)
    requires
        free_of(g, field_open(name)),
        free_of(x, "</string>"@),
        is_tag(field_open(name)),
    ensures
        field_value(g + field_open(name) + x + "</string>"@ + w, name) == Some(
            unescaped(trimmed(x)),
        ),
{
    let tag = field_open(name);
    let end = "</string>"@;
    let hay = g + tag + x + end + w;
    lemma_tag_network();
    assert(hay =~= g + tag + (x + end + w));
    lemma_find_step(g, tag, x + end + w, tag);
    let rest = hay.skip(g.len() as int + tag.len());
    assert(rest =~= x + end + w);
    lemma_find_step(x, end, w, end);
    assert(rest.take(x.len() as int) =~= x);
}

/// The five tags of a block are tags, and no two of them are the same but
/// the two that close a string field.
proof fn lemma_tags()
    ensures
        is_tag("<Network>"@),
        is_tag("</Network>"@),
        is_tag("</string>"@),
        is_tag(field_open("SSID"@)),
        is_tag(field_open("PreSharedKey"@)),
        "<Network>"@ != "</Network>"@,
        "<Network>"@ != "</string>"@,
        "<Network>"@ != field_open("SSID"@),
        "<Network>"@ != field_open("PreSharedKey"@),
        "</Network>"@ != "</string>"@,
        "</Network>"@ != field_open("SSID"@),
        "</Network>"@ != field_open("PreSharedKey"@),
        "</string>"@ != field_open("SSID"@),
        "</string>"@ != field_open("PreSharedKey"@),
        field_open("SSID"@) != field_open("PreSharedKey"@),
{
    lemma_tag_network();
    lemma_tag_fields();
    reveal_strlit("<Network>");
    reveal_strlit("</Network>");
    reveal_strlit("</string>");
}

/// The body of a block with a name and a key: the field `SSID` with the
/// value `x` and, after it, the field `PreSharedKey` with the value `y`, with
/// the texts `a`, `b` and `c` before, between and after the two fields.
pub open spec fn block_body(a: Seq<char>, x: Seq<char>, b: Seq<char>, y: Seq<char>, c: Seq<char>)
    -> Seq<char> {
    a + field_open("SSID"@) + x + "</string>"@ + b + field_open("PreSharedKey"@) + y
        + "</string>"@ + c
}

/// The parts of a block's body are such that the two fields are the first
/// of their names and end where they seem to: no part holds a network tag;
/// the field `SSID` does not open in `a`, nor the field `PreSharedKey` in
/// `a`, `x` or `b`; and neither value holds the tag that closes a field.
pub open spec fn plain_block(a: Seq<char>, x: Seq<char>, b: Seq<char>, y: Seq<char>, c: Seq<char>)
    -> bool {
    &&& tagless(a) && tagless(x) && tagless(b) && tagless(y) && tagless(c)
    &&& free_of(a, field_open("SSID"@))
    &&& free_of(a, field_open("PreSharedKey"@))
    &&& free_of(x, field_open("PreSharedKey"@))
    &&& free_of(b, field_open("PreSharedKey"@))
    &&& free_of(x, "</string>"@)
    &&& free_of(y, "</string>"@)
}

/// Where a network tag `m` is first found in a block's body that is followed
/// by the tag `t` and the text `w`: at `t` if that is the tag, and else
/// where it is found in `w`.
proof fn lemma_find_past_body(
    a: Seq<char>,
    x: Seq<char>,
    b: Seq<char>,
    y: Seq<char>,
    c: Seq<char>,
    t: Seq<char>,
    w: Seq<char>,
    m: Seq<char>,
)
    requires
        plain_block(a, x, b, y, c),
        m == "<Network>"@ || m == "</Network>"@,
        is_tag(t),
    ensures
        first_occurrence(block_body(a, x, b, y, c) + t + w, m) == if t == m {
            Some(block_body(a, x, b, y, c).len() as int)
        } else {
            match first_occurrence(w, m) {
                Some(i) => Some(block_body(a, x, b, y, c).len() + t.len() + i),
                None => None,
            }
        },
{
    let end = "</string>"@;
    let name = field_open("SSID"@);
    let key = field_open("PreSharedKey"@);
    lemma_tags();
    let body = block_body(a, x, b, y, c);
    let w4 = c + t + w;
    let w3 = y + end + w4;
    let w2 = b + key + w3;
    let w1 = x + end + w2;
    assert(body + t + w =~= a + name + w1);
    lemma_find_step(c, t, w, m);
    lemma_find_step(y, end, w4, m);
    lemma_find_step(b, key, w3, m);
    lemma_find_step(x, end, w2, m);
    lemma_find_step(a, name, w1, m);
}

/// The body of a block is what stands between `<Network>` and the first
/// `</Network>` after it.
proof fn lemma_block_cut(
    a: Seq<char>,
    x: Seq<char>,
    b: Seq<char>,
    y: Seq<char>,
    c: Seq<char>,
    post: Seq<char>,
)
    requires
        plain_block(a, x, b, y, c),
    ensures
        before(
            before(block_body(a, x, b, y, c) + "</Network>"@ + post, "<Network>"@),
            "</Network>"@,
        ) == block_body(a, x, b, y, c),
{
    let open = "<Network>"@;
    let close = "</Network>"@;
    lemma_tags();
    let body = block_body(a, x, b, y, c);
    let rest = body + close + post;
    lemma_find_past_body(a, x, b, y, c, close, post, open);
    lemma_first_from(post, open, 0);
    let cut = before(rest, open);
    let tail = match first_occurrence(post, open) {
        Some(i) => post.take(i),
        None => post,
    };
    assert(cut =~= body + close + tail);
    lemma_find_past_body(a, x, b, y, c, close, tail, close);
}

/// The key of a block's body.
proof fn lemma_key_found(a: Seq<char>, x: Seq<char>, b: Seq<char>, y: Seq<char>, c: Seq<char>)
    requires
        plain_block(a, x, b, y, c),
    ensures
        field_value(block_body(a, x, b, y, c), "PreSharedKey"@) == Some(unescaped(trimmed(y))),
{
    let end = "</string>"@;
    let name = field_open("SSID"@);
    let key = field_open("PreSharedKey"@);
    lemma_tags();
    let body = block_body(a, x, b, y, c);
    let k3 = y + end + c;
    let k2 = b + key + k3;
    let k1 = x + end + k2;
    assert(body =~= a + name + k1);
    lemma_find_step(b, key, k3, key);
    lemma_find_step(x, end, k2, key);
    lemma_find_step(a, name, k1, key);
    let at = (a.len() + name.len() + x.len() + end.len() + b.len()) as int;
    let after = body.skip(at + key.len() as int);
    assert(after =~= y + end + c);
    lemma_find_step(y, end, c, end);
    assert(after.take(y.len() as int) =~= y);
}

/// The credential of a block's body.
proof fn lemma_block_fields(a: Seq<char>, x: Seq<char>, b: Seq<char>, y: Seq<char>, c: Seq<char>)
    requires
        plain_block(a, x, b, y, c),
    ensures
        block_cred(block_body(a, x, b, y, c)) == Some(
            Credential {
                ssid: quote_stripped(unescaped(trimmed(x))),
                pass: Some(quote_stripped(unescaped(trimmed(y)))),
            },
        ),
{
    let end = "</string>"@;
    let key = field_open("PreSharedKey"@);
    lemma_tags();
    let body = block_body(a, x, b, y, c);
    let rest = b + key + (y + end + c);
    assert(body =~= a + field_open("SSID"@) + x + end + rest);
    lemma_field_found(a, "SSID"@, x, rest);
    lemma_key_found(a, x, b, y, c);
}

/// A network block with a name and a key gives the credential of both. In a
/// store text that holds, after `<Network>`, a block's body in which the
/// field `SSID` has the value `x` and the field `PreSharedKey` the value `y`,
/// and then `</Network>`, one of the credentials has the name `x` and the
/// key `y`, each trimmed, unescaped and stripped of its quotes. What stands
/// before `<Network>` and after `</Network>` is free.
pub proof fn lemma_xml_network(
    pre: Seq<char>,
    a: Seq<char>,
    x: Seq<char>,
    b: Seq<char>,
    y: Seq<char>,
    c: Seq<char>,
    post: Seq<char>,
)
    requires
        plain_block(a, x, b, y, c),
    ensures
        xml_creds(
            pre + "<Network>"@ + block_body(a, x, b, y, c) + "</Network>"@ + post,
        ).contains(
            Credential {
                ssid: quote_stripped(unescaped(trimmed(x))),
                pass: Some(quote_stripped(unescaped(trimmed(y)))),
            },
        ),
{
    let open = "<Network>"@;
    let close = "</Network>"@;
    lemma_tags();
    reveal_strlit("<Network>");
    let body = block_body(a, x, b, y, c);
    let v = open + body + close + post;
    assert(pre + open + body + close + post =~= pre + v);
    assert(v.subrange(0, 9) =~= open);
    lemma_xml_concat(pre, v);
    lemma_find_concat(Seq::empty(), v, open);
    let rest = v.skip(9);
    assert(rest =~= body + close + post);
    lemma_block_cut(a, x, b, y, c, post);
    lemma_block_fields(a, x, b, y, c);
    let cred = Credential {
        ssid: quote_stripped(unescaped(trimmed(x))),
        pass: Some(quote_stripped(unescaped(trimmed(y)))),
    };
    let all = xml_creds(pre) + xml_creds(v);
    assert(all[xml_creds(pre).len() as int] == cred);
}

/// A block without the field `SSID` takes its name from the field
/// `ConfigKey`: where `SSID` opens nowhere in the block, `ConfigKey` opens
/// first after `a`, and its value `x` holds no closing tag, the block gives a
/// credential with the name `x`, trimmed, unescaped and stripped of its
/// quotes.
pub proof fn lemma_block_config_key(a: Seq<char>, x: Seq<char>, w: Seq<char>)
    requires
        free_of(a + field_open("ConfigKey"@) + x + "</string>"@ + w, field_open("SSID"@)),
        free_of(a, field_open("ConfigKey"@)),
        free_of(x, "</string>"@),
    ensures
        match block_cred(a + field_open("ConfigKey"@) + x + "</string>"@ + w) {
            Some(c) => c.ssid == quote_stripped(unescaped(trimmed(x))),
            None => false,
        },
{
    let chunk = a + field_open("ConfigKey"@) + x + "</string>"@ + w;
    lemma_free_of(chunk, field_open("SSID"@));
    lemma_tag_config_key();
    lemma_field_found(a, "ConfigKey"@, x, w);
}

/// A block that names no network gives no credential: where neither the
/// field `SSID` nor the field `ConfigKey` opens in it, the block is dropped,
/// whatever else it holds.
pub proof fn lemma_block_nameless(chunk: Seq<char>)
    requires
        free_of(chunk, field_open("SSID"@)),
        free_of(chunk, field_open("ConfigKey"@)),
    ensures
        block_cred(chunk) is None,
{
    lemma_free_of(chunk, field_open("SSID"@));
    lemma_free_of(chunk, field_open("ConfigKey"@));
}

} // verus!
