//! What is written can be read back.

use vstd::prelude::*;
use crate::cred::Credential;
use crate::import::{
    imported, lemma_read_run_concat, read_run, read_start, read_step, records_of, Expect, Frame,
    Reading,
};
use crate::json::{escaped, escaped_char, json_lines, json_object, json_text, written_pass};
use crate::lexer::{lemma_lex_run_concat, lex_run, lex_start, lex_step, tokens_of, Lex, Mode, Tok};

verus! {

/// The state between two tokens, after the tokens `ts`, in a text without
/// `\u`.
pub open spec fn at_rest(ts: Seq<Tok>) -> Lex {
    Lex { mode: Mode::Between, tokens: ts, text: Seq::empty(), code: 0, digits: 0, high: 0 }
}

/// The state in a string of which `acc` is read, after the tokens `ts`.
pub open spec fn in_text(ts: Seq<Tok>, acc: Seq<char>) -> Lex {
    Lex { mode: Mode::Text, tokens: ts, text: acc, code: 0, digits: 0, high: 0 }
}

/// The record as it comes back: a key that was absent comes back empty.
pub open spec fn as_written(c: Credential) -> Credential {
    Credential { ssid: c.ssid, pass: Some(written_pass(c)) }
}

/// The list as it comes back.
pub open spec fn all_as_written(list: Seq<Credential>) -> Seq<Credential> {
    Seq::new(list.len(), |i: int| as_written(list[i]))
}

/// The tokens of the object written for `c`.
pub open spec fn object_tokens(c: Credential) -> Seq<Tok> {
    seq![
        Tok::ObjectOpen,
        Tok::Text("ssid"@),
        Tok::Colon,
        Tok::Text(c.ssid),
        Tok::Comma,
        Tok::Text("password"@),
        Tok::Colon,
        Tok::Text(written_pass(c)),
        Tok::ObjectClose,
    ]
}

/// The tokens of the lines written for `list`.
pub open spec fn line_tokens(list: Seq<Credential>) -> Seq<Tok>
    decreases list.len(),
{
    if list.len() == 0 {
        Seq::empty()
    } else {
        object_tokens(list[0]) + (if list.len() == 1 {
            Seq::empty()
        } else {
            seq![Tok::Comma]
        }) + line_tokens(list.skip(1))
    }
}

/// The tokens of the text written for `list`.
pub open spec fn text_tokens(list: Seq<Credential>) -> Seq<Tok> {
    seq![Tok::ArrayOpen] + line_tokens(list) + seq![Tok::ArrayClose]
}

/// The tokens of the text that opens a written object.
proof fn lemma_lit_open(ts: Seq<Tok>)
    ensures
        lex_run(at_rest(ts), "{\"ssid\":\""@) == in_text(
            ts + seq![Tok::ObjectOpen, Tok::Text("ssid"@), Tok::Colon],
            Seq::empty(),
        ),
{
    reveal_strlit("{\"ssid\":\"");
    reveal_strlit("ssid");
    reveal_with_fuel(lex_run, 12);
    assert(Seq::<char>::empty().push('s').push('s').push('i').push('d') =~= "ssid"@);
    assert(lex_run(at_rest(ts), "{\"ssid\":\""@).tokens =~= ts + seq![
        Tok::ObjectOpen,
        Tok::Text("ssid"@),
        Tok::Colon,
    ]);
}

/// The tokens of the text between the two strings of a written object.
proof fn lemma_lit_middle(ts: Seq<Tok>, acc: Seq<char>)
    ensures
        lex_run(in_text(ts, acc), "\",\"password\":\""@) == in_text(
            ts + seq![Tok::Text(acc), Tok::Comma, Tok::Text("password"@), Tok::Colon],
            Seq::empty(),
        ),
{
    reveal_strlit("\",\"password\":\"");
    reveal_strlit("password");
    reveal_with_fuel(lex_run, 16);
    assert(Seq::<char>::empty().push('p').push('a').push('s').push('s').push('w').push('o').push(
        'r',
    ).push('d') =~= "password"@);
    assert(lex_run(in_text(ts, acc), "\",\"password\":\""@).tokens =~= ts + seq![
        Tok::Text(acc),
        Tok::Comma,
        Tok::Text("password"@),
        Tok::Colon,
    ]);
}

/// The tokens of the text that closes a written object.
proof fn lemma_lit_close(ts: Seq<Tok>, acc: Seq<char>)
    ensures
        lex_run(in_text(ts, acc), "\"}"@) == at_rest(ts + seq![Tok::Text(acc), Tok::ObjectClose]),
{
    reveal_strlit("\"}");
    reveal_with_fuel(lex_run, 4);
    assert(lex_run(in_text(ts, acc), "\"}"@).tokens =~= ts + seq![
        Tok::Text(acc),
        Tok::ObjectClose,
    ]);
}

/// The tokens of the texts that stand between written objects.
proof fn lemma_lit_space(ts: Seq<Tok>)
    ensures
        lex_run(at_rest(ts), "[\n"@) == at_rest(ts + seq![Tok::ArrayOpen]),
        lex_run(at_rest(ts), "  "@) == at_rest(ts),
        lex_run(at_rest(ts), "\n"@) == at_rest(ts),
        lex_run(at_rest(ts), ",\n"@) == at_rest(ts + seq![Tok::Comma]),
        lex_run(at_rest(ts), "]"@) == at_rest(ts + seq![Tok::ArrayClose]),
{
    reveal_strlit("[\n");
    reveal_strlit("  ");
    reveal_strlit("\n");
    reveal_strlit(",\n");
    reveal_strlit("]");
    reveal_with_fuel(lex_run, 4);
    assert(lex_run(at_rest(ts), "[\n"@).tokens =~= ts + seq![Tok::ArrayOpen]);
    assert(lex_run(at_rest(ts), ",\n"@).tokens =~= ts + seq![Tok::Comma]);
    assert(lex_run(at_rest(ts), "]"@).tokens =~= ts + seq![Tok::ArrayClose]);
}

/// Reading characters ends with the last character.
proof fn lemma_lex_push(st: Lex, s: Seq<char>, c: char)
    ensures
        lex_run(st, s.push(c)) == lex_step(lex_run(st, s), c),
{
    assert(s.push(c).drop_last() =~= s);
}

/// A character is read back as it was before it was escaped.
proof fn lemma_lex_escaped_char(ts: Seq<Tok>, acc: Seq<char>, c: char)
    ensures
        lex_run(in_text(ts, acc), escaped_char(c)) == in_text(ts, acc.push(c)),
{
    let st = in_text(ts, acc);
    let none = Seq::<char>::empty();
    if c == '\\' || c == '"' || c == '\n' {
        let second = if c == '\n' {
            'n'
        } else {
            c
        };
        assert(escaped_char(c) =~= none.push('\\').push(second));
        lemma_lex_push(st, none, '\\');
        lemma_lex_push(st, none.push('\\'), second);
    } else {
        lemma_lex_push(st, none, c);
    }
}

/// A string is read back as it was before it was escaped.
proof fn lemma_lex_escaped(ts: Seq<Tok>, acc: Seq<char>, x: Seq<char>)
    ensures
        lex_run(in_text(ts, acc), escaped(x)) == in_text(ts, acc + x),
    decreases x.len(),
{
    if x.len() > 0 {
        let c = x[0];
        let st = in_text(ts, acc);
        lemma_lex_run_concat(st, escaped_char(c), escaped(x.skip(1)));
        lemma_lex_escaped_char(ts, acc, c);
        lemma_lex_escaped(ts, acc.push(c), x.skip(1));
        assert(acc.push(c) + x.skip(1) =~= acc + x);
    }
}

/// The tokens of a written object.
proof fn lemma_lex_object(ts: Seq<Tok>, c: Credential)
    ensures
        lex_run(at_rest(ts), json_object(c)) == at_rest(ts + object_tokens(c)),
{
    let a = "{\"ssid\":\""@;
    let b = escaped(c.ssid);
    let m = "\",\"password\":\""@;
    let d = escaped(written_pass(c));
    let e = "\"}"@;
    let st = at_rest(ts);
    lemma_lex_run_concat(st, a + b + m + d, e);
    lemma_lex_run_concat(st, a + b + m, d);
    lemma_lex_run_concat(st, a + b, m);
    lemma_lex_run_concat(st, a, b);
    lemma_lit_open(ts);
    let t1 = ts + seq![Tok::ObjectOpen, Tok::Text("ssid"@), Tok::Colon];
    lemma_lex_escaped(t1, Seq::empty(), c.ssid);
    lemma_lit_middle(t1, c.ssid);
    let t2 = t1 + seq![Tok::Text(c.ssid), Tok::Comma, Tok::Text("password"@), Tok::Colon];
    lemma_lex_escaped(t2, Seq::empty(), written_pass(c));
    lemma_lit_close(t2, written_pass(c));
    assert(t2 + seq![Tok::Text(written_pass(c)), Tok::ObjectClose] =~= ts + object_tokens(c));
}

/// The tokens of the written lines.
proof fn lemma_lex_lines(ts: Seq<Tok>, list: Seq<Credential>)
    ensures
        lex_run(at_rest(ts), json_lines(list)) == at_rest(ts + line_tokens(list)),
    decreases list.len(),
{
    if list.len() > 0 {
        let st = at_rest(ts);
        let sep = if list.len() == 1 {
            "\n"@
        } else {
            ",\n"@
        };
        let sep_tokens = if list.len() == 1 {
            Seq::<Tok>::empty()
        } else {
            seq![Tok::Comma]
        };
        let rest = json_lines(list.skip(1));
        lemma_lex_run_concat(st, "  "@ + json_object(list[0]) + sep, rest);
        lemma_lex_run_concat(st, "  "@ + json_object(list[0]), sep);
        lemma_lex_run_concat(st, "  "@, json_object(list[0]));
        lemma_lit_space(ts);
        lemma_lex_object(ts, list[0]);
        let t1 = ts + object_tokens(list[0]);
        lemma_lit_space(t1);
        let t2 = t1 + sep_tokens;
        lemma_lex_lines(t2, list.skip(1));
        assert(t2 + line_tokens(list.skip(1)) =~= ts + line_tokens(list));
    }
}

/// The tokens of the written text.
pub proof fn lemma_tokens_of_json_text(list: Seq<Credential>)
    ensures
        tokens_of(json_text(list)) == Some(text_tokens(list)),
{
    let st = lex_start();
    let none = Seq::<Tok>::empty();
    lemma_lex_run_concat(st, "[\n"@ + json_lines(list), "]"@);
    lemma_lex_run_concat(st, "[\n"@, json_lines(list));
    lemma_lit_space(none);
    let t1 = none + seq![Tok::ArrayOpen];
    lemma_lex_lines(t1, list);
    let t2 = t1 + line_tokens(list);
    lemma_lit_space(t2);
}

/// The reading is in the array of records, with the records `found` read.
pub open spec fn listing(st: Reading, found: Seq<Credential>, expect: Expect) -> bool {
    &&& st.frames == seq![Frame::List]
    &&& st.expect == expect
    &&& st.found == found
    &&& !st.failed
}

/// Reading tokens ends with the last token.
proof fn lemma_read_push(st: Reading, ts: Seq<Tok>, t: Tok)
    ensures
        read_run(st, ts.push(t)) == read_step(read_run(st, ts), t),
{
    assert(ts.push(t).drop_last() =~= ts);
}

/// A written object is read as its record.
proof fn lemma_read_object(st: Reading, found: Seq<Credential>, c: Credential)
    requires
        listing(st, found, Expect::Value) || listing(st, found, Expect::ValueOrEnd),
    ensures
        listing(
            read_run(st, object_tokens(c)),
            found.push(as_written(c)),
            Expect::CommaOrEnd,
        ),
{
    reveal_strlit("ssid");
    reveal_strlit("password");
    reveal_strlit("pass");
    let e = Seq::<Tok>::empty();
    lemma_read_push(st, e, Tok::ObjectOpen);
    let t1 = e.push(Tok::ObjectOpen);
    lemma_read_push(st, t1, Tok::Text("ssid"@));
    let t2 = t1.push(Tok::Text("ssid"@));
    lemma_read_push(st, t2, Tok::Colon);
    let t3 = t2.push(Tok::Colon);
    lemma_read_push(st, t3, Tok::Text(c.ssid));
    let t4 = t3.push(Tok::Text(c.ssid));
    lemma_read_push(st, t4, Tok::Comma);
    let t5 = t4.push(Tok::Comma);
    lemma_read_push(st, t5, Tok::Text("password"@));
    let t6 = t5.push(Tok::Text("password"@));
    lemma_read_push(st, t6, Tok::Colon);
    let t7 = t6.push(Tok::Colon);
    lemma_read_push(st, t7, Tok::Text(written_pass(c)));
    let t8 = t7.push(Tok::Text(written_pass(c)));
    lemma_read_push(st, t8, Tok::ObjectClose);
    let t9 = t8.push(Tok::ObjectClose);
    assert(t9 =~= object_tokens(c));
    assert("password"@.len() == 8 && "ssid"@.len() == 4);
    assert(read_run(st, t9).frames =~= seq![Frame::List]);
}

/// The written lines are read as their records.
proof fn lemma_read_lines(st: Reading, found: Seq<Credential>, list: Seq<Credential>)
    requires
        list.len() > 0,
        listing(st, found, Expect::Value) || listing(st, found, Expect::ValueOrEnd),
    ensures
        listing(
            read_run(st, line_tokens(list)),
            found + all_as_written(list),
            Expect::CommaOrEnd,
        ),
    decreases list.len(),
{
    let first = object_tokens(list[0]);
    let rest = list.skip(1);
    lemma_read_object(st, found, list[0]);
    let s1 = read_run(st, first);
    let f1 = found.push(as_written(list[0]));
    if list.len() == 1 {
        assert(found + all_as_written(list) =~= f1);
    } else {
        let comma = seq![Tok::Comma];
        lemma_read_run_concat(st, first + comma, line_tokens(rest));
        lemma_read_run_concat(st, first, comma);
        lemma_read_push(s1, Seq::<Tok>::empty(), Tok::Comma);
        let s2 = read_run(s1, comma);
        lemma_read_lines(s2, f1, rest);
        assert(f1 + all_as_written(rest) =~= found + all_as_written(list));
    }
}

/// The written text is read as the records of its list.
pub proof fn lemma_records_of_text_tokens(list: Seq<Credential>)
    ensures
        records_of(text_tokens(list)) == Some(all_as_written(list)),
{
    let st = read_start();
    let none = Seq::<Tok>::empty();
    let open = seq![Tok::ArrayOpen];
    let close = seq![Tok::ArrayClose];
    lemma_read_run_concat(st, open + line_tokens(list), close);
    lemma_read_run_concat(st, open, line_tokens(list));
    lemma_read_push(st, none, Tok::ArrayOpen);
    let s1 = read_run(st, open);
    let s2 = read_run(s1, line_tokens(list));
    if list.len() > 0 {
        lemma_read_lines(s1, Seq::empty(), list);
    }
    lemma_read_push(s2, none, Tok::ArrayClose);
}

/// Reading the JSON text that was written for a list gives the list back,
/// record by record in the same order, but for the keys that were absent:
/// they were written as empty keys, and come back so.
pub proof fn lemma_round_trip(list: Seq<Credential>)
    ensures
        imported(json_text(list)) == Some(all_as_written(list)),
{
    lemma_tokens_of_json_text(list);
    lemma_records_of_text_tokens(list);
}

} // verus!
