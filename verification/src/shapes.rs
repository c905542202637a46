//! The two shapes of imported JSON text give the same list: an array of
//! records that is read alone is read the same inside a wrapping object.

use vstd::prelude::*;
use crate::cred::Credential;
use crate::import::{
    imported, is_object, lemma_read_run_concat, read_run, read_start, read_step, Expect, Frame,
    Reading,
};
use crate::json::json_text;
use crate::lexer::{
    emitted, lemma_lex_run_concat, lex_ended, lex_run, lex_start, lex_step, token_started,
    tokens_of, word_ended, Lex, Mode, Tok,
};
use crate::roundtrip::{all_as_written, lemma_round_trip, lemma_tokens_of_json_text};

verus! {

/// The state `st` of a reading that began after the tokens `p`.
pub open spec fn shifted(p: Seq<Tok>, st: Lex) -> Lex {
    Lex { tokens: p + st.tokens, ..st }
}

/// Completing a token does not look at the tokens before it.
proof fn lemma_emitted_shift(p: Seq<Tok>, st: Lex, t: Tok)
    ensures
        emitted(shifted(p, st), t) == shifted(p, emitted(st, t)),
{
}

/// Beginning a token does not look at the tokens before it.
proof fn lemma_token_started_shift(p: Seq<Tok>, st: Lex, c: char)
    ensures
        token_started(shifted(p, st), c) == shifted(p, token_started(st, c)),
{
    lemma_emitted_shift(p, st, Tok::ArrayOpen);
    lemma_emitted_shift(p, st, Tok::ArrayClose);
    lemma_emitted_shift(p, st, Tok::ObjectOpen);
    lemma_emitted_shift(p, st, Tok::ObjectClose);
    lemma_emitted_shift(p, st, Tok::Colon);
    lemma_emitted_shift(p, st, Tok::Comma);
}

/// Reading a character does not look at the tokens read before.
proof fn lemma_lex_step_shift(p: Seq<Tok>, st: Lex, c: char)
    ensures
        lex_step(shifted(p, st), c) == shifted(p, lex_step(st, c)),
{
    lemma_emitted_shift(p, st, Tok::Text(st.text));
    lemma_emitted_shift(p, st, Tok::Scalar);
    lemma_emitted_shift(p, st, Tok::Null);
    lemma_token_started_shift(p, st, c);
    lemma_token_started_shift(p, emitted(st, Tok::Scalar), c);
    lemma_token_started_shift(p, emitted(st, Tok::Null), c);
    lemma_token_started_shift(p, word_ended(st), c);
}

/// Reading a text does not look at the tokens read before.
proof fn lemma_lex_run_shift(p: Seq<Tok>, st: Lex, s: Seq<char>)
    ensures
        lex_run(shifted(p, st), s) == shifted(p, lex_run(st, s)),
    decreases s.len(),
{
    if s.len() > 0 {
        lemma_lex_run_shift(p, st, s.drop_last());
        lemma_lex_step_shift(p, lex_run(st, s.drop_last()), s.last());
    }
}

/// A closing brace after a complete text ends the text's last token and is
/// a token itself.
proof fn lemma_lex_close(st: Lex)
    requires
        lex_ended(st).mode == Mode::Between,
    ensures
        lex_step(st, '}') == emitted(lex_ended(st), Tok::ObjectClose),
{
}

/// The text `t` inside the wrapping object.
pub open spec fn wrapped(t: Seq<char>) -> Seq<char> {
    "{\"networks\":"@ + t + "}"@
}

/// The tokens before the wrapped text.
pub open spec fn wrap_open() -> Seq<Tok> {
    seq![Tok::ObjectOpen, Tok::Text("networks"@), Tok::Colon]
}

/// The tokens of the text that opens the wrapping object.
proof fn lemma_lex_wrap_open()
    ensures
        lex_run(lex_start(), "{\"networks\":"@) == shifted(wrap_open(), lex_start()),
{
    reveal_strlit("{\"networks\":");
    reveal_strlit("networks");
    reveal_with_fuel(lex_run, 14);
    assert(Seq::<char>::empty().push('n').push('e').push('t').push('w').push('o').push('r').push(
        'k',
    ).push('s') =~= "networks"@);
    assert(lex_run(lex_start(), "{\"networks\":"@).tokens =~= wrap_open()
        + lex_start().tokens);
}

/// The tokens of a wrapped text are those of the text, between those of the
/// wrapping object.
pub proof fn lemma_tokens_of_wrapped(t: Seq<char>)
    requires
        tokens_of(t) is Some,
    ensures
        tokens_of(wrapped(t)) == Some(wrap_open() + tokens_of(t)->0 + seq![Tok::ObjectClose]),
{
    reveal_strlit("}");
    let start = lex_start();
    let head = "{\"networks\":"@;
    let inner = lex_run(start, t);
    lemma_lex_wrap_open();
    lemma_lex_run_concat(start, head, t);
    lemma_lex_run_shift(wrap_open(), start, t);
    let before_close = lex_run(start, head + t);
    lemma_lex_run_concat(start, head + t, "}"@);
    assert(lex_run(before_close, "}"@) == lex_step(before_close, '}')) by {
        assert(lex_run(before_close, "}"@.drop_last()) == before_close);
    }
    lemma_lex_step_shift(wrap_open(), inner, '}');
    lemma_lex_close(inner);
}

/// The state `w` of a reading inside the wrapping object goes with the state
/// `s` of a reading of the array alone: `w` has the wrapping object below
/// what `s` has open, and has read the same.
pub open spec fn inside(s: Reading, w: Reading) -> bool {
    &&& !s.failed && !w.failed
    &&& w.frames == seq![Frame::Wrapper] + s.frames
    &&& forall|i: int| 0 <= i < s.frames.len() ==> s.frames[i] != Frame::Wrapper
    &&& w.networks_given
    &&& s.ssid == w.ssid
    &&& s.pass_given == w.pass_given
    &&& s.pass == w.pass
    &&& s.found == w.found
    &&& (s.frames.len() == 0 <==> s.expect == Expect::Nothing)
    &&& w.expect == if s.frames.len() == 0 {
        Expect::CommaOrEnd
    } else {
        s.expect
    }
    &&& (s.key == w.key || !(s.expect == Expect::Colon || ((s.expect == Expect::Value || s.expect
        == Expect::ValueOrEnd) && s.frames.len() > 0 && is_object(s.frames.last()))))
}

/// One token keeps the two readings together.
proof fn lemma_inside_step(s: Reading, w: Reading, t: Tok)
    requires
        inside(s, w),
        s.frames.len() > 0,
        !read_step(s, t).failed,
    ensures
        inside(read_step(s, t), read_step(w, t)),
{
    let s2 = read_step(s, t);
    assert(read_step(w, t).frames == seq![Frame::Wrapper] + s2.frames);
    assert forall|i: int| 0 <= i < s2.frames.len() implies s2.frames[i] != Frame::Wrapper by {}
}

/// The state after the tokens that open the wrapping object.
proof fn lemma_read_wrap_open()
    ensures
        read_run(read_start(), wrap_open()) == (Reading {
            frames: seq![Frame::Wrapper],
            expect: Expect::Value,
            key: "networks"@,
            ..read_start()
        }),
{
    let none = Seq::<Tok>::empty();
    let st = read_start();
    let t1 = none.push(Tok::ObjectOpen);
    let t2 = t1.push(Tok::Text("networks"@));
    let t3 = t2.push(Tok::Colon);
    assert(t1.drop_last() =~= none);
    assert(t2.drop_last() =~= t1);
    assert(t3.drop_last() =~= t2);
    assert(t3 =~= wrap_open());
    assert(read_run(st, none) == st);
    assert(read_run(st, t1) == read_step(st, Tok::ObjectOpen));
    assert(read_run(st, t2) == read_step(read_run(st, t1), Tok::Text("networks"@)));
    assert(read_run(st, t3) == read_step(read_run(st, t2), Tok::Colon));
}

/// The reading of an array of records and its reading inside the wrapping
/// object stay together to the end of the array.
proof fn lemma_inside_run(ts: Seq<Tok>)
    requires
        ts.len() > 0,
        ts[0] == Tok::ArrayOpen,
        !read_run(read_start(), ts).failed,
    ensures
        inside(read_run(read_start(), ts), read_run(read_run(read_start(), wrap_open()), ts)),
    decreases ts.len(),
{
    let st = read_start();
    let wt = read_run(st, wrap_open());
    lemma_read_wrap_open();
    let front = ts.drop_last();
    let s_front = read_run(st, front);
    let w_front = read_run(wt, front);
    if ts.len() == 1 {
        assert(read_step(wt, Tok::ArrayOpen).frames =~= seq![Frame::Wrapper] + read_step(
            st,
            Tok::ArrayOpen,
        ).frames);
    } else {
        lemma_inside_run(front);
        lemma_inside_step(s_front, w_front, ts.last());
    }
}

/// The text is of the first shape, an array alone: its first token opens an
/// array.
pub open spec fn is_bare(t: Seq<char>) -> bool {
    match tokens_of(t) {
        Some(ts) => ts.len() > 0 && ts[0] == Tok::ArrayOpen,
        None => false,
    }
}

/// The second shape gives what the first gives: where a text of the first
/// shape gives a list, the same text as the field `networks` of a wrapping
/// object gives the same list.
pub proof fn lemma_wrapped(t: Seq<char>)
    requires
        is_bare(t),
        imported(t) is Some,
    ensures
        imported(wrapped(t)) == imported(t),
{
    let ts = tokens_of(t)->0;
    let st = read_start();
    let wt = read_run(st, wrap_open());
    let close = seq![Tok::ObjectClose];
    lemma_tokens_of_wrapped(t);
    lemma_inside_run(ts);
    lemma_read_run_concat(st, wrap_open() + ts, close);
    lemma_read_run_concat(st, wrap_open(), ts);
    let w = read_run(wt, ts);
    assert(read_run(w, close) == read_step(w, Tok::ObjectClose)) by {
        assert(read_run(w, close.drop_last()) == w);
    }
}

/// What is written is read back from inside a wrapping object too.
pub proof fn lemma_round_trip_wrapped(list: Seq<Credential>)
    ensures
        imported(wrapped(json_text(list))) == Some(all_as_written(list)),
{
    lemma_tokens_of_json_text(list);
    lemma_round_trip(list);
    lemma_wrapped(json_text(list));
}

} // verus!
