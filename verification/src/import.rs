//! Reading a credential list from imported JSON text.
//!
//! Two shapes are accepted: an array of records, and an object whose field
//! `networks` holds that array. A record is an object with the name of the
//! network in its field `ssid`, a string, and its key in the field `password`
//! or `pass`, a string or `null`; the key may be missing. Fields of other
//! names are passed over, whatever their value. Text of any other shape is
//! refused as a whole.
//!
//! The tokens of the text are read one at a time by a machine that keeps the
//! arrays and objects it is in on a stack.

use vstd::prelude::*;
use crate::cred::{Credential, WifiCred};
use crate::lexer::{tokenize, tokens_of, Tok, Token};
use crate::error::ErrorKind;
use crate::text::{chars_of, same_text, string_of};

verus! {

/// An array or object that the reading is in.
#[derive(Clone, Copy, Debug, PartialEq, Eq, Structural)]
pub enum Frame {
    /// The object that holds the field `networks`.
    Wrapper,
    /// The array of records.
    List,
    /// One record.
    Record,
    /// An array that is passed over.
    Array,
    /// An object that is passed over.
    Object,
}

/// What may come next.
#[derive(Clone, Copy, Debug, PartialEq, Eq, Structural)]
pub enum Expect {
    /// A value.
    Value,
    /// A value, or the end of the array.
    ValueOrEnd,
    /// A key.
    Key,
    /// A key, or the end of the object.
    KeyOrEnd,
    /// The colon after a key.
    Colon,
    /// A comma, or the end of the array or object.
    CommaOrEnd,
    /// Nothing: the text is complete.
    Nothing,
}

/// The state of the reading.
pub struct Reading {
    /// The arrays and objects that are open, the innermost last.
    pub frames: Seq<Frame>,
    pub expect: Expect,
    /// The key read last.
    pub key: Seq<char>,
    /// The name given in the open record.
    pub ssid: Option<Seq<char>>,
    /// Whether the open record has given its key, be it `null`.
    pub pass_given: bool,
    /// The key given in the open record.
    pub pass: Option<Seq<char>>,
    /// Whether the wrapping object has given its field `networks`.
    pub networks_given: bool,
    /// The records closed so far.
    pub found: Seq<Credential>,
    /// The text has not the shape.
    pub failed: bool,
}

/// The state before the first token.
pub open spec fn read_start() -> Reading {
    Reading {
        frames: Seq::empty(),
        expect: Expect::Value,
        key: Seq::empty(),
        ssid: None,
        pass_given: false,
        pass: None,
        networks_given: false,
        found: Seq::empty(),
        failed: false,
    }
}

/// The state after a token that has no place where it stands.
pub open spec fn refused(st: Reading) -> Reading {
    Reading { failed: true, ..st }
}

/// The frame is an object.
pub open spec fn is_object(f: Frame) -> bool {
    f == Frame::Wrapper || f == Frame::Record || f == Frame::Object
}

/// The state after the array or object `f` was opened.
pub open spec fn opened(st: Reading, f: Frame) -> Reading {
    Reading {
        frames: st.frames.push(f),
        expect: if is_object(f) {
            Expect::KeyOrEnd
        } else {
            Expect::ValueOrEnd
        },
        ..st
    }
}

/// The state after a value that is no array or object.
pub open spec fn value_done(st: Reading) -> Reading {
    Reading { expect: Expect::CommaOrEnd, ..st }
}

/// The state after the innermost array or object was closed.
pub open spec fn popped(st: Reading) -> Reading {
    Reading {
        frames: st.frames.drop_last(),
        expect: if st.frames.len() <= 1 {
            Expect::Nothing
        } else {
            Expect::CommaOrEnd
        },
        ..st
    }
}

/// The state after a value that is passed over, or after its first token.
pub open spec fn any_value(st: Reading, t: Tok) -> Reading {
    match t {
        Tok::Text(_) | Tok::Null | Tok::Scalar => value_done(st),
        Tok::ArrayOpen => opened(st, Frame::Array),
        Tok::ObjectOpen => opened(st, Frame::Object),
        _ => refused(st),
    }
}

/// The state after the first token `t` of a value. What the value may be
/// depends on where it stands: the whole text is an array of records or a
/// wrapping object; the array holds records; in a record the field `ssid` is
/// a string and the field `password` or `pass` a string or `null`, each
/// given once at most; in the wrapping object the field `networks` is the
/// array of records, given once; any other value is passed over.
pub open spec fn value_begun(st: Reading, t: Tok) -> Reading {
    if st.frames.len() == 0 {
        match t {
            Tok::ArrayOpen => opened(st, Frame::List),
            Tok::ObjectOpen => opened(st, Frame::Wrapper),
            _ => refused(st),
        }
    } else {
        match st.frames.last() {
            Frame::List => match t {
                Tok::ObjectOpen => opened(
                    Reading { ssid: None, pass_given: false, pass: None, ..st },
                    Frame::Record,
                ),
                _ => refused(st),
            },
            Frame::Record => if st.key == "ssid"@ {
                match t {
                    Tok::Text(v) => if st.ssid is None {
                        value_done(Reading { ssid: Some(v), ..st })
                    } else {
                        refused(st)
                    },
                    _ => refused(st),
                }
            } else if st.key == "password"@ || st.key == "pass"@ {
                if st.pass_given {
                    refused(st)
                } else {
                    match t {
                        Tok::Text(v) => value_done(
                            Reading { pass_given: true, pass: Some(v), ..st },
                        ),
                        Tok::Null => value_done(Reading { pass_given: true, pass: None, ..st }),
                        _ => refused(st),
                    }
                }
            } else {
                any_value(st, t)
            },
            Frame::Wrapper => if st.key == "networks"@ {
                match t {
                    Tok::ArrayOpen => if st.networks_given {
                        refused(st)
                    } else {
                        opened(Reading { networks_given: true, ..st }, Frame::List)
                    },
                    _ => refused(st),
                }
            } else {
                any_value(st, t)
            },
            _ => any_value(st, t),
        }
    }
}

/// The state after the token that closes the innermost array or object. A
/// record must have given its name, and the wrapping object its field
/// `networks`.
pub open spec fn closed(st: Reading, t: Tok) -> Reading {
    if st.frames.len() == 0 {
        refused(st)
    } else {
        let f = st.frames.last();
        match t {
            Tok::ArrayClose => if is_object(f) {
                refused(st)
            } else {
                popped(st)
            },
            Tok::ObjectClose => match f {
                Frame::Record => match st.ssid {
                    Some(s) => popped(
                        Reading { found: st.found.push(Credential { ssid: s, pass: st.pass }), ..st },
                    ),
                    None => refused(st),
                },
                Frame::Wrapper => if st.networks_given {
                    popped(st)
                } else {
                    refused(st)
                },
                Frame::Object => popped(st),
                _ => refused(st),
            },
            _ => refused(st),
        }
    }
}

/// The state after one more token.
pub open spec fn read_step(st: Reading, t: Tok) -> Reading {
    if st.failed {
        st
    } else {
        match st.expect {
            Expect::Nothing => refused(st),
            Expect::Colon => match t {
                Tok::Colon => Reading { expect: Expect::Value, ..st },
                _ => refused(st),
            },
            Expect::Key => match t {
                Tok::Text(k) => Reading { key: k, expect: Expect::Colon, ..st },
                _ => refused(st),
            },
            Expect::KeyOrEnd => match t {
                Tok::Text(k) => Reading { key: k, expect: Expect::Colon, ..st },
                _ => closed(st, t),
            },
            Expect::CommaOrEnd => match t {
                Tok::Comma => if st.frames.len() == 0 {
                    refused(st)
                } else if is_object(st.frames.last()) {
                    Reading { expect: Expect::Key, ..st }
                } else {
                    Reading { expect: Expect::Value, ..st }
                },
                _ => closed(st, t),
            },
            Expect::Value => value_begun(st, t),
            Expect::ValueOrEnd => match t {
                Tok::ArrayClose => closed(st, t),
                _ => value_begun(st, t),
            },
        }
    }
}

/// The state after the tokens `ts`, read in order.
pub open spec fn read_run(st: Reading, ts: Seq<Tok>) -> Reading
    decreases ts.len(),
{
    if ts.len() == 0 {
        st
    } else {
        read_step(read_run(st, ts.drop_last()), ts.last())
    }
}

/// The records that the tokens `ts` give, if they have one of the two
/// shapes.
pub open spec fn records_of(ts: Seq<Tok>) -> Option<Seq<Credential>> {
    let st = read_run(read_start(), ts);
    if !st.failed && st.expect == Expect::Nothing {
        Some(st.found)
    } else {
        None
    }
}

/// The credential list that the JSON text `text` gives, if it has one of the
/// two shapes.
pub open spec fn imported(text: Seq<char>) -> Option<Seq<Credential>> {
    match tokens_of(text) {
        Some(ts) => records_of(ts),
        None => None,
    }
}

/// Reading tokens piece by piece gives what reading them all gives.
pub proof fn lemma_read_run_concat(st: Reading, a: Seq<Tok>, b: Seq<Tok>)
    ensures
        read_run(st, a + b) == read_run(read_run(st, a), b),
    decreases b.len(),
{
    if b.len() > 0 {
        assert((a + b).drop_last() =~= a + b.drop_last());
        lemma_read_run_concat(st, a, b.drop_last());
    }
}

/// The view of an optional text.
pub open spec fn opt_chars(o: Option<Vec<char>>) -> Option<Seq<char>> {
    match o {
        Some(v) => Some(v@),
        None => None,
    }
}

/// The state of the reading, as it is held while the machine runs.
#[derive(Debug)]
pub struct Reader {
    pub frames: Vec<Frame>,
    pub expect: Expect,
    pub key: Vec<char>,
    pub ssid: Option<Vec<char>>,
    pub pass_given: bool,
    pub pass: Option<Vec<char>>,
    pub networks_given: bool,
    pub found: Vec<WifiCred>,
    pub failed: bool,
}

impl View for Reader {
    type V = Reading;

    open spec fn view(&self) -> Reading {
        Reading {
            frames: self.frames@,
            expect: self.expect,
            key: self.key@,
            ssid: opt_chars(self.ssid),
            pass_given: self.pass_given,
            pass: opt_chars(self.pass),
            networks_given: self.networks_given,
            found: self.found.deep_view(),
            failed: self.failed,
        }
    }
}

/// Tells whether `key` is the word `word`.
pub fn is_word(key: &Vec<char>, word: &str) -> (r: bool)
    ensures
        r == (key@ == word@),
{
    let w = chars_of(word);
    same_text(key.as_slice(), w.as_slice())
}

impl Reader {
    /// The state before the first token.
    pub fn new() -> (st: Reader)
        ensures
            st@ == read_start(),
    {
        let st = Reader {
            frames: Vec::new(),
            expect: Expect::Value,
            key: Vec::new(),
            ssid: None,
            pass_given: false,
            pass: None,
            networks_given: false,
            found: Vec::new(),
            failed: false,
        };
        assert(st.found.deep_view() =~= Seq::<Credential>::empty());
        st
    }

    /// Opens the array or object `f`.
    fn open(&mut self, f: Frame)
        ensures
            final(self)@ == opened(old(self)@, f),
    {
        self.frames.push(f);
        self.expect = match f {
            Frame::Wrapper | Frame::Record | Frame::Object => Expect::KeyOrEnd,
            _ => Expect::ValueOrEnd,
        };
    }

    /// Closes the innermost array or object.
    fn pop(&mut self)
        requires
            old(self).frames@.len() > 0,
        ensures
            final(self)@ == popped(old(self)@),
    {
        let n = self.frames.len();
        self.frames.pop();
        self.expect = if n <= 1 {
            Expect::Nothing
        } else {
            Expect::CommaOrEnd
        };
    }

    /// Reads a value that is passed over, or its first token.
    fn pass_over(&mut self, t: Token)
        ensures
            final(self)@ == any_value(old(self)@, t@),
    {
        match t {
            Token::Text(_) | Token::Null | Token::Scalar => {
                self.expect = Expect::CommaOrEnd;
            },
            Token::ArrayOpen => {
                self.open(Frame::Array);
            },
            Token::ObjectOpen => {
                self.open(Frame::Object);
            },
            _ => {
                self.failed = true;
            },
        }
    }

    /// Reads the first token of a value.
    fn begin_value(&mut self, t: Token)
        ensures
            final(self)@ == value_begun(old(self)@, t@),
    {
        let n = self.frames.len();
        if n == 0 {
            match t {
                Token::ArrayOpen => {
                    self.open(Frame::List);
                },
                Token::ObjectOpen => {
                    self.open(Frame::Wrapper);
                },
                _ => {
                    self.failed = true;
                },
            }
            return;
        }
        let top = self.frames[n - 1];
        match top {
            Frame::List => {
                match t {
                    Token::ObjectOpen => {
                        self.ssid = None;
                        self.pass_given = false;
                        self.pass = None;
                        self.open(Frame::Record);
                    },
                    _ => {
                        self.failed = true;
                    },
                }
            },
            Frame::Record => {
                if is_word(&self.key, "ssid") {
                    match t {
                        Token::Text(v) => {
                            if self.ssid.is_none() {
                                self.ssid = Some(v);
                                self.expect = Expect::CommaOrEnd;
                            } else {
                                self.failed = true;
                            }
                        },
                        _ => {
                            self.failed = true;
                        },
                    }
                } else if is_word(&self.key, "password") || is_word(&self.key, "pass") {
                    if self.pass_given {
                        self.failed = true;
                    } else {
                        match t {
                            Token::Text(v) => {
                                self.pass_given = true;
                                self.pass = Some(v);
                                self.expect = Expect::CommaOrEnd;
                            },
                            Token::Null => {
                                self.pass_given = true;
                                self.pass = None;
                                self.expect = Expect::CommaOrEnd;
                            },
                            _ => {
                                self.failed = true;
                            },
                        }
                    }
                } else {
                    self.pass_over(t);
                }
            },
            Frame::Wrapper => {
                if is_word(&self.key, "networks") {
                    match t {
                        Token::ArrayOpen => {
                            if self.networks_given {
                                self.failed = true;
                            } else {
                                self.networks_given = true;
                                self.open(Frame::List);
                            }
                        },
                        _ => {
                            self.failed = true;
                        },
                    }
                } else {
                    self.pass_over(t);
                }
            },
            _ => {
                self.pass_over(t);
            },
        }
    }

    /// Reads the token that closes the innermost array or object.
    fn close(&mut self, t: Token)
        ensures
            final(self)@ == closed(old(self)@, t@),
    {
        let n = self.frames.len();
        if n == 0 {
            self.failed = true;
            return;
        }
        let top = self.frames[n - 1];
        match t {
            Token::ArrayClose => {
                match top {
                    Frame::List | Frame::Array => {
                        self.pop();
                    },
                    _ => {
                        self.failed = true;
                    },
                }
            },
            Token::ObjectClose => {
                match top {
                    Frame::Record => {
                        match &self.ssid {
                            Some(s) => {
                                let ghost before = self.found.deep_view();
                                let c = WifiCred {
                                    ssid: string_of(s.as_slice()),
                                    pass: match &self.pass {
                                        Some(p) => Some(string_of(p.as_slice())),
                                        None => None,
                                    },
                                };
                                let ghost cv = c@;
                                self.found.push(c);
                                assert(self.found.deep_view() =~= before.push(cv));
                                self.pop();
                            },
                            None => {
                                self.failed = true;
                            },
                        }
                    },
                    Frame::Wrapper => {
                        if self.networks_given {
                            self.pop();
                        } else {
                            self.failed = true;
                        }
                    },
                    Frame::Object => {
                        self.pop();
                    },
                    _ => {
                        self.failed = true;
                    },
                }
            },
            _ => {
                self.failed = true;
            },
        }
    }

    /// Reads one more token.
    pub fn step(&mut self, t: Token)
        ensures
            final(self)@ == read_step(old(self)@, t@),
    {
        if self.failed {
            return;
        }
        match self.expect {
            Expect::Nothing => {
                self.failed = true;
            },
            Expect::Colon => {
                match t {
                    Token::Colon => {
                        self.expect = Expect::Value;
                    },
                    _ => {
                        self.failed = true;
                    },
                }
            },
            Expect::Key => {
                match t {
                    Token::Text(k) => {
                        self.key = k;
                        self.expect = Expect::Colon;
                    },
                    _ => {
                        self.failed = true;
                    },
                }
            },
            Expect::KeyOrEnd => {
                match t {
                    Token::Text(k) => {
                        self.key = k;
                        self.expect = Expect::Colon;
                    },
                    _ => {
                        self.close(t);
                    },
                }
            },
            Expect::CommaOrEnd => {
                match t {
                    Token::Comma => {
                        let n = self.frames.len();
                        if n == 0 {
                            self.failed = true;
                        } else {
                            match self.frames[n - 1] {
                                Frame::Wrapper | Frame::Record | Frame::Object => {
                                    self.expect = Expect::Key;
                                },
                                _ => {
                                    self.expect = Expect::Value;
                                },
                            }
                        }
                    },
                    _ => {
                        self.close(t);
                    },
                }
            },
            Expect::Value => {
                self.begin_value(t);
            },
            Expect::ValueOrEnd => {
                match t {
                    Token::ArrayClose => {
                        self.close(t);
                    },
                    _ => {
                        self.begin_value(t);
                    },
                }
            },
        }
    }
}

/// Reads the records that the tokens give.
pub fn read_tokens(tokens: Vec<Token>) -> (r: Option<Vec<WifiCred>>)
    ensures
        match r {
            Some(v) => records_of(tokens.deep_view()) == Some(v.deep_view()),
            None => records_of(tokens.deep_view()) is None,
        },
{
    let mut st = Reader::new();
    let ghost ts = tokens.deep_view();
    for t in it: tokens
        invariant
            it.seq().len() == ts.len(),
            forall|i: int| 0 <= i < ts.len() ==> (#[trigger] it.seq()[i])@ == ts[i],
            st@ == read_run(read_start(), ts.take(it.index() as int)),
    {
        assert(ts.take(it.index() + 1).drop_last() =~= ts.take(it.index() as int));
        st.step(t);
    }
    assert(ts.take(ts.len() as int) =~= ts);
    if !st.failed && st.expect == Expect::Nothing {
        Some(st.found)
    } else {
        None
    }
}

/// Reads a credential list from JSON text: an array of records, or an
/// object whose field `networks` holds that array. Text of any other shape
/// is refused with `InvalidFormat`.
pub fn parse_imported_json(text: &str) -> (r: Result<Vec<WifiCred>, ErrorKind>)
    ensures
        match r {
            Ok(v) => imported(text@) == Some(v.deep_view()),
            Err(e) => e == ErrorKind::InvalidFormat && imported(text@) is None,
        },
{
    match tokenize(text) {
        None => Err(ErrorKind::InvalidFormat),
        Some(tokens) => match read_tokens(tokens) {
            Some(v) => Ok(v),
            None => Err(ErrorKind::InvalidFormat),
        },
    }
}

} // verus!
