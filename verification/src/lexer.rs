//! Cutting JSON text into tokens.
//!
//! The text is read one character at a time by a machine with a small state.
//! Reading is lenient in one point: inside a string every character but the
//! double quote and the backslash stands for itself, control characters too.

use vstd::prelude::*;
use vstd::std_specs::iter::IteratorSpec;

verus! {

/// `char::from_u32` gives the character with the scalar value `i`, and
/// `None` where `i` is no scalar value: a surrogate, or above `0x10FFFF`.
pub assume_specification[ char::from_u32 ](i: u32) -> (r: Option<char>)
    ensures
        r == if i < 0xD800 || 0xDFFF < i <= 0x10FFFF {
            Some(i as char)
        } else {
            None
        },
;

/// The value of a token.
pub enum Tok {
    ArrayOpen,
    ArrayClose,
    ObjectOpen,
    ObjectClose,
    Colon,
    Comma,
    /// A string, with its escapes resolved.
    Text(Seq<char>),
    /// The word `null`.
    Null,
    /// A number, or one of the words `true` and `false`.
    Scalar,
}

/// One token of a JSON text.
#[derive(Debug)]
pub enum Token {
    ArrayOpen,
    ArrayClose,
    ObjectOpen,
    ObjectClose,
    Colon,
    Comma,
    /// A string, with its escapes resolved.
    Text(Vec<char>),
    /// The word `null`.
    Null,
    /// A number, or one of the words `true` and `false`.
    Scalar,
}

impl View for Token {
    type V = Tok;

    open spec fn view(&self) -> Tok {
        match self {
            Token::ArrayOpen => Tok::ArrayOpen,
            Token::ArrayClose => Tok::ArrayClose,
            Token::ObjectOpen => Tok::ObjectOpen,
            Token::ObjectClose => Tok::ObjectClose,
            Token::Colon => Tok::Colon,
            Token::Comma => Tok::Comma,
            Token::Text(t) => Tok::Text(t@),
            Token::Null => Tok::Null,
            Token::Scalar => Tok::Scalar,
        }
    }
}

impl DeepView for Token {
    type V = Tok;

    open spec fn deep_view(&self) -> Tok {
        self@
    }
}

/// Where in a token the reading stands.
#[derive(Clone, Copy, Debug, PartialEq, Eq, Structural)]
pub enum Mode {
    /// Between two tokens.
    Between,
    /// In a string.
    Text,
    /// In a string, after a backslash.
    Escape,
    /// In a string, among the four digits after `\u`.
    Hex,
    /// In a string, after the first half of a surrogate pair: a backslash
    /// must follow.
    PairEscape,
    /// After that backslash: `u` must follow.
    PairU,
    /// In a word of small letters.
    Word,
    /// In a number, after its minus sign.
    Minus,
    /// In a number, after a leading zero.
    Zero,
    /// In a number, among the digits of its whole part.
    Int,
    /// In a number, after its point.
    Point,
    /// In a number, among the digits after its point.
    Frac,
    /// In a number, after the letter of its exponent.
    Exp,
    /// In a number, after the sign of its exponent.
    ExpSign,
    /// In a number, among the digits of its exponent.
    ExpDigits,
    /// The text is no sequence of tokens.
    Failed,
}

/// The state of the reading.
pub struct Lex {
    pub mode: Mode,
    /// The tokens read so far.
    pub tokens: Seq<Tok>,
    /// The characters of the string or word being read.
    pub text: Seq<char>,
    /// The value of the digits read after `\u`.
    pub code: int,
    /// The number of those digits.
    pub digits: int,
    /// The first half of a surrogate pair that waits for the second, or 0.
    pub high: int,
}

/// The state before the first character.
pub open spec fn lex_start() -> Lex {
    Lex { mode: Mode::Between, tokens: Seq::empty(), text: Seq::empty(), code: 0, digits: 0, high: 0 }
}

/// `c` is one of the four characters that may stand between tokens.
pub open spec fn is_json_space(c: char) -> bool {
    c == ' ' || c == '\t' || c == '\n' || c == '\r'
}

/// `c` is a decimal digit.
pub open spec fn is_digit(c: char) -> bool {
    '0' <= c <= '9'
}

/// `c` is a small letter of the basic alphabet.
pub open spec fn is_small_letter(c: char) -> bool {
    'a' <= c <= 'z'
}

/// The value of a hexadecimal digit.
pub open spec fn hex_value(c: char) -> Option<int> {
    if '0' <= c <= '9' {
        Some(c as int - 0x30)
    } else if 'a' <= c <= 'f' {
        Some(c as int - 0x61 + 10)
    } else if 'A' <= c <= 'F' {
        Some(c as int - 0x41 + 10)
    } else {
        None
    }
}

/// The character that a backslash and `c` stand for, where `c` is not `u`.
pub open spec fn escape_value(c: char) -> Option<char> {
    if c == '"' || c == '\\' || c == '/' {
        Some(c)
    } else if c == 'b' {
        Some('\u{8}')
    } else if c == 'f' {
        Some('\u{c}')
    } else if c == 'n' {
        Some('\n')
    } else if c == 'r' {
        Some('\r')
    } else if c == 't' {
        Some('\t')
    } else {
        None
    }
}

/// The state after a character that has no place where it stands.
pub open spec fn failed(st: Lex) -> Lex {
    Lex { mode: Mode::Failed, ..st }
}

/// The state after the token `t` is complete.
pub open spec fn emitted(st: Lex, t: Tok) -> Lex {
    Lex { mode: Mode::Between, tokens: st.tokens.push(t), text: Seq::empty(), ..st }
}

/// The state after `c` was added to the string being read.
pub open spec fn extended(st: Lex, c: char) -> Lex {
    Lex { mode: Mode::Text, text: st.text.push(c), high: 0, ..st }
}

/// The state after the character `c` was read between two tokens.
pub open spec fn token_started(st: Lex, c: char) -> Lex {
    if is_json_space(c) {
        st
    } else if c == '[' {
        emitted(st, Tok::ArrayOpen)
    } else if c == ']' {
        emitted(st, Tok::ArrayClose)
    } else if c == '{' {
        emitted(st, Tok::ObjectOpen)
    } else if c == '}' {
        emitted(st, Tok::ObjectClose)
    } else if c == ':' {
        emitted(st, Tok::Colon)
    } else if c == ',' {
        emitted(st, Tok::Comma)
    } else if c == '"' {
        Lex { mode: Mode::Text, text: Seq::empty(), ..st }
    } else if c == '-' {
        Lex { mode: Mode::Minus, ..st }
    } else if c == '0' {
        Lex { mode: Mode::Zero, ..st }
    } else if is_digit(c) {
        Lex { mode: Mode::Int, ..st }
    } else if is_small_letter(c) {
        Lex { mode: Mode::Word, text: seq![c], ..st }
    } else {
        failed(st)
    }
}

/// The state after the word being read has ended: the word is one of
/// `null`, `true` and `false`.
pub open spec fn word_ended(st: Lex) -> Lex {
    if st.text == "null"@ {
        emitted(st, Tok::Null)
    } else if st.text == "true"@ || st.text == "false"@ {
        emitted(st, Tok::Scalar)
    } else {
        failed(st)
    }
}

/// The state after the fourth digit after `\u` gave the value `code`. A
/// first half of a surrogate pair waits for its second half; the two give
/// one character.
pub open spec fn hex_ended(st: Lex, code: int) -> Lex {
    if st.high != 0 {
        if 0xDC00 <= code <= 0xDFFF {
            extended(st, (0x10000 + (st.high - 0xD800) * 0x400 + (code - 0xDC00)) as char)
        } else {
            failed(st)
        }
    } else if 0xD800 <= code <= 0xDBFF {
        Lex { mode: Mode::PairEscape, high: code, ..st }
    } else if 0xDC00 <= code <= 0xDFFF {
        failed(st)
    } else {
        extended(st, code as char)
    }
}

/// The state after one more character.
pub open spec fn lex_step(st: Lex, c: char) -> Lex {
    match st.mode {
        Mode::Failed => st,
        Mode::Between => token_started(st, c),
        Mode::Text => if c == '"' {
            emitted(st, Tok::Text(st.text))
        } else if c == '\\' {
            Lex { mode: Mode::Escape, ..st }
        } else {
            extended(st, c)
        },
        Mode::Escape => if c == 'u' {
            Lex { mode: Mode::Hex, code: 0, digits: 0, ..st }
        } else {
            match escape_value(c) {
                Some(e) => extended(st, e),
                None => failed(st),
            }
        },
        Mode::Hex => match hex_value(c) {
            None => failed(st),
            Some(v) => {
                let code = st.code * 16 + v;
                if st.digits < 3 {
                    Lex { code, digits: st.digits + 1, ..st }
                } else {
                    hex_ended(st, code)
                }
            },
        },
        Mode::PairEscape => if c == '\\' {
            Lex { mode: Mode::PairU, ..st }
        } else {
            failed(st)
        },
        Mode::PairU => if c == 'u' {
            Lex { mode: Mode::Hex, code: 0, digits: 0, ..st }
        } else {
            failed(st)
        },
        Mode::Word => if is_small_letter(c) {
            Lex { text: st.text.push(c), ..st }
        } else {
            token_started(word_ended(st), c)
        },
        Mode::Minus => if c == '0' {
            Lex { mode: Mode::Zero, ..st }
        } else if is_digit(c) {
            Lex { mode: Mode::Int, ..st }
        } else {
            failed(st)
        },
        Mode::Zero => if c == '.' {
            Lex { mode: Mode::Point, ..st }
        } else if c == 'e' || c == 'E' {
            Lex { mode: Mode::Exp, ..st }
        } else {
            token_started(emitted(st, Tok::Scalar), c)
        },
        Mode::Int => if is_digit(c) {
            st
        } else if c == '.' {
            Lex { mode: Mode::Point, ..st }
        } else if c == 'e' || c == 'E' {
            Lex { mode: Mode::Exp, ..st }
        } else {
            token_started(emitted(st, Tok::Scalar), c)
        },
        Mode::Point => if is_digit(c) {
            Lex { mode: Mode::Frac, ..st }
        } else {
            failed(st)
        },
        Mode::Frac => if is_digit(c) {
            st
        } else if c == 'e' || c == 'E' {
            Lex { mode: Mode::Exp, ..st }
        } else {
            token_started(emitted(st, Tok::Scalar), c)
        },
        Mode::Exp => if c == '+' || c == '-' {
            Lex { mode: Mode::ExpSign, ..st }
        } else if is_digit(c) {
            Lex { mode: Mode::ExpDigits, ..st }
        } else {
            failed(st)
        },
        Mode::ExpSign => if is_digit(c) {
            Lex { mode: Mode::ExpDigits, ..st }
        } else {
            failed(st)
        },
        Mode::ExpDigits => if is_digit(c) {
            st
        } else {
            token_started(emitted(st, Tok::Scalar), c)
        },
    }
}

/// The state after the characters of `s`, read in order.
pub open spec fn lex_run(st: Lex, s: Seq<char>) -> Lex
    decreases s.len(),
{
    if s.len() == 0 {
        st
    } else {
        lex_step(lex_run(st, s.drop_last()), s.last())
    }
}

/// The state after the end of the text: a word or number that was being
/// read is complete; a string is not.
pub open spec fn lex_ended(st: Lex) -> Lex {
    match st.mode {
        Mode::Between => st,
        Mode::Word => word_ended(st),
        Mode::Zero | Mode::Int | Mode::Frac | Mode::ExpDigits => emitted(st, Tok::Scalar),
        _ => failed(st),
    }
}

/// The tokens of the text `s`, if it is a sequence of tokens.
pub open spec fn tokens_of(s: Seq<char>) -> Option<Seq<Tok>> {
    let st = lex_ended(lex_run(lex_start(), s));
    if st.mode == Mode::Between {
        Some(st.tokens)
    } else {
        None
    }
}

/// Reading a text piece by piece gives what reading it whole gives.
pub proof fn lemma_lex_run_concat(st: Lex, a: Seq<char>, b: Seq<char>)
    ensures
        lex_run(st, a + b) == lex_run(lex_run(st, a), b),
    decreases b.len(),
{
    if b.len() > 0 {
        assert((a + b).drop_last() =~= a + b.drop_last());
        lemma_lex_run_concat(st, a, b.drop_last());
    }
}

/// The state of the reading, as it is held while the machine runs.
#[derive(Debug)]
pub struct Lexer {
    pub mode: Mode,
    pub tokens: Vec<Token>,
    pub text: Vec<char>,
    pub code: u32,
    pub digits: u8,
    pub high: u32,
}

impl View for Lexer {
    type V = Lex;

    open spec fn view(&self) -> Lex {
        Lex {
            mode: self.mode,
            tokens: self.tokens.deep_view(),
            text: self.text@,
            code: self.code as int,
            digits: self.digits as int,
            high: self.high as int,
        }
    }
}

/// The numbers of the state are those that reading can lead to.
pub open spec fn lex_ok(st: Lex) -> bool {
    &&& 0 <= st.digits <= 3
    &&& 0 <= st.code < 0x1000
    &&& (st.digits == 0 ==> st.code == 0)
    &&& (st.digits == 1 ==> st.code < 0x10)
    &&& (st.digits == 2 ==> st.code < 0x100)
    &&& (st.high == 0 || 0xD800 <= st.high <= 0xDBFF)
}

/// Tells the value of a hexadecimal digit.
pub fn hex_digit(c: char) -> (r: Option<u32>)
    ensures
        match r {
            Some(v) => hex_value(c) == Some(v as int) && v < 16,
            None => hex_value(c) is None,
        },
{
    if '0' <= c && c <= '9' {
        Some(c as u32 - 0x30)
    } else if 'a' <= c && c <= 'f' {
        Some(c as u32 - 0x61 + 10)
    } else if 'A' <= c && c <= 'F' {
        Some(c as u32 - 0x41 + 10)
    } else {
        None
    }
}

/// Tells the character that a backslash and `c` stand for.
pub fn escape_char(c: char) -> (r: Option<char>)
    ensures
        r == escape_value(c),
{
    if c == '"' || c == '\\' || c == '/' {
        Some(c)
    } else if c == 'b' {
        Some('\u{8}')
    } else if c == 'f' {
        Some('\u{c}')
    } else if c == 'n' {
        Some('\n')
    } else if c == 'r' {
        Some('\r')
    } else if c == 't' {
        Some('\t')
    } else {
        None
    }
}

impl Lexer {
    /// The state before the first character.
    pub fn new() -> (st: Lexer)
        ensures
            st@ == lex_start(),
            lex_ok(st@),
    {
        let st = Lexer {
            mode: Mode::Between,
            tokens: Vec::new(),
            text: Vec::new(),
            code: 0,
            digits: 0,
            high: 0,
        };
        assert(st.tokens.deep_view() =~= Seq::<Tok>::empty());
        st
    }

    /// Completes the token `t`.
    fn emit(&mut self, t: Token)
        ensures
            final(self)@ == emitted(old(self)@, t@),
    {
        let ghost before = self.tokens.deep_view();
        let ghost tv = t@;
        self.tokens.push(t);
        self.text = Vec::new();
        self.mode = Mode::Between;
        assert(self.tokens.deep_view() =~= before.push(tv));
    }

    /// Adds `c` to the string being read.
    fn extend(&mut self, c: char)
        ensures
            final(self)@ == extended(old(self)@, c),
    {
        self.text.push(c);
        self.mode = Mode::Text;
        self.high = 0;
    }

    /// Reads the character `c` between two tokens.
    fn start_token(&mut self, c: char)
        ensures
            final(self)@ == token_started(old(self)@, c),
    {
        if c == ' ' || c == '\t' || c == '\n' || c == '\r' {
            // space between tokens
        } else if c == '[' {
            self.emit(Token::ArrayOpen);
        } else if c == ']' {
            self.emit(Token::ArrayClose);
        } else if c == '{' {
            self.emit(Token::ObjectOpen);
        } else if c == '}' {
            self.emit(Token::ObjectClose);
        } else if c == ':' {
            self.emit(Token::Colon);
        } else if c == ',' {
            self.emit(Token::Comma);
        } else if c == '"' {
            self.text = Vec::new();
            self.mode = Mode::Text;
        } else if c == '-' {
            self.mode = Mode::Minus;
        } else if c == '0' {
            self.mode = Mode::Zero;
        } else if '0' <= c && c <= '9' {
            self.mode = Mode::Int;
        } else if 'a' <= c && c <= 'z' {
            let mut t: Vec<char> = Vec::new();
            t.push(c);
            self.text = t;
            self.mode = Mode::Word;
        } else {
            self.mode = Mode::Failed;
        }
    }

    /// Ends the word being read.
    fn end_word(&mut self)
        ensures
            final(self)@ == word_ended(old(self)@),
    {
        let null = crate::text::chars_of("null");
        let yes = crate::text::chars_of("true");
        let no = crate::text::chars_of("false");
        if crate::text::same_text(self.text.as_slice(), null.as_slice()) {
            self.emit(Token::Null);
        } else if crate::text::same_text(self.text.as_slice(), yes.as_slice())
            || crate::text::same_text(self.text.as_slice(), no.as_slice()) {
            self.emit(Token::Scalar);
        } else {
            self.mode = Mode::Failed;
        }
    }

    /// Ends the four digits after `\u`, which gave the value `code`.
    fn end_hex(&mut self, code: u32)
        requires
            lex_ok(old(self)@),
            code < 0x10000,
        ensures
            final(self)@ == hex_ended(old(self)@, code as int),
            lex_ok(final(self)@),
    {
        if self.high != 0 {
            if 0xDC00 <= code && code <= 0xDFFF {
                let n: u32 = 0x10000 + (self.high - 0xD800) * 0x400 + (code - 0xDC00);
                match char::from_u32(n) {
                    Some(c) => {
                        self.extend(c);
                    },
                    None => {
                        assert(false);
                    },
                }
            } else {
                self.mode = Mode::Failed;
            }
        } else if 0xD800 <= code && code <= 0xDBFF {
            self.high = code;
            self.mode = Mode::PairEscape;
        } else if 0xDC00 <= code && code <= 0xDFFF {
            self.mode = Mode::Failed;
        } else {
            match char::from_u32(code) {
                Some(c) => {
                    self.extend(c);
                },
                None => {
                    assert(false);
                },
            }
        }
    }

    /// Reads one more character.
    pub fn step(&mut self, c: char)
        requires
            lex_ok(old(self)@),
        ensures
            final(self)@ == lex_step(old(self)@, c),
            lex_ok(final(self)@),
    {
        let digit = '0' <= c && c <= '9';
        match self.mode {
            Mode::Failed => {},
            Mode::Between => {
                self.start_token(c);
            },
            Mode::Text => {
                if c == '"' {
                    let mut t: Vec<char> = Vec::new();
                    core::mem::swap(&mut t, &mut self.text);
                    self.emit(Token::Text(t));
                } else if c == '\\' {
                    self.mode = Mode::Escape;
                } else {
                    self.extend(c);
                }
            },
            Mode::Escape => {
                if c == 'u' {
                    self.mode = Mode::Hex;
                    self.code = 0;
                    self.digits = 0;
                } else {
                    match escape_char(c) {
                        Some(e) => {
                            self.extend(e);
                        },
                        None => {
                            self.mode = Mode::Failed;
                        },
                    }
                }
            },
            Mode::Hex => {
                match hex_digit(c) {
                    None => {
                        self.mode = Mode::Failed;
                    },
                    Some(v) => {
                        let code: u32 = self.code * 16 + v;
                        if self.digits < 3 {
                            self.code = code;
                            self.digits = self.digits + 1;
                        } else {
                            self.end_hex(code);
                        }
                    },
                }
            },
            Mode::PairEscape => {
                if c == '\\' {
                    self.mode = Mode::PairU;
                } else {
                    self.mode = Mode::Failed;
                }
            },
            Mode::PairU => {
                if c == 'u' {
                    self.mode = Mode::Hex;
                    self.code = 0;
                    self.digits = 0;
                } else {
                    self.mode = Mode::Failed;
                }
            },
            Mode::Word => {
                if 'a' <= c && c <= 'z' {
                    self.text.push(c);
                } else {
                    self.end_word();
                    self.start_token(c);
                }
            },
            Mode::Minus => {
                if c == '0' {
                    self.mode = Mode::Zero;
                } else if digit {
                    self.mode = Mode::Int;
                } else {
                    self.mode = Mode::Failed;
                }
            },
            Mode::Zero => {
                if c == '.' {
                    self.mode = Mode::Point;
                } else if c == 'e' || c == 'E' {
                    self.mode = Mode::Exp;
                } else {
                    self.emit(Token::Scalar);
                    self.start_token(c);
                }
            },
            Mode::Int => {
                if digit {
                    // the whole part goes on
                } else if c == '.' {
                    self.mode = Mode::Point;
                } else if c == 'e' || c == 'E' {
                    self.mode = Mode::Exp;
                } else {
                    self.emit(Token::Scalar);
                    self.start_token(c);
                }
            },
            Mode::Point => {
                if digit {
                    self.mode = Mode::Frac;
                } else {
                    self.mode = Mode::Failed;
                }
            },
            Mode::Frac => {
                if digit {
                    // the part after the point goes on
                } else if c == 'e' || c == 'E' {
                    self.mode = Mode::Exp;
                } else {
                    self.emit(Token::Scalar);
                    self.start_token(c);
                }
            },
            Mode::Exp => {
                if c == '+' || c == '-' {
                    self.mode = Mode::ExpSign;
                } else if digit {
                    self.mode = Mode::ExpDigits;
                } else {
                    self.mode = Mode::Failed;
                }
            },
            Mode::ExpSign => {
                if digit {
                    self.mode = Mode::ExpDigits;
                } else {
                    self.mode = Mode::Failed;
                }
            },
            Mode::ExpDigits => {
                if !digit {
                    self.emit(Token::Scalar);
                    self.start_token(c);
                }
            },
        }
    }

    /// Reads the end of the text.
    pub fn end(&mut self)
        ensures
            final(self)@ == lex_ended(old(self)@),
    {
        match self.mode {
            Mode::Between => {},
            Mode::Word => {
                self.end_word();
            },
            Mode::Zero | Mode::Int | Mode::Frac | Mode::ExpDigits => {
                self.emit(Token::Scalar);
            },
            _ => {
                self.mode = Mode::Failed;
            },
        }
    }
}

/// Cuts the text into its tokens. There are none where the text is no
/// sequence of tokens: where a character stands that begins no token, a
/// string is not closed or holds a wrong escape, or a word or a number is
/// not one of JSON.
pub fn tokenize(text: &str) -> (r: Option<Vec<Token>>)
    ensures
        match r {
            Some(v) => tokens_of(text@) == Some(v.deep_view()),
            None => tokens_of(text@) is None,
        },
{
    let mut st = Lexer::new();
    for c in it: text.chars()
        invariant
            it.seq() == text@,
            lex_ok(st@),
            st@ == lex_run(lex_start(), it.seq().take(it.index())),
    {
        assert(text@.take(it.index() + 1).drop_last() =~= text@.take(it.index() as int));
        st.step(c);
    }
    assert(text@.take(text@.len() as int) =~= text@);
    st.end();
    if st.mode == Mode::Between {
        Some(st.tokens)
    } else {
        None
    }
}

} // verus!
