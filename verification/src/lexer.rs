//! Splits source text into tokens.
//!
//! The lexer is pull-based: [`Lexer::advance`] reads one token and records
//! where it lies in the source. All offsets count bytes of the UTF-8 text.

use crate::text::{
    char_is_whitespace, char_width, first_char, first_char_len, is_whitespace, leading_char,
    lemma_boundary_after_char, lemma_boundary_of_tail, str_tail, tail,
};
use vstd::prelude::*;
use vstd::string::*;
use vstd::utf8::*;

verus! {

/// The kinds of token.
#[derive(Copy, Clone, Debug, PartialEq, Eq, PartialOrd, Ord, Hash, Structural)]
pub enum Token {
    /// The end of the input.
    EOF,
    /// Digits.
    IntNumber,
    /// Digits with one decimal separator among them.
    FloatNumber,
    /// `(`
    LParen,
    /// `)`
    RParen,
    /// `+`
    Plus,
    /// `-`
    Minus,
    /// `*`
    Star,
    /// `/`
    Slash,
    /// `^`
    Caret,
    /// `%`
    Percent,
}

/// A character that starts no token.
#[derive(Copy, Clone, Debug, PartialEq, Eq, Structural)]
pub struct LexError {
    /// The character.
    pub ch: char,
    /// The byte offset at which it stands in the source.
    pub offset: usize,
}

/// What a lexer has read: the source, the current token and where it lies.
pub struct LexerState {
    /// The bytes of the source text.
    pub source: Seq<u8>,
    /// The offset at which the token before the current one ended.
    pub prev_end: int,
    /// The offset at which the current token starts.
    pub start: int,
    /// The offset just behind the current token.
    pub end: int,
    /// The kind of the current token.
    pub token: Token,
}

impl LexerState {
    /// The offsets are in order and lie within the source.
    pub open spec fn in_bounds(self) -> bool {
        0 <= self.prev_end <= self.start <= self.end <= self.source.len()
    }

    /// The bytes of the current token.
    pub open spec fn content(self) -> Seq<u8> {
        self.source.subrange(self.start, self.end)
    }

    /// A bound on the number of tokens still to come, the current one
    /// counted: it falls with every token read before the end of the input.
    pub open spec fn budget(self) -> int {
        2 * (self.source.len() - self.end) + if self.token == Token::EOF {
            0int
        } else {
            1int
        }
    }
}

/// Tells whether `b` is an ASCII digit.
pub open spec fn is_digit(b: u8) -> bool {
    0x30 <= b <= 0x39
}

/// Tells whether `b` is one of the two decimal separators, `.` and `,`.
pub open spec fn is_separator(b: u8) -> bool {
    b == 0x2e || b == 0x2c
}

/// The token that the single byte `b` stands for, if any.
pub open spec fn sign_token(b: u8) -> Option<Token> {
    if b == 0x25 {
        Some(Token::Percent)
    } else if b == 0x28 {
        Some(Token::LParen)
    } else if b == 0x29 {
        Some(Token::RParen)
    } else if b == 0x2a {
        Some(Token::Star)
    } else if b == 0x2b {
        Some(Token::Plus)
    } else if b == 0x2d {
        Some(Token::Minus)
    } else if b == 0x2f {
        Some(Token::Slash)
    } else if b == 0x5e {
        Some(Token::Caret)
    } else {
        None
    }
}

/// Where the run of digits with at most one decimal separator ends that
/// reaches offset `i` of `s`, and whether it holds a separator; `seen` tells
/// whether one stands before `i`.
pub open spec fn number_scan(s: Seq<u8>, i: int, seen: bool) -> (int, bool)
    decreases s.len() - i,
{
    if 0 <= i < s.len() && is_digit(s[i]) {
        number_scan(s, i + 1, seen)
    } else if 0 <= i < s.len() && is_separator(s[i]) && !seen {
        number_scan(s, i + 1, true)
    } else {
        (i, seen)
    }
}

/// The token at the start of `s` with its length in bytes, or the character
/// there if it starts no token.
pub open spec fn first_token(s: Seq<u8>) -> Result<(Token, int), char> {
    if s.len() == 0 {
        Ok((Token::EOF, 0))
    } else if is_digit(s[0]) {
        let (end, float) = number_scan(s, 0, false);
        Ok(
            (
                if float {
                    Token::FloatNumber
                } else {
                    Token::IntNumber
                },
                end,
            ),
        )
    } else {
        match sign_token(s[0]) {
            Some(token) => Ok((token, 1)),
            None => Err(first_char(s)),
        }
    }
}

/// The offset of the first character at or behind `pos` that is not white
/// space, or the length of `bytes` if there is none.
pub open spec fn skip_whitespace(bytes: Seq<u8>, pos: int) -> int
    decreases bytes.len() - pos,
{
    let rest = tail(bytes, pos);
    if 0 <= pos < bytes.len() && is_whitespace(first_char(rest)) && 1 <= first_char_len(rest)
        <= rest.len() {
        skip_whitespace(bytes, pos + first_char_len(rest))
    } else {
        pos
    }
}

/// The state after reading one more token, or the character that starts none.
pub open spec fn step(st: LexerState) -> Result<LexerState, LexError> {
    let start = skip_whitespace(st.source, st.end);
    match first_token(tail(st.source, start)) {
        Ok((token, len)) => Ok(
            LexerState { source: st.source, prev_end: st.end, start, end: start + len, token },
        ),
        Err(ch) => Err(LexError { ch, offset: start as usize }),
    }
}

/// White space is skipped forwards, and not beyond the end.
pub proof fn lemma_skip_whitespace_bounds(bytes: Seq<u8>, pos: int)
    requires
        0 <= pos <= bytes.len(),
    ensures
        pos <= skip_whitespace(bytes, pos) <= bytes.len(),
    decreases bytes.len() - pos,
{
    let rest = tail(bytes, pos);
    if 0 <= pos < bytes.len() && is_whitespace(first_char(rest)) && 1 <= first_char_len(rest)
        <= rest.len() {
        lemma_skip_whitespace_bounds(bytes, pos + first_char_len(rest));
    }
}

/// A run of digits ends at or behind the offset it was scanned from, and
/// within the text.
pub proof fn lemma_number_scan_bounds(s: Seq<u8>, i: int, seen: bool)
    requires
        0 <= i <= s.len(),
    ensures
        i <= number_scan(s, i, seen).0 <= s.len(),
    decreases s.len() - i,
{
    if 0 <= i < s.len() && is_digit(s[i]) {
        lemma_number_scan_bounds(s, i + 1, seen);
    } else if 0 <= i < s.len() && is_separator(s[i]) && !seen {
        lemma_number_scan_bounds(s, i + 1, true);
    }
}

/// A token lies within the text; only the end of the input is empty.
pub proof fn lemma_first_token_bounds(s: Seq<u8>)
    ensures
        first_token(s) matches Ok((token, len)) ==> 0 <= len <= s.len() && (token == Token::EOF
            <==> len == 0) && (token == Token::EOF <==> s.len() == 0),
{
    if s.len() > 0 && is_digit(s[0]) {
        lemma_number_scan_bounds(s, 1, false);
    }
}

/// Reading a token moves forwards within the source, and the budget falls
/// unless the token before was the end of the input.
pub proof fn lemma_step_advances(st: LexerState)
    requires
        0 <= st.end <= st.source.len(),
    ensures
        step(st) matches Ok(next) ==> {
            &&& next.source == st.source
            &&& next.prev_end == st.end
            &&& st.end <= next.start <= next.end <= st.source.len()
            &&& (next.token == Token::EOF <==> next.start == next.end)
            &&& 0 <= next.budget() <= st.budget()
            &&& (st.token != Token::EOF ==> next.budget() < st.budget())
        },
{
    lemma_skip_whitespace_bounds(st.source, st.end);
    let start = skip_whitespace(st.source, st.end);
    lemma_first_token_bounds(tail(st.source, start));
}

/// At the end of the source the next token is the end of the input: no
/// error, and again the end of the input at every further step. An empty
/// source is at its end from the start.
pub proof fn lemma_step_at_end(st: LexerState)
    requires
        st.end == st.source.len(),
    ensures
        step(st) == Ok::<LexerState, LexError>(
            LexerState {
                source: st.source,
                prev_end: st.end,
                start: st.end,
                end: st.end,
                token: Token::EOF,
            },
        ),
{
    assert(tail(st.source, st.end).len() == 0);
}

/// A pull-based tokenizer over a source text.
pub struct Lexer<'input> {
    text: &'input str,
    prev_end: usize,
    cur_start: usize,
    cur_end: usize,
    token: Token,
}

impl<'input> View for Lexer<'input> {
    type V = LexerState;

    closed spec fn view(&self) -> LexerState {
        LexerState {
            source: self.text.spec_bytes(),
            prev_end: self.prev_end as int,
            start: self.cur_start as int,
            end: self.cur_end as int,
            token: self.token,
        }
    }
}

impl<'input> Lexer<'input> {
    /// The source text that the lexer reads.
    pub closed spec fn text(&self) -> &'input str {
        self.text
    }

    /// What holds of every lexer: its offsets are in order, lie within the
    /// source, and the current token starts and ends between characters.
    #[verifier::type_invariant]
    pub closed spec fn well_formed(&self) -> bool {
        let bytes = self.text.spec_bytes();
        &&& self.prev_end <= self.cur_start <= self.cur_end <= bytes.len()
        &&& is_char_boundary(bytes, self.cur_start as int)
        &&& is_char_boundary(bytes, self.cur_end as int)
    }

    /// The offsets of a lexer are in order and lie within its source.
    pub proof fn lemma_in_bounds(&self)
        requires
            self.well_formed(),
        ensures
            self@.in_bounds(),
            self@.source == self.text().spec_bytes(),
    {
    }

    /// A lexer at the start of `text`, before its first token.
    pub fn new(text: &'input str) -> (lexer: Lexer<'input>)
        ensures
            lexer.text() == text,
            lexer@ == (LexerState {
                source: text.spec_bytes(),
                prev_end: 0,
                start: 0,
                end: 0,
                token: Token::EOF,
            }),
    {
        proof {
            encode_utf8_valid_utf8(text@);
            is_char_boundary_start_end_of_seq(text.spec_bytes());
        }
        Lexer { text, prev_end: 0, cur_start: 0, cur_end: 0, token: Token::EOF }
    }

    /// The kind of the current token.
    pub fn token(&self) -> (token: Token)
        ensures
            token == self@.token,
    {
        self.token
    }

    /// The text of the current token.
    pub fn content(&self) -> (content: &str)
        ensures
            0 <= self@.start <= self@.end <= self@.source.len(),
            content.spec_bytes() == self@.source.subrange(self@.start, self@.end),
    {
        proof {
            use_type_invariant(self);
            encode_utf8_valid_utf8(self.text@);
        }
        let (head, _) = self.text.split_at(self.cur_end);
        proof {
            encode_utf8_valid_utf8(head@);
            let bytes = self.text.spec_bytes();
            let start = self.cur_start as int;
            if start < head.spec_bytes().len() {
                is_char_boundary_iff_not_is_continuation_byte(bytes, start);
                is_char_boundary_iff_not_is_continuation_byte(head.spec_bytes(), start);
            } else {
                is_char_boundary_start_end_of_seq(head.spec_bytes());
            }
        }
        let (_, content) = head.split_at(self.cur_start);
        assert(content.spec_bytes() =~= self@.source.subrange(self@.start, self@.end));
        content
    }

    /// The byte offset at which the current token starts.
    pub fn start_loc(&self) -> (loc: usize)
        ensures
            loc == self@.start,
    {
        self.cur_start
    }

    /// The byte offset at which the token before the current one ended.
    pub fn previous_end_loc(&self) -> (loc: usize)
        ensures
            loc == self@.prev_end,
    {
        self.prev_end
    }

    /// Reads the next token, skipping the white space before it. At the end of
    /// the input the token is [`Token::EOF`], again and again. Where a
    /// character starts no token the lexer stays as it is.
    pub fn advance(&mut self) -> (r: Result<(), LexError>)
        ensures
            final(self).text() == old(self).text(),
            match step(old(self)@) {
                Ok(st) => r is Ok && final(self)@ == st,
                Err(e) => r == Err::<(), LexError>(e) && final(self)@ == old(self)@,
            },
    {
        proof {
            use_type_invariant(&*self);
            encode_utf8_valid_utf8(self.text@);
        }
        let text = self.text;
        let ghost bytes = text.spec_bytes();
        let total: usize = text.as_bytes().len();
        let from: usize = self.cur_end;
        let mut pos: usize = from;
        while pos < total
            invariant_except_break
                skip_whitespace(bytes, pos as int) == skip_whitespace(bytes, from as int),
            invariant
                bytes == text.spec_bytes(),
                valid_utf8(bytes),
                total == bytes.len(),
                from <= pos <= total,
                is_char_boundary(bytes, pos as int),
            ensures
                pos == skip_whitespace(bytes, from as int),
            decreases total - pos,
        {
            let c = leading_char(str_tail(text, pos));
            if !char_is_whitespace(c) {
                break ;
            }
            proof {
                lemma_boundary_after_char(bytes, pos as int);
            }
            pos = pos + char_width(c);
        }
        let rest = str_tail(text, pos);
        match Self::find_token(rest) {
            Ok((token, len)) => {
                proof {
                    lemma_boundary_of_tail(bytes, pos as int, len as int);
                }
                *self = Lexer { text, prev_end: from, cur_start: pos, cur_end: pos + len, token };
                Ok(())
            },
            Err(ch) => Err(LexError { ch, offset: pos }),
        }
    }

    /// The token at the start of `text` and its length in bytes.
    fn find_token(text: &str) -> (r: Result<(Token, usize), char>)
        ensures
            match first_token(text.spec_bytes()) {
                Ok((token, len)) => r == Ok::<(Token, usize), char>((token, len as usize)) && 0
                    <= len <= text.spec_bytes().len() && is_char_boundary(
                    text.spec_bytes(),
                    len,
                ),
                Err(ch) => r == Err::<(Token, usize), char>(ch),
            },
    {
        proof {
            encode_utf8_valid_utf8(text@);
            is_char_boundary_start_end_of_seq(text.spec_bytes());
        }
        let bytes = text.as_bytes();
        let total: usize = bytes.len();
        if total == 0 {
            return Ok((Token::EOF, 0));
        }
        let first: u8 = bytes[0];
        if 0x30 <= first && first <= 0x39 {
            let mut i: usize = 0;
            let mut float: bool = false;
            loop
                invariant
                    bytes@ == text.spec_bytes(),
                    valid_utf8(bytes@),
                    total == bytes@.len(),
                    i <= total,
                    is_char_boundary(bytes@, i as int),
                    number_scan(bytes@, i as int, float) == number_scan(bytes@, 0, false),
                ensures
                    (i as int, float) == number_scan(bytes@, 0, false),
                decreases total - i,
            {
                if i >= total {
                    break ;
                }
                let b: u8 = bytes[i];
                let digit = 0x30 <= b && b <= 0x39;
                let separator = b == 0x2e || b == 0x2c;
                if !(digit || (separator && !float)) {
                    break ;
                }
                proof {
                    lemma_boundary_after_char(bytes@, i as int);
                    assert(tail(bytes@, i as int)[0] == b);
                }
                if !digit {
                    float = true;
                }
                i = i + 1;
            }
            let token = if float {
                Token::FloatNumber
            } else {
                Token::IntNumber
            };
            return Ok((token, i));
        }
        let token = if first == 0x25 {
            Token::Percent
        } else if first == 0x28 {
            Token::LParen
        } else if first == 0x29 {
            Token::RParen
        } else if first == 0x2a {
            Token::Star
        } else if first == 0x2b {
            Token::Plus
        } else if first == 0x2d {
            Token::Minus
        } else if first == 0x2f {
            Token::Slash
        } else if first == 0x5e {
            Token::Caret
        } else {
            return Err(leading_char(text));
        };
        proof {
            lemma_boundary_after_char(bytes@, 0);
            assert(tail(bytes@, 0) =~= bytes@);
        }
        Ok((token, 1))
    }
}

} // verus!
