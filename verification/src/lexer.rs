//! Tokenization: the input text is scanned greedily, left to right, into
//! single-character operator and parenthesis tokens and numeric literals.
//! A literal token carries the text it was scanned from; what number that
//! text denotes is the host's concern.

use vstd::prelude::*;
use vstd::string::*;

verus! {

/// A lexical token.  A numeric literal carries the digit-and-dot text it
/// was scanned from.
#[derive(Debug, PartialEq, Clone)]
pub enum Token {
    Literal(String),
    Plus,
    Minus,
    Star,
    ForwardSlash,
    Caret,
    LeftParentheses,
    RightParentheses,
}

/// The mathematical shape of a token: literal text as a sequence of
/// characters.
pub enum SpecToken {
    Literal(Seq<char>),
    Plus,
    Minus,
    Star,
    ForwardSlash,
    Caret,
    LeftParentheses,
    RightParentheses,
}

impl View for Token {
    type V = SpecToken;

    open spec fn view(&self) -> SpecToken {
        match self {
            Token::Literal(s) => SpecToken::Literal(s@),
            Token::Plus => SpecToken::Plus,
            Token::Minus => SpecToken::Minus,
            Token::Star => SpecToken::Star,
            Token::ForwardSlash => SpecToken::ForwardSlash,
            Token::Caret => SpecToken::Caret,
            Token::LeftParentheses => SpecToken::LeftParentheses,
            Token::RightParentheses => SpecToken::RightParentheses,
        }
    }
}

pub open spec fn token_views(tokens: Seq<Token>) -> Seq<SpecToken> {
    tokens.map_values(|t: Token| t@)
}

/// Why scanning stopped: a character outside the language, or a
/// digit-and-dot run that does not denote a number.
#[derive(Debug, PartialEq, Eq, Clone, Copy)]
pub enum LexError {
    InvalidCharacter(char),
    MalformedLiteral,
}

pub open spec fn is_space_char(c: char) -> bool {
    c == ' ' || c == '\t' || c == '\n'
}

pub open spec fn is_digit_char(c: char) -> bool {
    48 <= c as u32 && c as u32 <= 57
}

/// A character that may continue a numeric literal once a digit has
/// started one.
pub open spec fn is_literal_char(c: char) -> bool {
    is_digit_char(c) || c == '.'
}

/// The first index at or after `pos` that is not part of a literal's
/// digit-and-dot run.
pub open spec fn literal_end(s: Seq<char>, pos: int) -> int
    decreases s.len() - pos,
{
    if 0 <= pos < s.len() && is_literal_char(s[pos]) {
        literal_end(s, pos + 1)
    } else {
        pos
    }
}

pub proof fn lemma_literal_end(s: Seq<char>, pos: int)
    requires
        0 <= pos <= s.len(),
    ensures
        pos <= literal_end(s, pos) <= s.len(),
    decreases s.len() - pos,
{
    if pos < s.len() && is_literal_char(s[pos]) {
        lemma_literal_end(s, pos + 1);
    }
}

/// The number of `.` characters at or after `pos`.
pub open spec fn dots_from(s: Seq<char>, pos: int) -> nat
    decreases s.len() - pos,
{
    if 0 <= pos < s.len() {
        (if s[pos] == '.' { 1nat } else { 0nat }) + dots_from(s, pos + 1)
    } else {
        0
    }
}

pub open spec fn dot_count(s: Seq<char>) -> nat {
    dots_from(s, 0)
}

/// A digit-and-dot run denotes a number exactly when it holds at most one
/// dot: a second dot, as in `1.2.3`, makes the text meaningless.
pub open spec fn literal_text_ok(s: Seq<char>) -> bool {
    dot_count(s) <= 1
}

/// What scanning a text yields: the tokens produced, in order, and the
/// error, if any, that ended the scan after them.
pub struct SpecLexed {
    pub tokens: Seq<SpecToken>,
    pub error: Option<LexError>,
}

pub open spec fn with_token(t: SpecToken, rest: SpecLexed) -> SpecLexed {
    SpecLexed { tokens: seq![t] + rest.tokens, error: rest.error }
}

/// Scanning the text from `pos`, greedily and left to right: whitespace
/// produces nothing, the seven punctuation characters each produce their
/// token, a digit starts a numeric literal that extends over all following
/// digits and dots, and any other character stops the scan with an error.
pub open spec fn spec_scan(s: Seq<char>, pos: int) -> SpecLexed
    decreases s.len() - pos,
{
    if !(0 <= pos < s.len()) {
        SpecLexed { tokens: Seq::empty(), error: None }
    } else {
        let c = s[pos];
        if is_space_char(c) {
            spec_scan(s, pos + 1)
        } else if c == '+' {
            with_token(SpecToken::Plus, spec_scan(s, pos + 1))
        } else if c == '-' {
            with_token(SpecToken::Minus, spec_scan(s, pos + 1))
        } else if c == '*' {
            with_token(SpecToken::Star, spec_scan(s, pos + 1))
        } else if c == '/' {
            with_token(SpecToken::ForwardSlash, spec_scan(s, pos + 1))
        } else if c == '^' {
            with_token(SpecToken::Caret, spec_scan(s, pos + 1))
        } else if c == '(' {
            with_token(SpecToken::LeftParentheses, spec_scan(s, pos + 1))
        } else if c == ')' {
            with_token(SpecToken::RightParentheses, spec_scan(s, pos + 1))
        } else if is_digit_char(c) {
            let end = literal_end(s, pos + 1);
            let text = s.subrange(pos, end);
            if literal_text_ok(text) {
                proof {
                    lemma_literal_end(s, pos + 1);
                }
                with_token(SpecToken::Literal(text), spec_scan(s, end))
            } else {
                SpecLexed { tokens: Seq::empty(), error: Some(LexError::MalformedLiteral) }
            }
        } else {
            SpecLexed { tokens: Seq::empty(), error: Some(LexError::InvalidCharacter(c)) }
        }
    }
}

fn is_space(c: char) -> (b: bool)
    ensures
        b == is_space_char(c),
{
    c == ' ' || c == '\t' || c == '\n'
}

fn is_digit(c: char) -> (b: bool)
    ensures
        b == is_digit_char(c),
{
    let n = c as u32;
    48 <= n && n <= 57
}

fn is_literal_part(c: char) -> (b: bool)
    ensures
        b == is_literal_char(c),
{
    is_digit(c) || c == '.'
}

/// The number of `.` characters in the text.
fn count_dots(s: &str) -> (n: usize)
    ensures
        n as nat == dot_count(s@),
{
    let len = s.unicode_len();
    let mut i: usize = 0;
    let mut n: usize = 0;
    while i < len
        invariant
            i <= len,
            n <= i,
            len == s@.len(),
            n as nat + dots_from(s@, i as int) == dot_count(s@),
        decreases len - i,
    {
        if s.get_char(i) == '.' {
            n = n + 1;
        }
        i = i + 1;
    }
    n
}

/// The scanner: a cursor over the input text that hands out one token at a
/// time.
pub struct Lexer<'a> {
    input: &'a str,
    offset: usize,
}

impl<'a> Lexer<'a> {
    pub closed spec fn text(&self) -> Seq<char> {
        self.input@
    }

    pub closed spec fn position(&self) -> int {
        self.offset as int
    }

    pub open spec fn wf(&self) -> bool {
        self.position() <= self.text().len()
    }

    /// What the rest of the scan, from the cursor on, yields.
    pub open spec fn remaining(&self) -> SpecLexed {
        spec_scan(self.text(), self.position())
    }

    pub fn new(input: &'a str) -> (r: Self)
        ensures
            r.wf(),
            r.text() == input@,
            r.position() == 0,
    {
        Lexer { input, offset: 0 }
    }

    /// The next token, `None` at the end of the text, or the error that
    /// stops the scan.  After reporting an invalid character the cursor
    /// stands on the character after it.
    pub fn next(&mut self) -> (r: Option<Result<Token, LexError>>)
        requires
            old(self).wf(),
        ensures
            final(self).wf(),
            final(self).text() == old(self).text(),
            match r {
                None => {
                    &&& old(self).remaining().tokens.len() == 0
                    &&& old(self).remaining().error is None
                    &&& final(self).position() == final(self).text().len()
                },
                Some(Ok(t)) => {
                    &&& old(self).remaining().tokens.len() > 0
                    &&& t@ == old(self).remaining().tokens[0]
                    &&& final(self).remaining().tokens == old(self).remaining().tokens.skip(1)
                    &&& final(self).remaining().error == old(self).remaining().error
                    &&& final(self).position() > old(self).position()
                },
                Some(Err(e)) => {
                    &&& old(self).remaining().tokens.len() == 0
                    &&& old(self).remaining().error == Some(e)
                    &&& final(self).position() > old(self).position()
                },
            },
    {
        loop
            invariant
                self.wf(),
                self.input == old(self).input,
                self.offset >= old(self).offset,
                spec_scan(self.text(), self.position()) == old(self).remaining(),
            decreases self.text().len() - self.position(),
        {
            let ghost pre = *self;
            if self.offset >= self.input.unicode_len() {
                return None;
            }
            let c = self.input.get_char(self.offset);
            if is_space(c) {
                self.offset = self.offset + 1;
            } else if c == '+' {
                self.offset = self.offset + 1;
                proof {
                    lemma_skip_first(pre.remaining(), self.remaining());
                }
                return Some(Ok(Token::Plus));
            } else if c == '-' {
                self.offset = self.offset + 1;
                proof {
                    lemma_skip_first(pre.remaining(), self.remaining());
                }
                return Some(Ok(Token::Minus));
            } else if c == '*' {
                self.offset = self.offset + 1;
                proof {
                    lemma_skip_first(pre.remaining(), self.remaining());
                }
                return Some(Ok(Token::Star));
            } else if c == '/' {
                self.offset = self.offset + 1;
                proof {
                    lemma_skip_first(pre.remaining(), self.remaining());
                }
                return Some(Ok(Token::ForwardSlash));
            } else if c == '^' {
                self.offset = self.offset + 1;
                proof {
                    lemma_skip_first(pre.remaining(), self.remaining());
                }
                return Some(Ok(Token::Caret));
            } else if c == '(' {
                self.offset = self.offset + 1;
                proof {
                    lemma_skip_first(pre.remaining(), self.remaining());
                }
                return Some(Ok(Token::LeftParentheses));
            } else if c == ')' {
                self.offset = self.offset + 1;
                proof {
                    lemma_skip_first(pre.remaining(), self.remaining());
                }
                return Some(Ok(Token::RightParentheses));
            } else if is_digit(c) {
                let start = self.offset;
                self.offset = self.offset + 1;
                while self.offset < self.input.unicode_len() && is_literal_part(
                    self.input.get_char(self.offset),
                )
                    invariant
                        self.input == pre.input,
                        start < self.offset <= self.text().len(),
                        literal_end(self.text(), start as int + 1) == literal_end(
                            self.text(),
                            self.offset as int,
                        ),
                    decreases self.text().len() - self.position(),
                {
                    self.offset = self.offset + 1;
                }
                let text = self.input.substring_char(start, self.offset).to_owned();
                let dots = count_dots(text.as_str());
                if dots <= 1 {
                    proof {
                        lemma_skip_first(pre.remaining(), self.remaining());
                    }
                    return Some(Ok(Token::Literal(text)));
                } else {
                    return Some(Err(LexError::MalformedLiteral));
                }
            } else {
                self.offset = self.offset + 1;
                return Some(Err(LexError::InvalidCharacter(c)));
            }
        }
    }
}

/// After handing out the first token of a scan, exactly the rest of that
/// scan is left.
proof fn lemma_skip_first(whole: SpecLexed, rest: SpecLexed)
    requires
        whole.tokens.len() > 0,
        whole.tokens == seq![whole.tokens[0]] + rest.tokens,
        whole.error == rest.error,
    ensures
        rest.tokens == whole.tokens.skip(1),
        rest.error == whole.error,
{
    assert(rest.tokens =~= whole.tokens.skip(1));
}

/// Scans the whole text eagerly: every token, in order, or the first error.
pub fn tokenize(input: &str) -> (r: Result<Vec<Token>, LexError>)
    ensures
        match r {
            Ok(tokens) => {
                &&& spec_scan(input@, 0).error is None
                &&& token_views(tokens@) == spec_scan(input@, 0).tokens
            },
            Err(e) => spec_scan(input@, 0).error == Some(e),
        },
{
    let mut lexer = Lexer::new(input);
    let mut tokens: Vec<Token> = Vec::new();
    loop
        invariant
            lexer.wf(),
            lexer.text() == input@,
            spec_scan(input@, 0).tokens == token_views(tokens@) + lexer.remaining().tokens,
            spec_scan(input@, 0).error == lexer.remaining().error,
        decreases input@.len() - lexer.position(),
    {
        let ghost rem = lexer.remaining();
        let ghost seen = token_views(tokens@);
        match lexer.next() {
            None => {
                proof {
                    assert(seen + rem.tokens =~= seen);
                }
                return Ok(tokens);
            },
            Some(Ok(t)) => {
                tokens.push(t);
                proof {
                    assert(token_views(tokens@) =~= seen + seq![t@]);
                    assert(rem.tokens =~= seq![rem.tokens[0]] + rem.tokens.skip(1));
                    assert(seen + rem.tokens =~= token_views(tokens@) + rem.tokens.skip(1));
                }
            },
            Some(Err(e)) => {
                return Err(e);
            },
        }
    }
}

} // verus!
