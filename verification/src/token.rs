//! Tokens produced by the scanner.
use vstd::prelude::*;
use crate::text::{str_is, string_of_char};

verus! {

/// The kind of a token. The kinds that carry text hold an `S`: a `String` in
/// running code, its sequence of characters in specifications.
///
/// A number literal carries its source text (digits, optionally a point and
/// more digits); its numeric value is read from that text where it is used.
#[derive(Debug, Clone, PartialEq)]
pub enum TokenKind<S> {
    // Punctuations
    Semicolon,
    LeftParen,
    LeftCurly,
    RightParen,
    RightCurly,
    Dot,
    Comma,
    // Ops
    Eq,
    Plus,
    Minus,
    Star,
    Slash,
    EqEq,
    Greater,
    GreaterEq,
    Less,
    LessEq,
    BangEq,
    Bang,
    // Literals
    Number(S),
    Identifier(S),
    StringLit(S),
    // Keywords
    Var,
    True,
    False,
    If,
    Print,
    While,
    Nil,
    And,
    Or,
    Else,
    For,
    Fun,
    Return,
    Class,
    Super,
    This,
    // End of input
    Eof,
}

/// The kind of a token as the scanner produces it.
pub type TokenType = TokenKind<String>;

/// The kind of a token, seen through the characters of its text.
pub type SpecTokenType = TokenKind<Seq<char>>;

impl View for TokenKind<String> {
    type V = TokenKind<Seq<char>>;

    open spec fn view(&self) -> TokenKind<Seq<char>> {
        match self {
            TokenKind::Semicolon => TokenKind::Semicolon,
            TokenKind::LeftParen => TokenKind::LeftParen,
            TokenKind::LeftCurly => TokenKind::LeftCurly,
            TokenKind::RightParen => TokenKind::RightParen,
            TokenKind::RightCurly => TokenKind::RightCurly,
            TokenKind::Dot => TokenKind::Dot,
            TokenKind::Comma => TokenKind::Comma,
            TokenKind::Eq => TokenKind::Eq,
            TokenKind::Plus => TokenKind::Plus,
            TokenKind::Minus => TokenKind::Minus,
            TokenKind::Star => TokenKind::Star,
            TokenKind::Slash => TokenKind::Slash,
            TokenKind::EqEq => TokenKind::EqEq,
            TokenKind::Greater => TokenKind::Greater,
            TokenKind::GreaterEq => TokenKind::GreaterEq,
            TokenKind::Less => TokenKind::Less,
            TokenKind::LessEq => TokenKind::LessEq,
            TokenKind::BangEq => TokenKind::BangEq,
            TokenKind::Bang => TokenKind::Bang,
            TokenKind::Number(s) => TokenKind::Number(s@),
            TokenKind::Identifier(s) => TokenKind::Identifier(s@),
            TokenKind::StringLit(s) => TokenKind::StringLit(s@),
            TokenKind::Var => TokenKind::Var,
            TokenKind::True => TokenKind::True,
            TokenKind::False => TokenKind::False,
            TokenKind::If => TokenKind::If,
            TokenKind::Print => TokenKind::Print,
            TokenKind::While => TokenKind::While,
            TokenKind::Nil => TokenKind::Nil,
            TokenKind::And => TokenKind::And,
            TokenKind::Or => TokenKind::Or,
            TokenKind::Else => TokenKind::Else,
            TokenKind::For => TokenKind::For,
            TokenKind::Fun => TokenKind::Fun,
            TokenKind::Return => TokenKind::Return,
            TokenKind::Class => TokenKind::Class,
            TokenKind::Super => TokenKind::Super,
            TokenKind::This => TokenKind::This,
            TokenKind::Eof => TokenKind::Eof,
        }
    }
}

/// A token: its kind, the raw text it was read from, and its position as a
/// (line, column) pair, both counted from 0.
#[derive(Debug, PartialEq)]
pub struct TokenOf<S> {
    /// type of the token
    pub ty: TokenKind<S>,
    /// the raw text representation as parsed
    pub lexeme: S,
    /// a tuple containing line number and offset
    pub pos: (usize, usize),
}

/// A token as the scanner produces it.
pub type Token = TokenOf<String>;

/// A token, seen through the characters of its texts.
pub type SpecToken = TokenOf<Seq<char>>;

impl View for TokenOf<String> {
    type V = TokenOf<Seq<char>>;

    open spec fn view(&self) -> TokenOf<Seq<char>> {
        TokenOf { ty: self.ty@, lexeme: self.lexeme@, pos: self.pos }
    }
}

/// `a - b`, or 0 where `b` exceeds `a`.
pub open spec fn sat_sub(a: int, b: int) -> int {
    if a >= b {
        a - b
    } else {
        0
    }
}

/// The number of bytes of the UTF-8 encoding of `s`, as `str::len` reports
/// it for a string holding `s`.
pub open spec fn utf8_len(s: Seq<char>) -> int {
    (vstd::utf8::encode_utf8(s).len() as usize) as int
}

/// The kind of a one-character token, where `ch` makes one on its own.
pub open spec fn single_char_kind(ch: char) -> Option<SpecTokenType> {
    if ch == ';' {
        Some(TokenKind::Semicolon)
    } else if ch == '(' {
        Some(TokenKind::LeftParen)
    } else if ch == ')' {
        Some(TokenKind::RightParen)
    } else if ch == '{' {
        Some(TokenKind::LeftCurly)
    } else if ch == '}' {
        Some(TokenKind::RightCurly)
    } else if ch == '-' {
        Some(TokenKind::Minus)
    } else if ch == '+' {
        Some(TokenKind::Plus)
    } else if ch == '*' {
        Some(TokenKind::Star)
    } else if ch == '/' {
        Some(TokenKind::Slash)
    } else if ch == '!' {
        Some(TokenKind::Bang)
    } else if ch == '=' {
        Some(TokenKind::Eq)
    } else if ch == ',' {
        Some(TokenKind::Comma)
    } else if ch == '.' {
        Some(TokenKind::Dot)
    } else {
        None
    }
}

/// The keyword that the word `s` spells, if it spells one.
pub open spec fn keyword_kind(s: Seq<char>) -> Option<SpecTokenType> {
    if s == seq!['v', 'a', 'r'] {
        Some(TokenKind::Var)
    } else if s == seq!['t', 'r', 'u', 'e'] {
        Some(TokenKind::True)
    } else if s == seq!['f', 'a', 'l', 's', 'e'] {
        Some(TokenKind::False)
    } else if s == seq!['i', 'f'] {
        Some(TokenKind::If)
    } else if s == seq!['p', 'r', 'i', 'n', 't'] {
        Some(TokenKind::Print)
    } else if s == seq!['w', 'h', 'i', 'l', 'e'] {
        Some(TokenKind::While)
    } else if s == seq!['n', 'i', 'l'] {
        Some(TokenKind::Nil)
    } else if s == seq!['a', 'n', 'd'] {
        Some(TokenKind::And)
    } else if s == seq!['o', 'r'] {
        Some(TokenKind::Or)
    } else if s == seq!['e', 'l', 's', 'e'] {
        Some(TokenKind::Else)
    } else if s == seq!['f', 'o', 'r'] {
        Some(TokenKind::For)
    } else if s == seq!['f', 'u', 'n'] {
        Some(TokenKind::Fun)
    } else if s == seq!['r', 'e', 't', 'u', 'r', 'n'] {
        Some(TokenKind::Return)
    } else if s == seq!['c', 'l', 'a', 's', 's'] {
        Some(TokenKind::Class)
    } else if s == seq!['s', 'u', 'p', 'e', 'r'] {
        Some(TokenKind::Super)
    } else if s == seq!['t', 'h', 'i', 's'] {
        Some(TokenKind::This)
    } else {
        None
    }
}

/// The kind of a word token: its keyword where it spells one, else an
/// identifier carrying the word.
pub open spec fn word_kind(s: Seq<char>) -> SpecTokenType {
    match keyword_kind(s) {
        Some(k) => k,
        None => TokenKind::Identifier(s),
    }
}

/// The keyword that `s` spells, if any.
fn keyword_of(s: &String) -> (r: Option<TokenType>)
    ensures
        match r {
            Some(k) => keyword_kind(s@) == Some(k@),
            None => keyword_kind(s@) is None,
        },
{
    proof {
        reveal_strlit("var");
        assert("var"@ =~= seq!['v', 'a', 'r']);
        reveal_strlit("true");
        assert("true"@ =~= seq!['t', 'r', 'u', 'e']);
        reveal_strlit("false");
        assert("false"@ =~= seq!['f', 'a', 'l', 's', 'e']);
        reveal_strlit("if");
        assert("if"@ =~= seq!['i', 'f']);
        reveal_strlit("print");
        assert("print"@ =~= seq!['p', 'r', 'i', 'n', 't']);
        reveal_strlit("while");
        assert("while"@ =~= seq!['w', 'h', 'i', 'l', 'e']);
        reveal_strlit("nil");
        assert("nil"@ =~= seq!['n', 'i', 'l']);
        reveal_strlit("and");
        assert("and"@ =~= seq!['a', 'n', 'd']);
        reveal_strlit("or");
        assert("or"@ =~= seq!['o', 'r']);
        reveal_strlit("else");
        assert("else"@ =~= seq!['e', 'l', 's', 'e']);
        reveal_strlit("for");
        assert("for"@ =~= seq!['f', 'o', 'r']);
        reveal_strlit("fun");
        assert("fun"@ =~= seq!['f', 'u', 'n']);
        reveal_strlit("return");
        assert("return"@ =~= seq!['r', 'e', 't', 'u', 'r', 'n']);
        reveal_strlit("class");
        assert("class"@ =~= seq!['c', 'l', 'a', 's', 's']);
        reveal_strlit("super");
        assert("super"@ =~= seq!['s', 'u', 'p', 'e', 'r']);
        reveal_strlit("this");
        assert("this"@ =~= seq!['t', 'h', 'i', 's']);
    }
    if str_is(s, "var") {
        Some(TokenKind::Var)
    } else if str_is(s, "true") {
        Some(TokenKind::True)
    } else if str_is(s, "false") {
        Some(TokenKind::False)
    } else if str_is(s, "if") {
        Some(TokenKind::If)
    } else if str_is(s, "print") {
        Some(TokenKind::Print)
    } else if str_is(s, "while") {
        Some(TokenKind::While)
    } else if str_is(s, "nil") {
        Some(TokenKind::Nil)
    } else if str_is(s, "and") {
        Some(TokenKind::And)
    } else if str_is(s, "or") {
        Some(TokenKind::Or)
    } else if str_is(s, "else") {
        Some(TokenKind::Else)
    } else if str_is(s, "for") {
        Some(TokenKind::For)
    } else if str_is(s, "fun") {
        Some(TokenKind::Fun)
    } else if str_is(s, "return") {
        Some(TokenKind::Return)
    } else if str_is(s, "class") {
        Some(TokenKind::Class)
    } else if str_is(s, "super") {
        Some(TokenKind::Super)
    } else if str_is(s, "this") {
        Some(TokenKind::This)
    } else {
        None
    }
}

impl TokenOf<String> {
    /// takes a [`TokenType`], lexeme and postion and constructs a new [`Token`]
    /// The pos provided is the current position of the parser, hence,
    /// the length of the lexeme (in bytes) is subtracted to get the beginning
    /// of the lexeme in the source code
    pub fn new_do_offset(ty: TokenType, lexeme: String, pos: (usize, usize)) -> (r: Self)
        ensures
            r.ty == ty,
            r.lexeme == lexeme,
            r.pos.0 == pos.0,
            r.pos.1 == sat_sub(pos.1 as int, utf8_len(lexeme@)),
    {
        let lex_len = lexeme.as_str().len();
        let mut pos = pos;
        pos.1 = pos.1.saturating_sub(lex_len);
        TokenOf { ty, lexeme, pos }
    }

    /// shorthand constructor for tokens that can be represented by one char.
    /// Returns the constructed token on success (the position is computed as
    /// in `new_do_offset`, for a lexeme of one byte), and `Err(())` for a
    /// character that makes no token on its own.
    pub fn new_from_char(ch: char, pos: (usize, usize)) -> (r: Result<Self, ()>)
        ensures
            match r {
                Ok(t) => {
                    &&& single_char_kind(ch) == Some(t.ty@)
                    &&& t.lexeme@ == seq![ch]
                    &&& t.pos == (pos.0, sat_sub(pos.1 as int, 1) as usize)
                },
                Err(_) => single_char_kind(ch) is None,
            },
    {
        let ty = match ch {
            ';' => TokenKind::Semicolon,
            '(' => TokenKind::LeftParen,
            ')' => TokenKind::RightParen,
            '{' => TokenKind::LeftCurly,
            '}' => TokenKind::RightCurly,
            '-' => TokenKind::Minus,
            '+' => TokenKind::Plus,
            '*' => TokenKind::Star,
            '/' => TokenKind::Slash,
            '!' => TokenKind::Bang,
            '=' => TokenKind::Eq,
            ',' => TokenKind::Comma,
            '.' => TokenKind::Dot,
            _ => return Err(()),
        };
        let mut pos = pos;
        pos.1 = pos.1.saturating_sub(1);
        Ok(TokenOf { ty, lexeme: string_of_char(ch), pos })
    }

    /// checks if the parsed identifier matches a keyword and changes the type
    /// of the token if that is true. Otherwise leaves the token untouched.
    pub fn check_identifier_is_keyword(&mut self)
        ensures
            final(self).lexeme == old(self).lexeme,
            final(self).pos == old(self).pos,
            final(self).ty@ == (match old(self).ty {
                TokenKind::Identifier(_) => match keyword_kind(old(self).lexeme@) {
                    Some(k) => k,
                    None => old(self).ty@,
                },
                _ => old(self).ty@,
            }),
    {
        if let TokenKind::Identifier(_) = self.ty {
            match keyword_of(&self.lexeme) {
                Some(k) => {
                    self.ty = k;
                },
                None => {},
            }
        }
    }
}

/// A number for each kind of token, the same for all tokens of one kind
/// whatever text they carry.
pub open spec fn kind_code<S>(t: TokenKind<S>) -> int {
    match t {
        TokenKind::Semicolon => 0,
        TokenKind::LeftParen => 1,
        TokenKind::LeftCurly => 2,
        TokenKind::RightParen => 3,
        TokenKind::RightCurly => 4,
        TokenKind::Dot => 5,
        TokenKind::Comma => 6,
        TokenKind::Eq => 7,
        TokenKind::Plus => 8,
        TokenKind::Minus => 9,
        TokenKind::Star => 10,
        TokenKind::Slash => 11,
        TokenKind::EqEq => 12,
        TokenKind::Greater => 13,
        TokenKind::GreaterEq => 14,
        TokenKind::Less => 15,
        TokenKind::LessEq => 16,
        TokenKind::BangEq => 17,
        TokenKind::Bang => 18,
        TokenKind::Number(_) => 19,
        TokenKind::Identifier(_) => 20,
        TokenKind::StringLit(_) => 21,
        TokenKind::Var => 22,
        TokenKind::True => 23,
        TokenKind::False => 24,
        TokenKind::If => 25,
        TokenKind::Print => 26,
        TokenKind::While => 27,
        TokenKind::Nil => 28,
        TokenKind::And => 29,
        TokenKind::Or => 30,
        TokenKind::Else => 31,
        TokenKind::For => 32,
        TokenKind::Fun => 33,
        TokenKind::Return => 34,
        TokenKind::Class => 35,
        TokenKind::Super => 36,
        TokenKind::This => 37,
        TokenKind::Eof => 38,
    }
}

/// Whether two tokens are of the same kind, whatever text they carry.
pub open spec fn same_kind<S, T>(a: TokenKind<S>, b: TokenKind<T>) -> bool {
    kind_code(a) == kind_code(b)
}

/// Seeing a token kind through characters keeps its kind.
pub proof fn lemma_kind_code_view(t: TokenKind<String>)
    ensures
        kind_code(t@) == kind_code(t),
        (t@ is Eof) == (t is Eof),
{
}

impl TokenKind<String> {
    /// The number of this kind of token.
    pub fn code(&self) -> (c: u8)
        ensures
            c == kind_code(*self),
    {
        match self {
            TokenKind::Semicolon => 0,
            TokenKind::LeftParen => 1,
            TokenKind::LeftCurly => 2,
            TokenKind::RightParen => 3,
            TokenKind::RightCurly => 4,
            TokenKind::Dot => 5,
            TokenKind::Comma => 6,
            TokenKind::Eq => 7,
            TokenKind::Plus => 8,
            TokenKind::Minus => 9,
            TokenKind::Star => 10,
            TokenKind::Slash => 11,
            TokenKind::EqEq => 12,
            TokenKind::Greater => 13,
            TokenKind::GreaterEq => 14,
            TokenKind::Less => 15,
            TokenKind::LessEq => 16,
            TokenKind::BangEq => 17,
            TokenKind::Bang => 18,
            TokenKind::Number(_) => 19,
            TokenKind::Identifier(_) => 20,
            TokenKind::StringLit(_) => 21,
            TokenKind::Var => 22,
            TokenKind::True => 23,
            TokenKind::False => 24,
            TokenKind::If => 25,
            TokenKind::Print => 26,
            TokenKind::While => 27,
            TokenKind::Nil => 28,
            TokenKind::And => 29,
            TokenKind::Or => 30,
            TokenKind::Else => 31,
            TokenKind::For => 32,
            TokenKind::Fun => 33,
            TokenKind::Return => 34,
            TokenKind::Class => 35,
            TokenKind::Super => 36,
            TokenKind::This => 37,
            TokenKind::Eof => 38,
        }
    }

    /// A copy of this token kind.
    pub fn duplicate(&self) -> (r: Self)
        ensures
            r@ == self@,
    {
        match self {
            TokenKind::Semicolon => TokenKind::Semicolon,
            TokenKind::LeftParen => TokenKind::LeftParen,
            TokenKind::LeftCurly => TokenKind::LeftCurly,
            TokenKind::RightParen => TokenKind::RightParen,
            TokenKind::RightCurly => TokenKind::RightCurly,
            TokenKind::Dot => TokenKind::Dot,
            TokenKind::Comma => TokenKind::Comma,
            TokenKind::Eq => TokenKind::Eq,
            TokenKind::Plus => TokenKind::Plus,
            TokenKind::Minus => TokenKind::Minus,
            TokenKind::Star => TokenKind::Star,
            TokenKind::Slash => TokenKind::Slash,
            TokenKind::EqEq => TokenKind::EqEq,
            TokenKind::Greater => TokenKind::Greater,
            TokenKind::GreaterEq => TokenKind::GreaterEq,
            TokenKind::Less => TokenKind::Less,
            TokenKind::LessEq => TokenKind::LessEq,
            TokenKind::BangEq => TokenKind::BangEq,
            TokenKind::Bang => TokenKind::Bang,
            TokenKind::Number(s) => TokenKind::Number(s.clone()),
            TokenKind::Identifier(s) => TokenKind::Identifier(s.clone()),
            TokenKind::StringLit(s) => TokenKind::StringLit(s.clone()),
            TokenKind::Var => TokenKind::Var,
            TokenKind::True => TokenKind::True,
            TokenKind::False => TokenKind::False,
            TokenKind::If => TokenKind::If,
            TokenKind::Print => TokenKind::Print,
            TokenKind::While => TokenKind::While,
            TokenKind::Nil => TokenKind::Nil,
            TokenKind::And => TokenKind::And,
            TokenKind::Or => TokenKind::Or,
            TokenKind::Else => TokenKind::Else,
            TokenKind::For => TokenKind::For,
            TokenKind::Fun => TokenKind::Fun,
            TokenKind::Return => TokenKind::Return,
            TokenKind::Class => TokenKind::Class,
            TokenKind::Super => TokenKind::Super,
            TokenKind::This => TokenKind::This,
            TokenKind::Eof => TokenKind::Eof,
        }
    }
}

impl TokenOf<String> {
    /// A copy of this token.
    pub fn duplicate(&self) -> (r: Self)
        ensures
            r@ == self@,
    {
        TokenOf { ty: self.ty.duplicate(), lexeme: self.lexeme.clone(), pos: self.pos }
    }
}

} // verus!
