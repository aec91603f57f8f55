//! The scanner: turns the bytes of a Lox source text into tokens.
//!
//! What the scanner produces is stated by the specification function
//! [`scan`], which reads the input one token (or one skipped piece) at a
//! time, as [`scan_step`] describes.
use vstd::prelude::*;
use crate::errors::{ScanError, ScanErrorOf, SpecScanError};
use crate::text::push_char;
use crate::token::{keyword_kind, sat_sub, single_char_kind, utf8_len, word_kind, SpecToken, SpecTokenType, Token, TokenKind, TokenOf, TokenType};

verus! {

/// Whether `b` is an ASCII decimal digit.
pub open spec fn is_digit(b: u8) -> bool {
    '0' as u8 <= b <= '9' as u8
}

/// Whether `b` may start a word (identifier or keyword).
pub open spec fn is_alpha(b: u8) -> bool {
    ||| 'a' as u8 <= b <= 'z' as u8
    ||| 'A' as u8 <= b <= 'Z' as u8
    ||| b == '_' as u8
}

/// Whether `b` may continue a word.
pub open spec fn is_word_byte(b: u8) -> bool {
    is_alpha(b) || is_digit(b)
}

/// Whether `b` makes a one-character token whatever follows it.
pub open spec fn is_single(b: u8) -> bool {
    ||| b == ';' as u8
    ||| b == '(' as u8
    ||| b == ')' as u8
    ||| b == '{' as u8
    ||| b == '}' as u8
    ||| b == '-' as u8
    ||| b == '+' as u8
    ||| b == '*' as u8
    ||| b == '.' as u8
    ||| b == ',' as u8
}

/// Each byte read as the character with the same code.
pub open spec fn chars_of(s: Seq<u8>) -> Seq<char> {
    s.map_values(|b: u8| b as char)
}

/// Whether a number goes on at index `j`: a digit, or a point followed by a
/// digit.
pub open spec fn number_goes_on(s: Seq<u8>, j: int) -> bool {
    0 <= j < s.len() && (is_digit(s[j]) || (s[j] == '.' as u8 && j + 1 < s.len() && is_digit(
        s[j + 1],
    )))
}

/// How many points `s` holds.
pub open spec fn point_count(s: Seq<u8>) -> nat
    decreases s.len(),
{
    if s.len() == 0 {
        0
    } else {
        point_count(s.drop_last()) + if s.last() == '.' as u8 {
            1nat
        } else {
            0nat
        }
    }
}

/// The errors of a vector, each seen through its view.
pub open spec fn error_views(v: Seq<ScanError>) -> Seq<SpecScanError> {
    v.map_values(|e: ScanError| e@)
}

/// The index at which a number that goes on at `j` ends.
pub open spec fn number_end(s: Seq<u8>, j: int) -> int
    decreases s.len() - j,
{
    if number_goes_on(s, j) {
        number_end(s, j + 1)
    } else {
        j
    }
}

/// The index at which a word that goes on at `j` ends.
pub open spec fn word_end(s: Seq<u8>, j: int) -> int
    decreases s.len() - j,
{
    if 0 <= j < s.len() && is_word_byte(s[j]) {
        word_end(s, j + 1)
    } else {
        j
    }
}

/// The index of the first line break at or after `j`, or the length of `s`
/// where there is none.
pub open spec fn line_end(s: Seq<u8>, j: int) -> int
    decreases s.len() - j,
{
    if 0 <= j < s.len() && s[j] != '\n' as u8 {
        line_end(s, j + 1)
    } else {
        j
    }
}

/// The index of the first double quote at or after `j`, or the length of
/// `s` where there is none.
pub open spec fn quote_at(s: Seq<u8>, j: int) -> int
    decreases s.len() - j,
{
    if 0 <= j < s.len() && s[j] != '"' as u8 {
        quote_at(s, j + 1)
    } else {
        j
    }
}

/// The token of kind `ty` with text `lexeme` whose last character stands
/// just before column `end_col` of line `line`: its column is `end_col` less
/// the byte length of the text.
pub open spec fn token_ending_at(ty: SpecTokenType, lexeme: Seq<char>, line: int, end_col: int) -> SpecToken {
    TokenOf { ty, lexeme, pos: (line as usize, sat_sub(end_col, utf8_len(lexeme)) as usize) }
}

/// One step of the scanner: how many bytes it reads, the position after
/// them, and the token or error that they make, if any.
pub struct ScanStep {
    pub len: int,
    pub line: int,
    pub col: int,
    pub token: Option<SpecToken>,
    pub error: Option<SpecScanError>,
}

/// A step that reads `len` bytes on the same line and makes `token`.
pub open spec fn step_on_line(len: int, line: int, col: int, token: Option<SpecToken>) -> ScanStep {
    ScanStep { len, line, col: col + len, token, error: None }
}

/// An operator that is `short` alone, or `long` when followed by `=`.
pub open spec fn op_step(
    s: Seq<u8>,
    line: int,
    col: int,
    short: SpecTokenType,
    short_text: Seq<char>,
    long: SpecTokenType,
    long_text: Seq<char>,
) -> ScanStep {
    if s.len() > 1 && s[1] == '=' as u8 {
        step_on_line(2, line, col, Some(token_ending_at(long, long_text, line, col + 2)))
    } else {
        step_on_line(1, line, col, Some(token_ending_at(short, short_text, line, col + 1)))
    }
}

/// What the scanner does with the non-empty input `s` at (`line`, `col`).
pub open spec fn scan_step(s: Seq<u8>, line: int, col: int) -> ScanStep {
    let b = s[0];
    let c = b as char;
    if b == ' ' as u8 || b == '\t' as u8 {
        step_on_line(1, line, col, None)
    } else if b == '\n' as u8 {
        ScanStep { len: 1, line: line + 1, col: 0, token: None, error: None }
    } else if is_single(b) {
        step_on_line(
            1,
            line,
            col,
            Some(TokenOf { ty: single_char_kind(c).unwrap(), lexeme: seq![c], pos: (line as usize, col as usize) }),
        )
    } else if b == '>' as u8 {
        op_step(s, line, col, TokenKind::Greater, seq!['>'], TokenKind::GreaterEq, seq!['>', '='])
    } else if b == '<' as u8 {
        op_step(s, line, col, TokenKind::Less, seq!['<'], TokenKind::LessEq, seq!['<', '='])
    } else if b == '=' as u8 {
        op_step(s, line, col, TokenKind::Eq, seq!['='], TokenKind::EqEq, seq!['=', '='])
    } else if b == '!' as u8 {
        op_step(s, line, col, TokenKind::Bang, seq!['!'], TokenKind::BangEq, seq!['!', '='])
    } else if b == '/' as u8 {
        if s.len() > 1 && s[1] == '/' as u8 {
            // a comment runs up to the line break, which it leaves
            step_on_line(line_end(s, 2), line, col, None)
        } else {
            step_on_line(1, line, col, Some(token_ending_at(TokenKind::Slash, seq!['/'], line, col + 1)))
        }
    } else if b == '"' as u8 {
        let q = quote_at(s, 1);
        if q < s.len() {
            let text = chars_of(s.subrange(1, q));
            step_on_line(q + 1, line, col, Some(token_ending_at(TokenKind::StringLit(text), text, line, col + q)))
        } else {
            ScanStep {
                len: s.len() as int,
                line,
                col: col + s.len(),
                token: None,
                error: Some(ScanErrorOf::UnterminatedStringLiteral { pos: (line as usize, (col + s.len()) as usize) }),
            }
        }
    } else if is_digit(b) {
        let e = number_end(s, 1);
        let text = chars_of(s.subrange(0, e));
        if point_count(s.subrange(0, e)) <= 1 {
            step_on_line(e, line, col, Some(token_ending_at(TokenKind::Number(text), text, line, col + e)))
        } else {
            // digits with two points or more spell no number
            ScanStep {
                len: e,
                line,
                col: col + e,
                token: None,
                error: Some(ScanErrorOf::InvalidNumber { lexeme: text, pos: (line as usize, (col + e) as usize) }),
            }
        }
    } else if is_alpha(b) {
        let e = word_end(s, 1);
        let text = chars_of(s.subrange(0, e));
        step_on_line(e, line, col, Some(token_ending_at(word_kind(text), text, line, col + e)))
    } else {
        ScanStep {
            len: 1,
            line,
            col: col + 1,
            token: None,
            error: Some(ScanErrorOf::UnexpectedCharacter { ch: c, pos: (line as usize, (col + 1) as usize) }),
        }
    }
}

/// What scanning a whole input gives: its tokens (without the end marker),
/// its errors, and the position reached at its end.
pub struct ScanOutcome {
    pub tokens: Seq<SpecToken>,
    pub errors: Seq<SpecScanError>,
    pub line: int,
    pub col: int,
}

/// The one-element sequence of what `o` holds, or the empty one.
pub open spec fn seq_of<T>(o: Option<T>) -> Seq<T> {
    match o {
        Some(x) => seq![x],
        None => seq![],
    }
}

/// What the scanner makes of the input `s`, read from (`line`, `col`).
pub open spec fn scan(s: Seq<u8>, line: int, col: int) -> ScanOutcome
    decreases s.len(),
{
    if s.len() == 0 {
        ScanOutcome { tokens: seq![], errors: seq![], line, col }
    } else {
        let st = scan_step(s, line, col);
        if 1 <= st.len <= s.len() {
            let rest = scan(s.skip(st.len), st.line, st.col);
            ScanOutcome {
                tokens: seq_of(st.token) + rest.tokens,
                errors: seq_of(st.error) + rest.errors,
                line: rest.line,
                col: rest.col,
            }
        } else {
            ScanOutcome { tokens: seq![], errors: seq![], line, col }
        }
    }
}

/// The tokens of a vector, each seen through its view.
pub open spec fn token_views(v: Seq<Token>) -> Seq<SpecToken> {
    v.map_values(|t: Token| t@)
}

/// The token that marks the end of the input, at (`line`, `col`).
pub open spec fn eof_token(line: int, col: int) -> SpecToken {
    TokenOf { ty: TokenKind::Eof, lexeme: seq![], pos: (line as usize, col as usize) }
}

proof fn lemma_number_end(s: Seq<u8>, j: int)
    requires
        0 <= j <= s.len(),
    ensures
        j <= number_end(s, j) <= s.len(),
    decreases s.len() - j,
{
    if number_goes_on(s, j) {
        lemma_number_end(s, j + 1);
    }
}

proof fn lemma_word_end(s: Seq<u8>, j: int)
    requires
        0 <= j <= s.len(),
    ensures
        j <= word_end(s, j) <= s.len(),
    decreases s.len() - j,
{
    if 0 <= j < s.len() && is_word_byte(s[j]) {
        lemma_word_end(s, j + 1);
    }
}

proof fn lemma_line_end(s: Seq<u8>, j: int)
    requires
        0 <= j <= s.len(),
    ensures
        j <= line_end(s, j) <= s.len(),
    decreases s.len() - j,
{
    if 0 <= j < s.len() && s[j] != '\n' as u8 {
        lemma_line_end(s, j + 1);
    }
}

proof fn lemma_quote_at(s: Seq<u8>, j: int)
    requires
        0 <= j <= s.len(),
    ensures
        j <= quote_at(s, j) <= s.len(),
    decreases s.len() - j,
{
    if 0 <= j < s.len() && s[j] != '"' as u8 {
        lemma_quote_at(s, j + 1);
    }
}

/// Each step reads at least one byte and no more than there are.
proof fn lemma_step_len(s: Seq<u8>, line: int, col: int)
    requires
        s.len() > 0,
    ensures
        1 <= scan_step(s, line, col).len <= s.len(),
        scan_step(s, line, col).line == line || scan_step(s, line, col).line == line + 1,
        scan_step(s, line, col).line == line + 1 ==> scan_step(s, line, col).col == 0
            && scan_step(s, line, col).len == 1,
        scan_step(s, line, col).line == line ==> scan_step(s, line, col).col == col + scan_step(
            s,
            line,
            col,
        ).len,
{
    lemma_scan_ends(s);
}

proof fn lemma_scan_ends(s: Seq<u8>)
    requires
        s.len() > 0,
    ensures
        1 <= number_end(s, 1) <= s.len(),
        1 <= word_end(s, 1) <= s.len(),
        1 <= quote_at(s, 1) <= s.len(),
        s.len() > 1 ==> 2 <= line_end(s, 2) <= s.len(),
{
    lemma_number_end(s, 1);
    lemma_word_end(s, 1);
    lemma_quote_at(s, 1);
    if s.len() > 1 {
        lemma_line_end(s, 2);
    }
}

/// Law: a line break makes no token and no error, and scanning an input
/// that starts with one is scanning the rest of it from the start of the
/// next line.
pub proof fn law_line_breaks(s: Seq<u8>, line: int, col: int)
    requires
        s.len() > 0,
        s[0] == '\n' as u8,
    ensures
        scan(s, line, col) == scan(s.skip(1), line + 1, 0),
{
}

/// Law: a tab is blank space, as a space is: it makes no token and no
/// error, and scanning an input that starts with one is scanning the rest
/// of it one column further on the same line.
pub proof fn law_tabs_and_spaces_are_blank(s: Seq<u8>, line: int, col: int)
    requires
        s.len() > 0,
        s[0] == '\t' as u8 || s[0] == ' ' as u8,
    ensures
        scan_step(s, line, col) == (ScanStep { len: 1, line, col: col + 1, token: None, error: None }),
        scan(s, line, col) == scan(s.skip(1), line, col + 1),
{
}

/// Law: scanning reports an invalid number exactly where it reads digits
/// with two points or more between them (such as `1.2.3`), which spell no
/// number; no other error carries a text.
pub proof fn law_scan_invalid_numbers(s: Seq<u8>, line: int, col: int)
    ensures
        forall|i: int|
            0 <= i < scan(s, line, col).errors.len() ==> match #[trigger] scan(
                s,
                line,
                col,
            ).errors[i] {
                ScanErrorOf::InvalidNumber { lexeme, pos } => chars_point_count(lexeme) >= 2,
                _ => true,
            },
    decreases s.len(),
{
    if s.len() > 0 {
        let st = scan_step(s, line, col);
        lemma_step_len(s, line, col);
        law_scan_invalid_numbers(s.skip(st.len), st.line, st.col);
        let r = scan(s.skip(st.len), st.line, st.col);
        assert(scan(s, line, col).errors == seq_of(st.error) + r.errors);
        if is_digit(s[0]) {
            let e = number_end(s, 1);
            lemma_number_end(s, 1);
            lemma_point_count_chars(s.subrange(0, e));
        }
        assert forall|i: int| 0 <= i < scan(s, line, col).errors.len() implies match #[trigger] scan(
            s,
            line,
            col,
        ).errors[i] {
            ScanErrorOf::InvalidNumber { lexeme, pos } => chars_point_count(lexeme) >= 2,
            _ => true,
        } by {
            if i >= seq_of(st.error).len() {
                assert(scan(s, line, col).errors[i] == r.errors[i - seq_of(st.error).len()]);
            }
        }
    }
}

/// How many points the text `s` holds.
pub open spec fn chars_point_count(s: Seq<char>) -> nat
    decreases s.len(),
{
    if s.len() == 0 {
        0
    } else {
        chars_point_count(s.drop_last()) + if s.last() == '.' {
            1nat
        } else {
            0nat
        }
    }
}

proof fn lemma_point_count_chars(s: Seq<u8>)
    ensures
        chars_point_count(chars_of(s)) == point_count(s),
    decreases s.len(),
{
    if s.len() > 0 {
        assert(chars_of(s).drop_last() =~= chars_of(s.drop_last()));
        lemma_point_count_chars(s.drop_last());
    }
}

/// What a token kind that scanning makes may be: never the end marker, and
/// an identifier only for a word that is no keyword.
pub open spec fn scanned_kind(t: SpecTokenType) -> bool {
    &&& !(t is Eof)
    &&& t matches TokenKind::Identifier(w) ==> keyword_kind(w) is None
}

/// Law: no token that scanning reads is the end marker, and no identifier
/// it reads spells a keyword (keywords get their own kinds).
pub proof fn law_scanned_kinds(s: Seq<u8>, line: int, col: int)
    ensures
        forall|i: int|
            0 <= i < scan(s, line, col).tokens.len() ==> scanned_kind(
                (#[trigger] scan(s, line, col).tokens[i]).ty,
            ),
    decreases s.len(),
{
    if s.len() > 0 {
        let st = scan_step(s, line, col);
        lemma_step_len(s, line, col);
        law_scanned_kinds(s.skip(st.len), st.line, st.col);
        let r = scan(s.skip(st.len), st.line, st.col);
        let all = scan(s, line, col).tokens;
        assert(all == seq_of(st.token) + r.tokens);
        assert forall|i: int| 0 <= i < all.len() implies scanned_kind((#[trigger] all[i]).ty) by {
            if i >= seq_of(st.token).len() {
                assert(all[i] == r.tokens[i - seq_of(st.token).len()]);
            } else {
                let b = s[0];
                if is_single(b) {
                    assert(single_char_kind(b as char) is Some);
                }
            }
        }
    }
}

/// Law: the tokens that a scanner holds after `parse`, where it held none
/// before, are a list the parser can read: not empty, and ending with the
/// end marker, which is the only end marker in it.
pub proof fn law_scanned_tokens_parsable(tokens: Seq<Token>, s: Seq<u8>, line: int, col: int)
    requires
        token_views(tokens) == scan(s, line, col).tokens + seq![
            eof_token(scan(s, line, col).line, scan(s, line, col).col),
        ],
    ensures
        crate::parser::parsable(tokens),
        forall|i: int| 0 <= i < tokens.len() - 1 ==> !((#[trigger] tokens[i]).ty is Eof),
{
    let out = scan(s, line, col);
    law_scanned_kinds(s, line, col);
    assert(token_views(tokens).len() == tokens.len());
    assert(token_views(tokens)[tokens.len() - 1] == tokens[tokens.len() - 1]@);
    assert forall|i: int| 0 <= i < tokens.len() - 1 implies !((#[trigger] tokens[i]).ty is Eof) by {
        assert(token_views(tokens)[i] == tokens[i]@);
        assert(token_views(tokens)[i] == out.tokens[i]);
        assert(scanned_kind(out.tokens[i].ty));
    }
}

/// Scans the provided lox code and creates a [`Token`] vec.
pub struct Scanner<'i> {
    /// the raw input given to the scanner
    input: &'i [u8],
    /// how much of the input has been read
    cursor: usize,
    /// the (line, column) position we are currently at
    pos: (usize, usize),
    /// the list of parsed tokens
    pub tokens: Vec<Token>,
}

impl<'i> Scanner<'i> {
    /// The part of the input not yet read.
    pub closed spec fn rest(&self) -> Seq<u8> {
        self.input@.skip(self.cursor as int)
    }

    /// The tokens made so far.
    pub closed spec fn token_list(&self) -> Seq<Token> {
        self.tokens@
    }

    /// The line the scanner has reached.
    pub closed spec fn line(&self) -> int {
        self.pos.0 as int
    }

    /// The column the scanner has reached.
    pub closed spec fn col(&self) -> int {
        self.pos.1 as int
    }

    /// The scanner's state is consistent: the cursor lies within the input,
    /// and no position that scanning the rest can reach overflows.
    pub closed spec fn wf(&self) -> bool {
        &&& self.input@.len() <= usize::MAX
        &&& self.cursor <= self.input@.len()
        &&& self.pos.0 + self.pos.1 + (self.input@.len() - self.cursor) <= usize::MAX
    }

    pub fn new(input: &'i [u8]) -> (r: Self)
        ensures
            r.wf(),
            r.rest() == input@,
            r.line() == 0,
            r.col() == 0,
            r.token_list() == Seq::<Token>::empty(),
    {
        let n = input.len();
        let r = Scanner { input, cursor: 0, pos: (0, 0), tokens: Vec::new() };
        assert(r.rest() =~= input@);
        r
    }

    /// The tokens made so far.
    pub fn tokens_ref(&self) -> (r: &Vec<Token>)
        ensures
            r@ == self.token_list(),
    {
        &self.tokens
    }

    /// Scans the rest of the input, appends its tokens and then an end
    /// marker to `tokens`, and returns the errors found, if any.
    pub fn parse(&mut self) -> (r: Result<(), Vec<ScanError>>)
        requires
            old(self).wf(),
        ensures
            final(self).wf(),
            final(self).rest() == Seq::<u8>::empty(),
            ({
                let out = scan(old(self).rest(), old(self).line(), old(self).col());
                &&& token_views(final(self).token_list()) == token_views(old(self).token_list())
                    + out.tokens + seq![eof_token(out.line, out.col)]
                &&& final(self).line() == out.line
                &&& final(self).col() == out.col
                &&& match r {
                    Ok(()) => out.errors.len() == 0,
                    Err(errors) => error_views(errors@) == out.errors && out.errors.len() > 0,
                }
            }),
    {
        let ghost out = scan(self.rest(), self.line(), self.col());
        let ghost t0 = token_views(self.tokens@);
        let mut errors: Vec<ScanError> = Vec::new();
        while self.cursor < self.input.len()
            invariant
                self.wf(),
                token_views(self.tokens@) + scan(self.rest(), self.line(), self.col()).tokens == t0
                    + out.tokens,
                error_views(errors@) + scan(self.rest(), self.line(), self.col()).errors == out.errors,
                scan(self.rest(), self.line(), self.col()).line == out.line,
                scan(self.rest(), self.line(), self.col()).col == out.col,
            decreases self.input.len() - self.cursor,
        {
            let ghost s = self.rest();
            let ghost (l, c) = (self.line(), self.col());
            let ghost tv = token_views(self.tokens@);
            let ghost ev = error_views(errors@);
            proof {
                lemma_step_len(s, l, c);
            }
            self.scan_one(&mut errors);
            proof {
                let st = scan_step(s, l, c);
                assert(self.rest() =~= s.skip(st.len));
                let r = scan(s.skip(st.len), st.line, st.col);
                assert(scan(s, l, c).tokens == seq_of(st.token) + r.tokens);
                assert(token_views(self.tokens@) + r.tokens =~= tv + (seq_of(st.token) + r.tokens));
                assert(error_views(errors@) + r.errors =~= ev + (seq_of(st.error) + r.errors));
            }
        }
        proof {
            assert(self.rest() =~= Seq::<u8>::empty());
        }
        let eof = TokenOf { ty: TokenKind::Eof, lexeme: String::new(), pos: self.pos };
        let ghost before = self.tokens@;
        self.tokens.push(eof);
        proof {
            assert(token_views(self.tokens@) =~= token_views(before).push(eof@));
        }
        if errors.len() == 0 {
            Ok(())
        } else {
            Err(errors)
        }
    }

    /// Reads `n` more bytes on the current line.
    fn advance(&mut self, n: usize)
        requires
            old(self).wf(),
            old(self).cursor + n <= old(self).input@.len(),
        ensures
            final(self).wf(),
            final(self).input == old(self).input,
            final(self).tokens == old(self).tokens,
            final(self).cursor == old(self).cursor + n,
            final(self).pos == (old(self).pos.0, (old(self).pos.1 + n) as usize),
    {
        self.cursor = self.cursor + n;
        self.pos.1 = self.pos.1 + n;
    }

    /// The text of the input bytes from `from` to `to`, each read as a
    /// character.
    fn text(&self, from: usize, to: usize) -> (r: String)
        requires
            from <= to <= self.input@.len(),
        ensures
            r@ == chars_of(self.input@.subrange(from as int, to as int)),
    {
        let mut r = String::new();
        let mut i = from;
        while i < to
            invariant
                from <= i <= to <= self.input@.len(),
                r@ == chars_of(self.input@.subrange(from as int, i as int)),
            decreases to - i,
        {
            push_char(&mut r, self.input[i] as char);
            assert(chars_of(self.input@.subrange(from as int, i + 1)) =~= chars_of(
                self.input@.subrange(from as int, i as int),
            ).push(self.input@[i as int] as char));
            i = i + 1;
        }
        r
    }

    /// How many points the input bytes from `from` to `to` hold.
    fn count_points(&self, from: usize, to: usize) -> (r: usize)
        requires
            from <= to <= self.input@.len(),
        ensures
            r == point_count(self.input@.subrange(from as int, to as int)),
    {
        let mut r: usize = 0;
        let mut i = from;
        while i < to
            invariant
                from <= i <= to <= self.input@.len(),
                r == point_count(self.input@.subrange(from as int, i as int)),
                r <= i - from,
            decreases to - i,
        {
            assert(self.input@.subrange(from as int, i + 1).drop_last() =~= self.input@.subrange(
                from as int,
                i as int,
            ));
            if self.input[i] == ('.' as u8) {
                r = r + 1;
            }
            i = i + 1;
        }
        r
    }

    /// Where the number that goes on at index `j` of the rest ends, as an
    /// index of the input.
    fn find_number_end(&self, j: usize) -> (e: usize)
        requires
            self.wf(),
            self.cursor + j <= self.input@.len(),
        ensures
            e == self.cursor + number_end(self.rest(), j as int),
    {
        let ghost s = self.rest();
        let mut k = self.cursor + j;
        while k < self.input.len() && (is_digit_byte(self.input[k]) || (self.input[k] == ('.' as u8) && k
            + 1 < self.input.len() && is_digit_byte(self.input[k + 1])))
            invariant
                self.cursor <= k <= self.input@.len(),
                s == self.input@.skip(self.cursor as int),
                number_end(s, (k - self.cursor) as int) == number_end(s, j as int),
            decreases self.input.len() - k,
        {
            k = k + 1;
        }
        k
    }

    /// Where the word that goes on at index `j` of the rest ends, as an
    /// index of the input.
    fn find_word_end(&self, j: usize) -> (e: usize)
        requires
            self.wf(),
            self.cursor + j <= self.input@.len(),
        ensures
            e == self.cursor + word_end(self.rest(), j as int),
    {
        let ghost s = self.rest();
        let mut k = self.cursor + j;
        while k < self.input.len() && (is_alpha_byte(self.input[k]) || is_digit_byte(self.input[k]))
            invariant
                self.cursor <= k <= self.input@.len(),
                s == self.input@.skip(self.cursor as int),
                word_end(s, (k - self.cursor) as int) == word_end(s, j as int),
            decreases self.input.len() - k,
        {
            k = k + 1;
        }
        k
    }

    /// Where the line that goes on at index `j` of the rest ends, as an
    /// index of the input.
    fn find_line_end(&self, j: usize) -> (e: usize)
        requires
            self.wf(),
            self.cursor + j <= self.input@.len(),
        ensures
            e == self.cursor + line_end(self.rest(), j as int),
    {
        let ghost s = self.rest();
        let mut k = self.cursor + j;
        while k < self.input.len() && self.input[k] != ('\n' as u8)
            invariant
                self.cursor <= k <= self.input@.len(),
                s == self.input@.skip(self.cursor as int),
                line_end(s, (k - self.cursor) as int) == line_end(s, j as int),
            decreases self.input.len() - k,
        {
            k = k + 1;
        }
        k
    }

    /// The first double quote at or after index `j` of the rest, as an index
    /// of the input.
    fn find_quote(&self, j: usize) -> (e: usize)
        requires
            self.wf(),
            self.cursor + j <= self.input@.len(),
        ensures
            e == self.cursor + quote_at(self.rest(), j as int),
    {
        let ghost s = self.rest();
        let mut k = self.cursor + j;
        while k < self.input.len() && self.input[k] != ('"' as u8)
            invariant
                self.cursor <= k <= self.input@.len(),
                s == self.input@.skip(self.cursor as int),
                quote_at(s, (k - self.cursor) as int) == quote_at(s, j as int),
            decreases self.input.len() - k,
        {
            k = k + 1;
        }
        k
    }

    /// Reads a two-character operator where the next byte is `=`, else the
    /// one-character one.
    fn scan_op(&mut self, short: TokenType, short_text: &str, long: TokenType, long_text: &str)
        requires
            old(self).wf(),
            old(self).cursor < old(self).input@.len(),
        ensures
            ({
                let st = op_step(
                    old(self).rest(),
                    old(self).line(),
                    old(self).col(),
                    short@,
                    short_text@,
                    long@,
                    long_text@,
                );
                &&& final(self).wf()
                &&& final(self).input == old(self).input
                &&& final(self).cursor == old(self).cursor + st.len
                &&& final(self).line() == st.line
                &&& final(self).col() == st.col
                &&& token_views(final(self).tokens@) == token_views(old(self).tokens@) + seq_of(
                    st.token,
                )
            }),
    {
        let ghost s = self.rest();
        if self.cursor + 1 < self.input.len() && self.input[self.cursor + 1] == ('=' as u8) {
            self.advance(2);
            let t = TokenOf::new_do_offset(long, String::from_str(long_text), self.pos);
            self.tokens.push(t);
        } else {
            self.advance(1);
            let t = TokenOf::new_do_offset(short, String::from_str(short_text), self.pos);
            self.tokens.push(t);
        }
        proof {
            assert(token_views(self.tokens@) =~= token_views(old(self).tokens@).push(self.tokens@.last()@));
        }
    }

    /// Performs one step of the scanner, as `scan_step` states it.
    #[verifier::spinoff_prover]
    fn scan_one(&mut self, errors: &mut Vec<ScanError>)
        requires
            old(self).wf(),
            old(self).cursor < old(self).input@.len(),
        ensures
            ({
                let st = scan_step(old(self).rest(), old(self).line(), old(self).col());
                &&& final(self).wf()
                &&& final(self).input == old(self).input
                &&& final(self).cursor == old(self).cursor + st.len
                &&& final(self).line() == st.line
                &&& final(self).col() == st.col
                &&& token_views(final(self).tokens@) == token_views(old(self).tokens@) + seq_of(
                    st.token,
                )
                &&& error_views(final(errors)@) == error_views(old(errors)@) + seq_of(st.error)
            }),
    {
        let ghost s = self.rest();
        let ghost (l, c) = (self.line(), self.col());
        proof {
            lemma_step_len(s, l, c);
            lemma_scan_ends(s);
            assert(s[0] == self.input@[self.cursor as int]);
            assert(s.len() > 1 ==> s[1] == self.input@[self.cursor + 1]);
        }
        let b = self.input[self.cursor];
        let ch = b as char;
        if b == (' ' as u8) || b == ('\t' as u8) {
            self.advance(1);
        } else if b == ('\n' as u8) {
            self.cursor = self.cursor + 1;
            self.pos.0 = self.pos.0 + 1;
            self.pos.1 = 0;
        } else if b == (';' as u8) || b == ('(' as u8) || b == (')' as u8) || b == ('{' as u8) || b == ('}' as u8) || b == ('-' as u8) || b
            == ('+' as u8) || b == ('*' as u8) || b == ('.' as u8) || b == (',' as u8) {
            self.advance(1);
            match TokenOf::new_from_char(ch, self.pos) {
                Ok(t) => {
                    self.tokens.push(t);
                },
                Err(_) => {},
            }
        } else if b == ('>' as u8) {
            proof {
                reveal_strlit(">");
                reveal_strlit(">=");
                assert(">"@ =~= seq!['>']);
                assert(">="@ =~= seq!['>', '=']);
            }
            self.scan_op(TokenKind::Greater, ">", TokenKind::GreaterEq, ">=");
            return ;
        } else if b == ('<' as u8) {
            proof {
                reveal_strlit("<");
                reveal_strlit("<=");
                assert("<"@ =~= seq!['<']);
                assert("<="@ =~= seq!['<', '=']);
            }
            self.scan_op(TokenKind::Less, "<", TokenKind::LessEq, "<=");
            return ;
        } else if b == ('=' as u8) {
            proof {
                reveal_strlit("=");
                reveal_strlit("==");
                assert("="@ =~= seq!['=']);
                assert("=="@ =~= seq!['=', '=']);
            }
            self.scan_op(TokenKind::Eq, "=", TokenKind::EqEq, "==");
            return ;
        } else if b == ('!' as u8) {
            proof {
                reveal_strlit("!");
                reveal_strlit("!=");
                assert("!"@ =~= seq!['!']);
                assert("!="@ =~= seq!['!', '=']);
            }
            self.scan_op(TokenKind::Bang, "!", TokenKind::BangEq, "!=");
            return ;
        } else if b == ('/' as u8) {
            if self.cursor + 1 < self.input.len() && self.input[self.cursor + 1] == ('/' as u8) {
                let e = self.find_line_end(2);
                let n = e - self.cursor;
                self.advance(n);
            } else {
                proof {
                    reveal_strlit("/");
                    assert("/"@ =~= seq!['/']);
                }
                self.advance(1);
                let t = TokenOf::new_do_offset(TokenKind::Slash, String::from_str("/"), self.pos);
                self.tokens.push(t);
            }
        } else if b == ('"' as u8) {
            let q = self.find_quote(1);
            if q < self.input.len() {
                let text = self.text(self.cursor + 1, q);
                proof {
                    assert(text@ =~= chars_of(s.subrange(1, q - self.cursor)));
                }
                let n = q - self.cursor;
                self.advance(n);
                let t = TokenOf::new_do_offset(TokenKind::StringLit(text.clone()), text, self.pos);
                self.tokens.push(t);
                self.advance(1);
            } else {
                let n = self.input.len() - self.cursor;
                self.advance(n);
                errors.push(ScanError::UnterminatedStringLiteral { pos: self.pos });
            }
        } else if is_digit_byte(b) {
            let e = self.find_number_end(1);
            let text = self.text(self.cursor, e);
            proof {
                assert(text@ =~= chars_of(s.subrange(0, e - self.cursor)));
            }
            let points = self.count_points(self.cursor, e);
            proof {
                assert(self.input@.subrange(self.cursor as int, e as int) =~= s.subrange(0, e - self.cursor));
            }
            let n = e - self.cursor;
            self.advance(n);
            if points <= 1 {
                let t = TokenOf::new_do_offset(TokenKind::Number(text.clone()), text, self.pos);
                self.tokens.push(t);
            } else {
                errors.push(ScanErrorOf::InvalidNumber { lexeme: text, pos: self.pos });
            }
        } else if is_alpha_byte(b) {
            let e = self.find_word_end(1);
            let text = self.text(self.cursor, e);
            proof {
                assert(text@ =~= chars_of(s.subrange(0, e - self.cursor)));
            }
            let n = e - self.cursor;
            self.advance(n);
            let mut t = TokenOf::new_do_offset(TokenKind::Identifier(text.clone()), text, self.pos);
            t.check_identifier_is_keyword();
            self.tokens.push(t);
        } else {
            self.advance(1);
            errors.push(ScanError::UnexpectedCharacter { ch, pos: self.pos });
        }
        proof {
            assert(token_views(self.tokens@) =~= token_views(old(self).tokens@) + seq_of(
                scan_step(s, l, c).token,
            ));
            assert(error_views(errors@) =~= error_views(old(errors)@) + seq_of(scan_step(s, l, c).error));
        }
    }
}

/// Whether `b` is an ASCII decimal digit.
fn is_digit_byte(b: u8) -> (r: bool)
    ensures
        r == is_digit(b),
{
    ('0' as u8) <= b && b <= ('9' as u8)
}

/// Whether `b` may start a word.
fn is_alpha_byte(b: u8) -> (r: bool)
    ensures
        r == is_alpha(b),
{
    (('a' as u8) <= b && b <= ('z' as u8)) || (('A' as u8) <= b && b <= ('Z' as u8)) || b == ('_' as u8)
}

} // verus!
