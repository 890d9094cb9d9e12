//! Character-level tokenizer: turns source text into a stream of `Token`s.
//!
//! The executable scanner `KBuff` is specified against a mathematical model:
//! `spec_next_token` describes how one token is read from a character
//! sequence, and `spec_tokenize` folds it over the whole input.  Lexical
//! faults (an unterminated string, a letter in the middle of a number, an
//! unrecognized printable character) are reported as `LexError` values.

use vstd::prelude::*;
use vstd::string::StrSliceExecFns;

verus! {

// ---------------------------------------------------------------------------
// Character classes
// ---------------------------------------------------------------------------
/// Whitespace between tokens: space, tab and newline.
pub open spec fn is_ws_char(c: char) -> bool {
    c == ' ' || c == '\t' || c == '\n'
}

pub open spec fn is_digit_char(c: char) -> bool {
    '0' <= c && c <= '9'
}

pub open spec fn is_alpha_char(c: char) -> bool {
    ('a' <= c && c <= 'z') || ('A' <= c && c <= 'Z')
}

/// First character of an identifier: a letter or an underscore.
pub open spec fn is_ident_start_char(c: char) -> bool {
    is_alpha_char(c) || c == '_'
}

/// Later characters of an identifier: letters, digits and underscores.
pub open spec fn is_ident_char(c: char) -> bool {
    is_ident_start_char(c) || is_digit_char(c)
}

/// Operator characters that never pair with a following `=`.
pub open spec fn is_single_op_char(c: char) -> bool {
    c == '+' || c == '-' || c == '*'
}

/// Operator characters that form a two-character operator with `=`.
pub open spec fn is_pair_op_char(c: char) -> bool {
    c == '=' || c == '!' || c == '<' || c == '>'
}

/// A character a reader can see: the graphic ASCII range or anything beyond
/// ASCII.  An unrecognized printable character is a lexical fault, while an
/// unrecognized control character (a NUL sentinel and the like) merely ends
/// the stream.
pub open spec fn is_printable_char(c: char) -> bool {
    ('!' <= c && c <= '~') || c >= '\u{0080}'
}

fn is_ws_char_exec(c: char) -> (r: bool)
    ensures
        r == is_ws_char(c),
{
    c == ' ' || c == '\t' || c == '\n'
}

fn is_digit_char_exec(c: char) -> (r: bool)
    ensures
        r == is_digit_char(c),
{
    '0' <= c && c <= '9'
}

fn is_alpha_char_exec(c: char) -> (r: bool)
    ensures
        r == is_alpha_char(c),
{
    ('a' <= c && c <= 'z') || ('A' <= c && c <= 'Z')
}

fn is_ident_char_exec(c: char) -> (r: bool)
    ensures
        r == is_ident_char(c),
{
    is_alpha_char_exec(c) || c == '_' || is_digit_char_exec(c)
}

fn is_printable_char_exec(c: char) -> (r: bool)
    ensures
        r == is_printable_char(c),
{
    ('!' <= c && c <= '~') || c >= '\u{0080}'
}

/// The four arithmetic operator characters.
pub fn is_op(c: char) -> (r: bool)
    ensures
        r == (c == '+' || c == '-' || c == '*' || c == '/'),
{
    match c {
        '+' => true,
        '-' => true,
        '*' => true,
        '/' => true,
        _ => false,
    }
}

// ---------------------------------------------------------------------------
// Tokens
// ---------------------------------------------------------------------------
/// A lexical fault.  The tokenizer reports it as a value instead of aborting,
/// so a caller may drop the offending input and go on.
#[derive(Debug, PartialEq, Eq, Clone, Copy)]
pub enum LexError {
    /// The input ended, or a NUL sentinel appeared, before a closing quote.
    UnterminatedString,
    /// A letter immediately followed the digits of a number.
    MalformedNumber,
    /// A printable character that starts no token.
    UnrecognizedChar(char),
}

/// The kind of a token, with its text payload where one exists.
#[derive(Debug, PartialEq, Eq)]
pub enum TokenType {
    Def,
    Extern,
    Delimiter,
    LParenthesis,
    RParenthesis,
    LBracket,
    RBracket,
    Comma,
    Comment { lexeme: String },
    Ident { lexeme: String },
    String { lexeme: String },
    Numeric { lexeme: String },
    Operator { lexeme: String },
    EOF,
}

/// The mathematical value of a `TokenType`: the same shape over `Seq<char>`.
pub enum TokenTypeV {
    Def,
    Extern,
    Delimiter,
    LParenthesis,
    RParenthesis,
    LBracket,
    RBracket,
    Comma,
    Comment { lexeme: Seq<char> },
    Ident { lexeme: Seq<char> },
    String { lexeme: Seq<char> },
    Numeric { lexeme: Seq<char> },
    Operator { lexeme: Seq<char> },
    EOF,
}

impl View for TokenType {
    type V = TokenTypeV;

    open spec fn view(&self) -> TokenTypeV {
        match self {
            TokenType::Def => TokenTypeV::Def,
            TokenType::Extern => TokenTypeV::Extern,
            TokenType::Delimiter => TokenTypeV::Delimiter,
            TokenType::LParenthesis => TokenTypeV::LParenthesis,
            TokenType::RParenthesis => TokenTypeV::RParenthesis,
            TokenType::LBracket => TokenTypeV::LBracket,
            TokenType::RBracket => TokenTypeV::RBracket,
            TokenType::Comma => TokenTypeV::Comma,
            TokenType::Comment { lexeme } => TokenTypeV::Comment { lexeme: lexeme@ },
            TokenType::Ident { lexeme } => TokenTypeV::Ident { lexeme: lexeme@ },
            TokenType::String { lexeme } => TokenTypeV::String { lexeme: lexeme@ },
            TokenType::Numeric { lexeme } => TokenTypeV::Numeric { lexeme: lexeme@ },
            TokenType::Operator { lexeme } => TokenTypeV::Operator { lexeme: lexeme@ },
            TokenType::EOF => TokenTypeV::EOF,
        }
    }
}

/// A token together with the line it came from.  The tokenizer itself does
/// not count lines yet and always writes line 0.
#[derive(Debug, PartialEq, Eq)]
pub struct Token {
    pub token_t: TokenType,
    pub line: usize,
}

impl View for Token {
    type V = TokenTypeV;

    open spec fn view(&self) -> TokenTypeV {
        self.token_t@
    }
}

impl Clone for TokenType {
    /// A clone carries the same kind and the same lexeme text.
    fn clone(&self) -> (r: Self)
        ensures
            r == *self,
    {
        match self {
            TokenType::Def => TokenType::Def,
            TokenType::Extern => TokenType::Extern,
            TokenType::Delimiter => TokenType::Delimiter,
            TokenType::LParenthesis => TokenType::LParenthesis,
            TokenType::RParenthesis => TokenType::RParenthesis,
            TokenType::LBracket => TokenType::LBracket,
            TokenType::RBracket => TokenType::RBracket,
            TokenType::Comma => TokenType::Comma,
            TokenType::Comment { lexeme } => TokenType::Comment { lexeme: lexeme.clone() },
            TokenType::Ident { lexeme } => TokenType::Ident { lexeme: lexeme.clone() },
            TokenType::String { lexeme } => TokenType::String { lexeme: lexeme.clone() },
            TokenType::Numeric { lexeme } => TokenType::Numeric { lexeme: lexeme.clone() },
            TokenType::Operator { lexeme } => TokenType::Operator { lexeme: lexeme.clone() },
            TokenType::EOF => TokenType::EOF,
        }
    }
}

impl Clone for Token {
    /// A clone is the same token.
    fn clone(&self) -> (r: Self)
        ensures
            r == *self,
    {
        Token { token_t: self.token_t.clone(), line: self.line }
    }
}

impl Token {
    pub fn new(token_t: TokenType, line: usize) -> (r: Token)
        ensures
            r == (Token { token_t, line }),
    {
        Token { token_t, line }
    }
}

/// The kinds of a sequence of tokens.
pub open spec fn token_views(toks: Seq<Token>) -> Seq<TokenTypeV> {
    toks.map_values(|t: Token| t@)
}

// ---------------------------------------------------------------------------
// The tokenizer model
// ---------------------------------------------------------------------------
/// What reading one token from a character sequence yields: the end of the
/// stream, one token and the remaining characters, or a lexical fault.
pub enum LexStep {
    Done(Seq<char>),
    Tok(TokenTypeV, Seq<char>),
    Fail(LexError),
}

/// An identifier scan: the longest prefix of identifier characters, and the
/// rest.
pub open spec fn scan_ident(s: Seq<char>) -> (Seq<char>, Seq<char>)
    decreases s.len(),
{
    if s.len() == 0 || !is_ident_char(s[0]) {
        (Seq::empty(), s)
    } else {
        let (lex, rest) = scan_ident(s.skip(1));
        (seq![s[0]] + lex, rest)
    }
}

/// A number scan.  Digits and decimal points accumulate; a point immediately
/// followed by a letter ends the number instead (the point is dropped and the
/// letter left for the next token, room kept for a later member-call syntax);
/// a letter directly after a digit is a fault.
pub open spec fn scan_number(s: Seq<char>) -> Result<(Seq<char>, Seq<char>), LexError>
    decreases s.len(),
{
    if s.len() == 0 {
        Ok((Seq::empty(), s))
    } else if is_digit_char(s[0]) {
        match scan_number(s.skip(1)) {
            Ok((lex, rest)) => Ok((seq![s[0]] + lex, rest)),
            Err(e) => Err(e),
        }
    } else if s[0] == '.' {
        if s.len() >= 2 && is_alpha_char(s[1]) {
            Ok((Seq::empty(), s.skip(1)))
        } else {
            match scan_number(s.skip(1)) {
                Ok((lex, rest)) => Ok((seq!['.'] + lex, rest)),
                Err(e) => Err(e),
            }
        }
    } else if is_alpha_char(s[0]) {
        Err(LexError::MalformedNumber)
    } else {
        Ok((Seq::empty(), s))
    }
}

/// A string-literal scan, after the opening quote: the characters up to the
/// closing quote, taken verbatim.  Reaching the end of the input, or a NUL
/// sentinel, first is a fault.
pub open spec fn scan_string_body(s: Seq<char>) -> Result<(Seq<char>, Seq<char>), LexError>
    decreases s.len(),
{
    if s.len() == 0 {
        Err(LexError::UnterminatedString)
    } else if s[0] == '"' {
        Ok((Seq::empty(), s.skip(1)))
    } else if s[0] == '\0' {
        Err(LexError::UnterminatedString)
    } else {
        match scan_string_body(s.skip(1)) {
            Ok((lex, rest)) => Ok((seq![s[0]] + lex, rest)),
            Err(e) => Err(e),
        }
    }
}

/// The rest of a line: everything before the next newline or NUL sentinel.
pub open spec fn scan_line(s: Seq<char>) -> (Seq<char>, Seq<char>)
    decreases s.len(),
{
    if s.len() == 0 || s[0] == '\n' || s[0] == '\0' {
        (Seq::empty(), s)
    } else {
        let (lex, rest) = scan_line(s.skip(1));
        (seq![s[0]] + lex, rest)
    }
}

/// An identifier is a keyword marker or a plain identifier.
pub open spec fn classify_word(lex: Seq<char>) -> TokenTypeV {
    if lex == "def"@ {
        TokenTypeV::Def
    } else if lex == "extern"@ {
        TokenTypeV::Extern
    } else {
        TokenTypeV::Ident { lexeme: lex }
    }
}

/// The characters left after leading whitespace.
pub open spec fn spec_skip_ws(s: Seq<char>) -> Seq<char>
    decreases s.len(),
{
    if s.len() > 0 && is_ws_char(s[0]) {
        spec_skip_ws(s.skip(1))
    } else {
        s
    }
}

/// Reading one token: skip whitespace, then dispatch on the first character.
pub open spec fn spec_next_token(s: Seq<char>) -> LexStep
    decreases s.len(),
{
    if s.len() == 0 {
        LexStep::Done(s)
    } else if is_ws_char(s[0]) {
        spec_next_token(s.skip(1))
    } else if is_digit_char(s[0]) {
        match scan_number(s) {
            Ok((lex, rest)) => LexStep::Tok(TokenTypeV::Numeric { lexeme: lex }, rest),
            Err(e) => LexStep::Fail(e),
        }
    } else if is_ident_start_char(s[0]) {
        let (lex, rest) = scan_ident(s);
        LexStep::Tok(classify_word(lex), rest)
    } else if s[0] == '"' {
        match scan_string_body(s.skip(1)) {
            Ok((lex, rest)) => LexStep::Tok(TokenTypeV::String { lexeme: lex }, rest),
            Err(e) => LexStep::Fail(e),
        }
    } else if is_pair_op_char(s[0]) {
        if s.len() >= 2 && s[1] == '=' {
            LexStep::Tok(TokenTypeV::Operator { lexeme: s.subrange(0, 2) }, s.skip(2))
        } else {
            LexStep::Tok(TokenTypeV::Operator { lexeme: seq![s[0]] }, s.skip(1))
        }
    } else if is_single_op_char(s[0]) {
        LexStep::Tok(TokenTypeV::Operator { lexeme: seq![s[0]] }, s.skip(1))
    } else if s[0] == '/' {
        if s.len() >= 2 && s[1] == '/' {
            let (body, rest) = scan_line(s.skip(2));
            LexStep::Tok(TokenTypeV::Comment { lexeme: seq!['/', '/'] + body }, rest)
        } else {
            LexStep::Tok(TokenTypeV::Operator { lexeme: seq!['/'] }, s.skip(1))
        }
    } else if s[0] == ',' {
        LexStep::Tok(TokenTypeV::Comma, s.skip(1))
    } else if s[0] == '[' {
        LexStep::Tok(TokenTypeV::LBracket, s.skip(1))
    } else if s[0] == ']' {
        LexStep::Tok(TokenTypeV::RBracket, s.skip(1))
    } else if s[0] == '(' {
        LexStep::Tok(TokenTypeV::LParenthesis, s.skip(1))
    } else if s[0] == ')' {
        LexStep::Tok(TokenTypeV::RParenthesis, s.skip(1))
    } else if s[0] == ';' {
        LexStep::Tok(TokenTypeV::Delimiter, s.skip(1))
    } else if is_printable_char(s[0]) {
        LexStep::Fail(LexError::UnrecognizedChar(s[0]))
    } else {
        LexStep::Done(s)
    }
}

/// The whole token stream of a character sequence, the end-of-input marker
/// left out; a lexical fault anywhere makes the whole result a fault.
pub open spec fn spec_tokenize(s: Seq<char>) -> Result<Seq<TokenTypeV>, LexError>
    decreases s.len(),
{
    match spec_next_token(s) {
        LexStep::Done(_) => Ok(Seq::empty()),
        LexStep::Fail(e) => Err(e),
        LexStep::Tok(t, rest) => if rest.len() < s.len() {
            match spec_tokenize(rest) {
                Ok(ts) => Ok(seq![t] + ts),
                Err(e) => Err(e),
            }
        } else {
            // never reached: a token consumes at least one character
            // (lemma_next_token_progress)
            Ok(seq![t])
        },
    }
}

// ---------------------------------------------------------------------------
// Progress of the model
// ---------------------------------------------------------------------------
proof fn lemma_scan_ident_len(s: Seq<char>)
    ensures
        scan_ident(s).1.len() <= s.len(),
    decreases s.len(),
{
    if s.len() > 0 && is_ident_char(s[0]) {
        lemma_scan_ident_len(s.skip(1));
    }
}

proof fn lemma_scan_number_len(s: Seq<char>)
    ensures
        scan_number(s) matches Ok(p) ==> p.1.len() <= s.len(),
    decreases s.len(),
{
    if s.len() > 0 && (is_digit_char(s[0]) || s[0] == '.') {
        lemma_scan_number_len(s.skip(1));
    }
}

proof fn lemma_scan_string_body_len(s: Seq<char>)
    ensures
        scan_string_body(s) matches Ok(p) ==> p.1.len() < s.len(),
    decreases s.len(),
{
    if s.len() > 0 && s[0] != '"' && s[0] != '\0' {
        lemma_scan_string_body_len(s.skip(1));
    }
}

proof fn lemma_scan_line_len(s: Seq<char>)
    ensures
        scan_line(s).1.len() <= s.len(),
    decreases s.len(),
{
    if s.len() > 0 && s[0] != '\n' && s[0] != '\0' {
        lemma_scan_line_len(s.skip(1));
    }
}

/// Reading a token always consumes at least one character, so tokenization
/// of a finite input ends; and the end-of-input marker only arises from the
/// `Done` step, never as an ordinary token.
pub proof fn lemma_next_token_progress(s: Seq<char>)
    ensures
        spec_next_token(s) matches LexStep::Tok(t, rest) ==> rest.len() < s.len(),
        spec_next_token(s) matches LexStep::Done(rest) ==> rest.len() <= s.len(),
        spec_next_token(s) matches LexStep::Tok(t, rest) ==> t != TokenTypeV::EOF,
    decreases s.len(),
{
    if s.len() == 0 {
    } else if is_ws_char(s[0]) {
        lemma_next_token_progress(s.skip(1));
    } else if is_digit_char(s[0]) {
        lemma_scan_number_len(s.skip(1));
    } else if is_ident_start_char(s[0]) {
        lemma_scan_ident_len(s.skip(1));
    } else if s[0] == '"' {
        lemma_scan_string_body_len(s.skip(1));
    } else if s[0] == '/' && s.len() >= 2 && s[1] == '/' {
        lemma_scan_line_len(s.skip(2));
    }
}

// ---------------------------------------------------------------------------
// The executable scanner
// ---------------------------------------------------------------------------
/// End of the leading whitespace run at or after `start`.
fn ws_end(input: &str, start: usize) -> (j: usize)
    requires
        start <= input@.len(),
    ensures
        start <= j <= input@.len(),
        spec_skip_ws(input@.skip(start as int)) == input@.skip(j as int),
        spec_next_token(input@.skip(start as int)) == spec_next_token(input@.skip(j as int)),
        j < input@.len() ==> !is_ws_char(input@[j as int]),
    decreases input@.len() - start,
{
    let n = input.unicode_len();
    if start < n {
        let c = input.get_char(start);
        if is_ws_char_exec(c) {
            proof {
                let s = input@.skip(start as int);
                assert(s[0] == input@[start as int]);
                assert(s.skip(1) =~= input@.skip(start as int + 1));
            }
            ws_end(input, start + 1)
        } else {
            start
        }
    } else {
        proof {
            assert(input@.skip(start as int).len() == 0);
        }
        start
    }
}

/// End of an identifier starting at `start`.
fn ident_end(input: &str, start: usize) -> (j: usize)
    requires
        start <= input@.len(),
    ensures
        start <= j <= input@.len(),
        scan_ident(input@.skip(start as int)) == (
        input@.subrange(start as int, j as int),
        input@.skip(j as int),
        ),
    decreases input@.len() - start,
{
    let n = input.unicode_len();
    if start < n && is_ident_char_exec(input.get_char(start)) {
        let j = ident_end(input, start + 1);
        proof {
            let s = input@.skip(start as int);
            assert(s[0] == input@[start as int]);
            assert(s.skip(1) =~= input@.skip(start as int + 1));
            assert(seq![s[0]] + input@.subrange(start as int + 1, j as int) =~= input@.subrange(
                start as int,
                j as int,
            ));
        }
        j
    } else {
        proof {
            let s = input@.skip(start as int);
            if start < n {
                assert(s[0] == input@[start as int]);
            }
            assert(input@.subrange(start as int, start as int) =~= Seq::<char>::empty());
        }
        start
    }
}

/// End of a number starting at `start`: `Ok((j, k))` puts the digits at
/// `start..j` and the next token at `k` (one past `j` exactly when a decimal
/// point was dropped before a letter).
fn number_end(input: &str, start: usize) -> (r: Result<(usize, usize), LexError>)
    requires
        start <= input@.len(),
    ensures
        match r {
            Ok((j, k)) => start <= j <= k <= input@.len() && k <= j + 1 && scan_number(
                input@.skip(start as int),
            ) == Ok::<_, LexError>(
                (input@.subrange(start as int, j as int), input@.skip(k as int)),
            ),
            Err(e) => scan_number(input@.skip(start as int)) == Err::<(Seq<char>, Seq<char>), _>(
                e,
            ),
        },
    decreases input@.len() - start,
{
    let n = input.unicode_len();
    if start >= n {
        proof {
            assert(input@.skip(start as int).len() == 0);
            assert(input@.subrange(start as int, start as int) =~= Seq::<char>::empty());
        }
        return Ok((start, start));
    }
    let c = input.get_char(start);
    proof {
        let s = input@.skip(start as int);
        assert(s[0] == input@[start as int]);
        assert(s.skip(1) =~= input@.skip(start as int + 1));
    }
    if is_digit_char_exec(c) {
        match number_end(input, start + 1) {
            Ok((j, k)) => {
                proof {
                    let s = input@.skip(start as int);
                    assert(seq![s[0]] + input@.subrange(start as int + 1, j as int)
                        =~= input@.subrange(start as int, j as int));
                }
                Ok((j, k))
            },
            Err(e) => Err(e),
        }
    } else if c == '.' {
        if start + 1 < n && is_alpha_char_exec(input.get_char(start + 1)) {
            proof {
                let s = input@.skip(start as int);
                assert(s[1] == input@[start as int + 1]);
                assert(input@.subrange(start as int, start as int) =~= Seq::<char>::empty());
            }
            Ok((start, start + 1))
        } else {
            proof {
                let s = input@.skip(start as int);
                if s.len() >= 2 {
                    assert(s[1] == input@[start as int + 1]);
                }
            }
            match number_end(input, start + 1) {
                Ok((j, k)) => {
                    proof {
                        let s = input@.skip(start as int);
                        assert(seq![s[0]] + input@.subrange(start as int + 1, j as int)
                            =~= input@.subrange(start as int, j as int));
                    }
                    Ok((j, k))
                },
                Err(e) => Err(e),
            }
        }
    } else if is_alpha_char_exec(c) {
        Err(LexError::MalformedNumber)
    } else {
        proof {
            assert(input@.subrange(start as int, start as int) =~= Seq::<char>::empty());
        }
        Ok((start, start))
    }
}

/// Index of the closing quote for a string literal whose body starts at
/// `start`.
fn string_end(input: &str, start: usize) -> (r: Result<usize, LexError>)
    requires
        start <= input@.len(),
    ensures
        match r {
            Ok(j) => start <= j < input@.len() && scan_string_body(input@.skip(start as int))
                == Ok::<_, LexError>(
                (input@.subrange(start as int, j as int), input@.skip(j as int + 1)),
            ),
            Err(e) => scan_string_body(input@.skip(start as int)) == Err::<
                (Seq<char>, Seq<char>),
                _,
            >(e),
        },
    decreases input@.len() - start,
{
    let n = input.unicode_len();
    if start >= n {
        proof {
            assert(input@.skip(start as int).len() == 0);
        }
        return Err(LexError::UnterminatedString);
    }
    let c = input.get_char(start);
    proof {
        let s = input@.skip(start as int);
        assert(s[0] == input@[start as int]);
        assert(s.skip(1) =~= input@.skip(start as int + 1));
    }
    if c == '"' {
        proof {
            assert(input@.subrange(start as int, start as int) =~= Seq::<char>::empty());
        }
        Ok(start)
    } else if c == '\0' {
        Err(LexError::UnterminatedString)
    } else {
        match string_end(input, start + 1) {
            Ok(j) => {
                proof {
                    let s = input@.skip(start as int);
                    assert(seq![s[0]] + input@.subrange(start as int + 1, j as int)
                        =~= input@.subrange(start as int, j as int));
                }
                Ok(j)
            },
            Err(e) => Err(e),
        }
    }
}

/// End of the line-comment body starting at `start`.
fn line_end(input: &str, start: usize) -> (j: usize)
    requires
        start <= input@.len(),
    ensures
        start <= j <= input@.len(),
        scan_line(input@.skip(start as int)) == (
        input@.subrange(start as int, j as int),
        input@.skip(j as int),
        ),
    decreases input@.len() - start,
{
    let n = input.unicode_len();
    if start < n {
        let c = input.get_char(start);
        proof {
            let s = input@.skip(start as int);
            assert(s[0] == input@[start as int]);
        }
        if c == '\n' || c == '\0' {
            proof {
                assert(input@.subrange(start as int, start as int) =~= Seq::<char>::empty());
            }
            start
        } else {
            let j = line_end(input, start + 1);
            proof {
                let s = input@.skip(start as int);
                assert(s.skip(1) =~= input@.skip(start as int + 1));
                assert(seq![s[0]] + input@.subrange(start as int + 1, j as int)
                    =~= input@.subrange(start as int, j as int));
            }
            j
        }
    } else {
        proof {
            assert(input@.skip(start as int).len() == 0);
            assert(input@.subrange(start as int, start as int) =~= Seq::<char>::empty());
        }
        start
    }
}

/// A restartable character buffer over one piece of source text, with the
/// position of the next unread character.
#[derive(Debug)]
pub struct KBuff<'a> {
    input: &'a str,
    pos: usize,
}

impl<'a> KBuff<'a> {
    #[verifier::type_invariant]
    spec fn wf(self) -> bool {
        self.pos <= self.input@.len()
    }

    /// The characters not yet consumed.
    pub closed spec fn remaining(self) -> Seq<char> {
        self.input@.skip(self.pos as int)
    }

    pub fn new(input: &'a str) -> (r: KBuff<'a>)
        ensures
            r.remaining() == input@,
    {
        let r = KBuff { input, pos: 0 };
        proof {
            assert(input@.skip(0) =~= input@);
        }
        r
    }

    /// Takes the next character, advancing past it.
    pub fn consume(&mut self) -> (r: Option<char>)
        ensures
            old(self).remaining().len() > 0 ==> r == Some(old(self).remaining()[0])
                && final(self).remaining() == old(self).remaining().skip(1),
            old(self).remaining().len() == 0 ==> r == None::<char>
                && final(self).remaining() == old(self).remaining(),
    {
        proof {
            use_type_invariant(&*self);
        }
        let n = self.input.unicode_len();
        if self.pos < n {
            let c = self.input.get_char(self.pos);
            proof {
                let s = self.input@.skip(self.pos as int);
                assert(s[0] == self.input@[self.pos as int]);
                assert(s.skip(1) =~= self.input@.skip(self.pos as int + 1));
            }
            self.pos = self.pos + 1;
            Some(c)
        } else {
            None
        }
    }

    /// Reads one token, as `spec_next_token` describes; on a lexical fault
    /// the position is left at the start of the offending token.
    pub fn next_token(&mut self) -> (r: Result<Token, LexError>)
        ensures
            ({
                let s = old(self).remaining();
                match spec_next_token(s) {
                    LexStep::Done(rest) => r matches Ok(t) && t.token_t == TokenType::EOF
                        && t.line == 0 && final(self).remaining() == rest,
                    LexStep::Tok(tv, rest) => r matches Ok(t) && t.token_t@ == tv && t.line == 0
                        && final(self).remaining() == rest,
                    LexStep::Fail(e) => r == Err::<Token, _>(e) && final(self).remaining()
                        == spec_skip_ws(s),
                }
            }),
    {
        proof {
            use_type_invariant(&*self);
        }
        let n = self.input.unicode_len();
        let start = ws_end(self.input, self.pos);
        let ghost s = self.input@.skip(start as int);
        if start >= n {
            proof {
                assert(s.len() == 0);
            }
            self.pos = start;
            return Ok(Token { token_t: TokenType::EOF, line: 0 });
        }
        let c = self.input.get_char(start);
        proof {
            assert(s[0] == self.input@[start as int]);
            assert(s.skip(1) =~= self.input@.skip(start as int + 1));
            if s.len() >= 2 {
                assert(s.skip(2) =~= self.input@.skip(start as int + 2));
            }
        }
        if is_digit_char_exec(c) {
            match number_end(self.input, start) {
                Ok((j, k)) => {
                    let lexeme = self.input.substring_char(start, j).to_owned();
                    self.pos = k;
                    Ok(Token { token_t: TokenType::Numeric { lexeme }, line: 0 })
                },
                Err(e) => {
                    self.pos = start;
                    Err(e)
                },
            }
        } else if is_ident_char_exec(c) {
            let j = ident_end(self.input, start);
            let lexeme = self.input.substring_char(start, j).to_owned();
            self.pos = j;
            if string_eq_literal(&lexeme, "def") {
                Ok(Token { token_t: TokenType::Def, line: 0 })
            } else if string_eq_literal(&lexeme, "extern") {
                Ok(Token { token_t: TokenType::Extern, line: 0 })
            } else {
                Ok(Token { token_t: TokenType::Ident { lexeme }, line: 0 })
            }
        } else if c == '"' {
            match string_end(self.input, start + 1) {
                Ok(j) => {
                    let lexeme = self.input.substring_char(start + 1, j).to_owned();
                    self.pos = j + 1;
                    Ok(Token { token_t: TokenType::String { lexeme }, line: 0 })
                },
                Err(e) => {
                    self.pos = start;
                    Err(e)
                },
            }
        } else if c == '=' || c == '!' || c == '<' || c == '>' {
            if start + 1 < n && self.input.get_char(start + 1) == '=' {
                let lexeme = self.input.substring_char(start, start + 2).to_owned();
                self.pos = start + 2;
                proof {
                    assert(s.subrange(0, 2) =~= self.input@.subrange(
                        start as int,
                        start as int + 2,
                    ));
                }
                Ok(Token { token_t: TokenType::Operator { lexeme }, line: 0 })
            } else {
                let lexeme = self.input.substring_char(start, start + 1).to_owned();
                self.pos = start + 1;
                proof {
                    assert(seq![s[0]] =~= self.input@.subrange(start as int, start as int + 1));
                }
                Ok(Token { token_t: TokenType::Operator { lexeme }, line: 0 })
            }
        } else if c == '+' || c == '-' || c == '*' {
            let lexeme = self.input.substring_char(start, start + 1).to_owned();
            self.pos = start + 1;
            proof {
                assert(seq![s[0]] =~= self.input@.subrange(start as int, start as int + 1));
            }
            Ok(Token { token_t: TokenType::Operator { lexeme }, line: 0 })
        } else if c == '/' {
            if start + 1 < n && self.input.get_char(start + 1) == '/' {
                let j = line_end(self.input, start + 2);
                let lexeme = self.input.substring_char(start, j).to_owned();
                self.pos = j;
                proof {
                    assert(s[1] == self.input@[start as int + 1]);
                    assert(seq!['/', '/'] + self.input@.subrange(start as int + 2, j as int)
                        =~= self.input@.subrange(start as int, j as int));
                }
                Ok(Token { token_t: TokenType::Comment { lexeme }, line: 0 })
            } else {
                let lexeme = self.input.substring_char(start, start + 1).to_owned();
                self.pos = start + 1;
                proof {
                    if start + 1 < n {
                        assert(s[1] == self.input@[start as int + 1]);
                    }
                    assert(seq![s[0]] =~= self.input@.subrange(start as int, start as int + 1));
                }
                Ok(Token { token_t: TokenType::Operator { lexeme }, line: 0 })
            }
        } else if c == ',' {
            self.pos = start + 1;
            Ok(Token { token_t: TokenType::Comma, line: 0 })
        } else if c == '[' {
            self.pos = start + 1;
            Ok(Token { token_t: TokenType::LBracket, line: 0 })
        } else if c == ']' {
            self.pos = start + 1;
            Ok(Token { token_t: TokenType::RBracket, line: 0 })
        } else if c == '(' {
            self.pos = start + 1;
            Ok(Token { token_t: TokenType::LParenthesis, line: 0 })
        } else if c == ')' {
            self.pos = start + 1;
            Ok(Token { token_t: TokenType::RParenthesis, line: 0 })
        } else if c == ';' {
            self.pos = start + 1;
            Ok(Token { token_t: TokenType::Delimiter, line: 0 })
        } else if is_printable_char_exec(c) {
            self.pos = start;
            Err(LexError::UnrecognizedChar(c))
        } else {
            self.pos = start;
            Ok(Token { token_t: TokenType::EOF, line: 0 })
        }
    }

    /// Reads the whole stream, stopping before the end-of-input marker.
    pub fn tokenize(self) -> (r: Result<Vec<Token>, LexError>)
        ensures
            match spec_tokenize(self.remaining()) {
                Ok(ts) => r matches Ok(v) && token_views(v@) == ts && forall|i: int|
                    0 <= i < v@.len() ==> (#[trigger] v@[i]).line == 0,
                Err(e) => r == Err::<Vec<Token>, _>(e),
            },
    {
        let mut buf = self;
        let mut acc: Vec<Token> = Vec::new();
        loop
            invariant
                ({
                    match spec_tokenize(buf.remaining()) {
                        Ok(ts) => spec_tokenize(self.remaining()) == Ok::<_, LexError>(
                            token_views(acc@) + ts,
                        ),
                        Err(e) => spec_tokenize(self.remaining()) == Err::<Seq<TokenTypeV>, _>(e),
                    }
                }),
                forall|i: int| 0 <= i < acc@.len() ==> (#[trigger] acc@[i]).line == 0,
            decreases buf.remaining().len(),
        {
            let ghost rem = buf.remaining();
            proof {
                lemma_next_token_progress(rem);
            }
            match buf.next_token() {
                Err(e) => {
                    return Err(e);
                },
                Ok(t) => {
                    if is_eof(&t.token_t) {
                        proof {
                            assert(token_views(acc@) + Seq::<TokenTypeV>::empty() =~= token_views(
                                acc@,
                            ));
                        }
                        return Ok(acc);
                    }
                    proof {
                        let step = spec_next_token(rem);
                        assert(step matches LexStep::Tok(tv, rest));
                        assert(token_views(acc@.push(t)) =~= token_views(acc@) + seq![t.token_t@]);
                        if let LexStep::Tok(tv, rest) = step {
                            if let Ok(ts) = spec_tokenize(rest) {
                                assert((token_views(acc@) + seq![tv]) + ts =~= token_views(acc@)
                                    + (seq![tv] + ts));
                            }
                        }
                    }
                    acc.push(t);
                },
            }
        }
    }
}

/// True exactly of the end-of-input marker.
fn is_eof(t: &TokenType) -> (r: bool)
    ensures
        r == (*t == TokenType::EOF),
{
    match t {
        TokenType::EOF => true,
        _ => false,
    }
}

/// String comparison against a literal, by value.
fn string_eq_literal(s: &String, lit: &str) -> (r: bool)
    ensures
        r == (s@ == lit@),
{
    let other: String = lit.to_owned();
    *s == other
}

/// The token stream of a piece of source text.
pub fn tokenize(input: &str) -> (r: Result<Vec<Token>, LexError>)
    ensures
        match spec_tokenize(input@) {
            Ok(ts) => r matches Ok(v) && token_views(v@) == ts && forall|i: int|
                0 <= i < v@.len() ==> (#[trigger] v@[i]).line == 0,
            Err(e) => r == Err::<Vec<Token>, _>(e),
        },
{
    KBuff::new(input).tokenize()
}

} // verus!
