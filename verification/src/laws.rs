//! Laws of the tokenizer.
//!
//! For the lexeme classes that carry a payload (words, numbers, strings,
//! comments), one token is produced holding exactly the text given; and two
//! lexemes separated by a space tokenize independently, so token streams
//! concatenate.

use vstd::prelude::*;

use crate::lexer::LexError;
use crate::lexer::LexStep;
use crate::lexer::TokenTypeV;
use crate::lexer::classify_word;
use crate::lexer::is_alpha_char;
use crate::lexer::is_digit_char;
use crate::lexer::is_ident_char;
use crate::lexer::is_ident_start_char;
use crate::lexer::is_ws_char;
use crate::lexer::lemma_next_token_progress;
use crate::lexer::scan_ident;
use crate::lexer::scan_line;
use crate::lexer::scan_number;
use crate::lexer::scan_string_body;
use crate::lexer::spec_next_token;
use crate::lexer::spec_tokenize;

verus! {

// ---------------------------------------------------------------------------
// One lexeme alone
// ---------------------------------------------------------------------------
proof fn lemma_scan_ident_all(s: Seq<char>)
    requires
        forall|i: int| 0 <= i < s.len() ==> is_ident_char(#[trigger] s[i]),
    ensures
        scan_ident(s) == (s, Seq::<char>::empty()),
    decreases s.len(),
{
    if s.len() == 0 {
        assert(s =~= Seq::<char>::empty());
    } else {
        let t = s.skip(1);
        assert forall|i: int| 0 <= i < t.len() implies is_ident_char(#[trigger] t[i]) by {
            assert(t[i] == s[i + 1]);
        }
        lemma_scan_ident_all(t);
        assert(seq![s[0]] + t =~= s);
    }
}

proof fn lemma_scan_number_all(s: Seq<char>)
    requires
        forall|i: int| 0 <= i < s.len() ==> is_digit_char(#[trigger] s[i]) || s[i] == '.',
    ensures
        scan_number(s) == Ok::<_, LexError>((s, Seq::<char>::empty())),
    decreases s.len(),
{
    if s.len() == 0 {
        assert(s =~= Seq::<char>::empty());
    } else {
        let t = s.skip(1);
        assert forall|i: int| 0 <= i < t.len() implies is_digit_char(#[trigger] t[i]) || t[i]
            == '.' by {
            assert(t[i] == s[i + 1]);
        }
        lemma_scan_number_all(t);
        if s.len() >= 2 {
            assert(s[1] == t[0]);
            assert(!is_alpha_char(s[1]));
        }
        assert(seq![s[0]] + t =~= s);
    }
}

proof fn lemma_scan_string_body_closed(body: Seq<char>, tail: Seq<char>)
    requires
        forall|i: int| 0 <= i < body.len() ==> body[i] != '"' && #[trigger] body[i] != '\0',
    ensures
        scan_string_body(body + seq!['"'] + tail) == Ok::<_, LexError>((body, tail)),
    decreases body.len(),
{
    let s = body + seq!['"'] + tail;
    if body.len() == 0 {
        assert(s[0] == '"');
        assert(s.skip(1) =~= tail);
        assert(body =~= Seq::<char>::empty());
    } else {
        assert(s[0] == body[0]);
        let b = body.drop_first();
        assert forall|i: int| 0 <= i < b.len() implies b[i] != '"' && #[trigger] b[i] != '\0' by {
            assert(b[i] == body[i + 1]);
        }
        lemma_scan_string_body_closed(b, tail);
        assert(s.skip(1) =~= b + seq!['"'] + tail);
        assert(seq![body[0]] + b =~= body);
    }
}

proof fn lemma_scan_line_all(s: Seq<char>)
    requires
        forall|i: int| 0 <= i < s.len() ==> s[i] != '\n' && #[trigger] s[i] != '\0',
    ensures
        scan_line(s) == (s, Seq::<char>::empty()),
    decreases s.len(),
{
    if s.len() == 0 {
        assert(s =~= Seq::<char>::empty());
    } else {
        let t = s.skip(1);
        assert forall|i: int| 0 <= i < t.len() implies t[i] != '\n' && #[trigger] t[i] != '\0' by {
            assert(t[i] == s[i + 1]);
        }
        lemma_scan_line_all(t);
        assert(seq![s[0]] + t =~= s);
    }
}

proof fn lemma_tokenize_empty()
    ensures
        spec_tokenize(Seq::<char>::empty()) == Ok::<_, LexError>(Seq::<TokenTypeV>::empty()),
{
    assert(spec_next_token(Seq::<char>::empty()) == LexStep::Done(Seq::<char>::empty()));
}

/// A word lexeme alone — a letter or underscore followed by identifier
/// characters — yields exactly its classification: the matching keyword
/// marker, or an identifier carrying the text.
pub proof fn lemma_tokenize_word(s: Seq<char>)
    requires
        s.len() > 0,
        is_ident_start_char(s[0]),
        forall|i: int| 0 <= i < s.len() ==> is_ident_char(#[trigger] s[i]),
    ensures
        spec_tokenize(s) == Ok::<_, LexError>(seq![classify_word(s)]),
{
    lemma_tokenize_empty();
    lemma_scan_ident_all(s);
    assert(spec_next_token(s) == LexStep::Tok(classify_word(s), Seq::<char>::empty()));
    assert(seq![classify_word(s)] + Seq::<TokenTypeV>::empty() =~= seq![classify_word(s)]);
}

/// An identifier lexeme alone — a word that is no keyword — yields exactly
/// one identifier token carrying the text.
pub proof fn lemma_tokenize_ident(s: Seq<char>)
    requires
        s.len() > 0,
        is_ident_start_char(s[0]),
        forall|i: int| 0 <= i < s.len() ==> is_ident_char(#[trigger] s[i]),
        s != "def"@,
        s != "extern"@,
    ensures
        spec_tokenize(s) == Ok::<_, LexError>(seq![TokenTypeV::Ident { lexeme: s }]),
{
    lemma_tokenize_word(s);
}

/// A numeric lexeme alone — a digit followed by digits and decimal points —
/// yields exactly one numeric token carrying the text.
pub proof fn lemma_tokenize_number(s: Seq<char>)
    requires
        s.len() > 0,
        is_digit_char(s[0]),
        forall|i: int| 0 <= i < s.len() ==> is_digit_char(#[trigger] s[i]) || s[i] == '.',
    ensures
        spec_tokenize(s) == Ok::<_, LexError>(seq![TokenTypeV::Numeric { lexeme: s }]),
{
    lemma_tokenize_empty();
    lemma_scan_number_all(s);
    assert(spec_next_token(s) == LexStep::Tok(
        TokenTypeV::Numeric { lexeme: s },
        Seq::<char>::empty(),
    ));
    assert(seq![TokenTypeV::Numeric { lexeme: s }] + Seq::<TokenTypeV>::empty() =~= seq![
        TokenTypeV::Numeric { lexeme: s },
    ]);
}

/// A string lexeme alone — a quoted body free of quotes and NUL — yields
/// exactly one string token carrying the body.
pub proof fn lemma_tokenize_string(body: Seq<char>)
    requires
        forall|i: int| 0 <= i < body.len() ==> body[i] != '"' && #[trigger] body[i] != '\0',
    ensures
        spec_tokenize(seq!['"'] + body + seq!['"']) == Ok::<_, LexError>(
            seq![TokenTypeV::String { lexeme: body }],
        ),
{
    lemma_tokenize_empty();
    let s = seq!['"'] + body + seq!['"'];
    assert(s[0] == '"');
    lemma_scan_string_body_closed(body, Seq::<char>::empty());
    assert(s.skip(1) =~= body + seq!['"'] + Seq::<char>::empty());
    assert(spec_next_token(s) == LexStep::Tok(
        TokenTypeV::String { lexeme: body },
        Seq::<char>::empty(),
    ));
    assert(seq![TokenTypeV::String { lexeme: body }] + Seq::<TokenTypeV>::empty() =~= seq![
        TokenTypeV::String { lexeme: body },
    ]);
}

/// A comment lexeme alone — two slashes and a body free of newline and NUL —
/// yields exactly one comment token carrying the whole text.
pub proof fn lemma_tokenize_comment(body: Seq<char>)
    requires
        forall|i: int| 0 <= i < body.len() ==> body[i] != '\n' && #[trigger] body[i] != '\0',
    ensures
        spec_tokenize(seq!['/', '/'] + body) == Ok::<_, LexError>(
            seq![TokenTypeV::Comment { lexeme: seq!['/', '/'] + body }],
        ),
{
    lemma_tokenize_empty();
    let s = seq!['/', '/'] + body;
    assert(s[0] == '/');
    assert(s[1] == '/');
    lemma_scan_line_all(body);
    assert(s.skip(2) =~= body);
    assert(spec_next_token(s) == LexStep::Tok(
        TokenTypeV::Comment { lexeme: seq!['/', '/'] + body },
        Seq::<char>::empty(),
    ));
    assert(seq![TokenTypeV::Comment { lexeme: s }] + Seq::<TokenTypeV>::empty() =~= seq![
        TokenTypeV::Comment { lexeme: s },
    ]);
}

// ---------------------------------------------------------------------------
// Concatenation
// ---------------------------------------------------------------------------
/// A whitespace-separable lexeme: its text scans to one token followed only
/// by whitespace, and the token is no comment (a comment would swallow a
/// following space along with everything after it).
pub open spec fn lone_lexeme(s: Seq<char>) -> bool {
    match spec_next_token(s) {
        LexStep::Tok(t, rest) => !(t matches TokenTypeV::Comment { .. }) && forall|i: int|
            0 <= i < rest.len() ==> is_ws_char(#[trigger] rest[i]),
        _ => false,
    }
}

proof fn lemma_next_token_ws_prefix(u: Seq<char>, w: Seq<char>)
    requires
        forall|i: int| 0 <= i < u.len() ==> is_ws_char(#[trigger] u[i]),
    ensures
        spec_next_token(u + w) == spec_next_token(w),
    decreases u.len(),
{
    if u.len() == 0 {
        assert(u + w =~= w);
    } else {
        let s = u + w;
        assert(s[0] == u[0]);
        let t = u.drop_first();
        assert forall|i: int| 0 <= i < t.len() implies is_ws_char(#[trigger] t[i]) by {
            assert(t[i] == u[i + 1]);
        }
        lemma_next_token_ws_prefix(t, w);
        assert(s.skip(1) =~= t + w);
    }
}

proof fn lemma_tokenize_ws_prefix(u: Seq<char>, w: Seq<char>)
    requires
        forall|i: int| 0 <= i < u.len() ==> is_ws_char(#[trigger] u[i]),
    ensures
        spec_tokenize(u + w) == spec_tokenize(w),
{
    lemma_next_token_ws_prefix(u, w);
    match spec_next_token(w) {
        LexStep::Tok(t, rest) => {
            lemma_next_token_progress(w);
            lemma_next_token_progress(u + w);
        },
        LexStep::Done(rest) => {},
        LexStep::Fail(e) => {},
    }
}

proof fn lemma_scan_ident_ext(u: Seq<char>, v: Seq<char>)
    requires
        v.len() > 0,
        !is_ident_char(v[0]),
    ensures
        scan_ident(u + v) == (scan_ident(u).0, scan_ident(u).1 + v),
    decreases u.len(),
{
    let s = u + v;
    if u.len() == 0 {
        assert(s =~= v);
        assert(scan_ident(u) == (Seq::<char>::empty(), u));
        assert(u + v =~= v);
        assert(Seq::<char>::empty() + v =~= v);
        assert(u =~= Seq::<char>::empty());
    } else {
        assert(s[0] == u[0]);
        if is_ident_char(u[0]) {
            lemma_scan_ident_ext(u.skip(1), v);
            assert(s.skip(1) =~= u.skip(1) + v);
        } else {
            assert(scan_ident(s) == (Seq::<char>::empty(), s));
        }
    }
}

proof fn lemma_scan_number_ext(u: Seq<char>, v: Seq<char>)
    requires
        v.len() > 0,
        v[0] == ' ',
    ensures
        scan_number(u + v) == (match scan_number(u) {
            Ok((lex, rest)) => Ok::<_, LexError>((lex, rest + v)),
            Err(e) => Err(e),
        }),
    decreases u.len(),
{
    let s = u + v;
    if u.len() == 0 {
        assert(s =~= v);
        assert(Seq::<char>::empty() + v =~= v);
    } else {
        assert(s[0] == u[0]);
        if is_digit_char(u[0]) {
            lemma_scan_number_ext(u.skip(1), v);
            assert(s.skip(1) =~= u.skip(1) + v);
        } else if u[0] == '.' {
            if u.len() >= 2 {
                assert(s[1] == u[1]);
                if is_alpha_char(u[1]) {
                    assert(s.skip(1) =~= u.skip(1) + v);
                } else {
                    lemma_scan_number_ext(u.skip(1), v);
                    assert(s.skip(1) =~= u.skip(1) + v);
                }
            } else {
                assert(s[1] == v[0]);
                assert(!is_alpha_char(s[1]));
                lemma_scan_number_ext(u.skip(1), v);
                assert(s.skip(1) =~= u.skip(1) + v);
            }
        } else if is_alpha_char(u[0]) {
        } else {
            assert(u + v =~= s);
        }
    }
}

proof fn lemma_scan_string_body_ext(u: Seq<char>, v: Seq<char>)
    ensures
        scan_string_body(u) matches Ok(p) ==> scan_string_body(u + v) == Ok::<_, LexError>(
            (p.0, p.1 + v),
        ),
    decreases u.len(),
{
    let s = u + v;
    if u.len() > 0 {
        assert(s[0] == u[0]);
        if u[0] == '"' {
            assert(s.skip(1) =~= u.skip(1) + v);
        } else if u[0] != '\0' {
            lemma_scan_string_body_ext(u.skip(1), v);
            assert(s.skip(1) =~= u.skip(1) + v);
        }
    }
}

proof fn lemma_next_token_ext(a: Seq<char>, v: Seq<char>)
    requires
        v.len() > 0,
        v[0] == ' ',
        (spec_next_token(a) matches LexStep::Tok(t, rest) ==> !(t matches TokenTypeV::Comment {
            ..
        })),
    ensures
        (match spec_next_token(a) {
            LexStep::Tok(t, rest) => spec_next_token(a + v) == LexStep::Tok(t, rest + v),
            _ => true,
        }),
    decreases a.len(),
{
    let s = a + v;
    if a.len() == 0 {
        // no token arises from the empty text
    } else {
        assert(s[0] == a[0]);
        if is_ws_char(a[0]) {
            lemma_next_token_ext(a.skip(1), v);
            assert(s.skip(1) =~= a.skip(1) + v);
        } else if is_digit_char(a[0]) {
            lemma_scan_number_ext(a, v);
        } else if is_ident_start_char(a[0]) {
            lemma_scan_ident_ext(a, v);
        } else if a[0] == '"' {
            lemma_scan_string_body_ext(a.skip(1), v);
            assert(s.skip(1) =~= a.skip(1) + v);
        } else if a[0] == '=' || a[0] == '!' || a[0] == '<' || a[0] == '>' {
            if a.len() >= 2 {
                assert(s[1] == a[1]);
                if a[1] == '=' {
                    assert(s.subrange(0, 2) =~= a.subrange(0, 2));
                    assert(s.skip(2) =~= a.skip(2) + v);
                } else {
                    assert(s.skip(1) =~= a.skip(1) + v);
                    assert(seq![s[0]] =~= seq![a[0]]);
                }
            } else {
                assert(s[1] == v[0]);
                assert(s.skip(1) =~= a.skip(1) + v);
            }
        } else if a[0] == '+' || a[0] == '-' || a[0] == '*' {
            assert(s.skip(1) =~= a.skip(1) + v);
        } else if a[0] == '/' {
            if a.len() >= 2 {
                assert(s[1] == a[1]);
                // a comment is ruled out by the premise, so the second
                // character is no slash
                assert(s.skip(1) =~= a.skip(1) + v);
            } else {
                assert(s[1] == v[0]);
                assert(s.skip(1) =~= a.skip(1) + v);
            }
        } else if a[0] == ',' || a[0] == '[' || a[0] == ']' || a[0] == '(' || a[0] == ')' || a[0]
            == ';' {
            assert(s.skip(1) =~= a.skip(1) + v);
        } else {
            // a fault or the end of the stream: no token arises
        }
    }
}

/// Concatenation law: a whitespace-separable lexeme, a space, and any
/// further text tokenize to the lexeme's token followed by the further
/// text's tokens — the streams concatenate with no cross-contamination.
pub proof fn lemma_tokenize_concat(a: Seq<char>, b: Seq<char>)
    requires
        lone_lexeme(a),
    ensures
        spec_tokenize(a + seq![' '] + b) == (match spec_tokenize(b) {
            Ok(tb) => Ok::<_, LexError>(spec_tokenize(a)->Ok_0 + tb),
            Err(e) => Err(e),
        }),
        spec_tokenize(a) matches Ok(ta) && ta.len() == 1,
{
    let v = seq![' '] + b;
    assert(v[0] == ' ');
    let step = spec_next_token(a);
    lemma_next_token_progress(a);
    if let LexStep::Tok(t, rest) = step {
        // the lexeme alone: one token, then only whitespace
        lemma_tokenize_ws_prefix(rest, Seq::<char>::empty());
        assert(rest + Seq::<char>::empty() =~= rest);
        assert(spec_tokenize(rest) == spec_tokenize(Seq::<char>::empty()));
        assert(spec_tokenize(a) == Ok::<_, LexError>(seq![t] + Seq::<TokenTypeV>::empty()));
        assert(seq![t] + Seq::<TokenTypeV>::empty() =~= seq![t]);

        // the combined text: the same token, then the rest of the stream
        lemma_next_token_ext(a, v);
        assert(a + seq![' '] + b =~= a + v);
        assert(spec_next_token(a + v) == LexStep::Tok(t, rest + v));
        lemma_next_token_progress(a + v);
        let ws = rest + seq![' '];
        assert forall|i: int| 0 <= i < ws.len() implies is_ws_char(#[trigger] ws[i]) by {
            if i < rest.len() {
                assert(ws[i] == rest[i]);
            } else {
                assert(ws[i] == ' ');
            }
        }
        lemma_tokenize_ws_prefix(ws, b);
        assert(rest + v =~= ws + b);
        match spec_tokenize(b) {
            Ok(tb) => {
                assert(spec_tokenize(a + v) == Ok::<_, LexError>(seq![t] + tb));
            },
            Err(e) => {},
        }
    }
}

} // verus!

