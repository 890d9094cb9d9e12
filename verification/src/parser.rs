//! Incremental, resumable parser: recursive descent for declarations and
//! precedence climbing for expressions.
//!
//! Each construct yields one of three outcomes: `Good` (the parsed value and
//! the position of the next unconsumed token), `NotComplete` (the stream
//! ended before the construct could be finished; nothing is consumed, so the
//! caller may append more tokens and retry), or `Bad` (a structural fault
//! that aborts the whole call).  The executable functions are specified
//! against the spec-level parser `s_parse_nodes` and its helpers.

use vstd::prelude::*;

use crate::ast::ASTNode;
use crate::ast::ExprV;
use crate::ast::Expression;
use crate::ast::FuncV;
use crate::ast::NodeV;
use crate::ast::ProtoV;
use crate::ast::Prototype;
use crate::ast::Function;
use crate::ast::expr_view;
use crate::ast::exprs_view;
use crate::ast::lemma_exprs_view_push;
use crate::ast::node_view;
use crate::ast::nodes_view;
use crate::ast::proto_view;
use crate::ast::strings_view;
use crate::lexer::Token;
use crate::lexer::TokenType;
use crate::lexer::TokenTypeV;
use crate::lexer::token_views;

verus! {

// ---------------------------------------------------------------------------
// Parser configuration: the operator precedence table
// ---------------------------------------------------------------------------
/// Precedence of an operator: the first entry of the table that carries its
/// symbol, if any.
pub open spec fn s_lookup(tbl: Seq<(Seq<char>, u32)>, op: Seq<char>) -> Option<u32>
    decreases tbl.len(),
{
    if tbl.len() == 0 {
        None
    } else if tbl[0].0 == op {
        Some(tbl[0].1)
    } else {
        s_lookup(tbl.skip(1), op)
    }
}

/// The seeded table: `<` binds loosest, `*` tightest.
pub open spec fn default_op_table() -> Seq<(Seq<char>, u32)> {
    seq![("<"@, 10u32), ("+"@, 20u32), ("-"@, 20u32), ("*"@, 40u32)]
}

/// Parser configuration: the operator precedence table, consulted for every
/// binary operator.  An operator absent from the table is a parse fault, not
/// a default precedence.
#[derive(Debug)]
pub struct ParserSettings {
    operators: Vec<(String, u32)>,
}

impl ParserSettings {
    /// The table as a sequence of (symbol, precedence) pairs; earlier
    /// entries win.
    pub closed spec fn table(self) -> Seq<(Seq<char>, u32)> {
        self.operators@.map_values(|p: (String, u32)| (p.0@, p.1))
    }

    /// A table holding the four seeded operators.
    pub fn new() -> (r: ParserSettings)
        ensures
            r.table() == default_op_table(),
    {
        let mut operators: Vec<(String, u32)> = Vec::new();
        operators.push(("<".to_owned(), 10));
        operators.push(("+".to_owned(), 20));
        operators.push(("-".to_owned(), 20));
        operators.push(("*".to_owned(), 40));
        let r = ParserSettings { operators };
        proof {
            assert(r.table() =~= default_op_table());
        }
        r
    }

    /// Makes `op` known with the given precedence, shadowing any earlier
    /// entry for the same symbol.
    pub fn add_operator(&mut self, op: String, precedence: u32)
        ensures
            final(self).table() == seq![(op@, precedence)] + old(self).table(),
    {
        let ghost before = self.table();
        let ghost opv = op@;
        self.operators.insert(0, (op, precedence));
        proof {
            assert(self.table() =~= seq![(opv, precedence)] + before);
        }
    }

    /// The precedence of `op`, where the table knows it.
    pub fn precedence(&self, op: &String) -> (r: Option<u32>)
        ensures
            r == s_lookup(self.table(), op@),
    {
        let n = self.operators.len();
        let mut k: usize = 0;
        proof {
            assert(self.table().skip(0) =~= self.table());
        }
        while k < n
            invariant
                k <= n,
                n == self.operators.len(),
                s_lookup(self.table(), op@) == s_lookup(self.table().skip(k as int), op@),
            decreases n - k,
        {
            let pair = &self.operators[k];
            proof {
                assert(self.table()[k as int] == (pair.0@, pair.1));
                assert(self.table().skip(k as int)[0] == self.table()[k as int]);
                assert(self.table().skip(k as int).skip(1) =~= self.table().skip(k as int + 1));
            }
            if pair.0 == *op {
                return Some(pair.1);
            }
            k = k + 1;
        }
        proof {
            assert(self.table().skip(k as int).len() == 0);
        }
        None
    }
}

impl Default for ParserSettings {
    /// The seeded table.
    fn default() -> (r: ParserSettings)
        ensures
            r.table() == default_op_table(),
    {
        ParserSettings::new()
    }
}

// ---------------------------------------------------------------------------
// Outcomes
// ---------------------------------------------------------------------------
/// The outcome of parsing one construct: the value with the position of the
/// next unconsumed token, a request for more input, or a structural fault.
#[derive(Debug, PartialEq)]
pub enum PartParsingResult<T> {
    Good(T, usize),
    NotComplete,
    Bad(String),
}

/// The spec-level outcome mirroring `PartParsingResult`.
pub enum PRes<T> {
    Good(T, int),
    NotComplete,
    Bad(Seq<char>),
}

/// The result of one whole parse call: the declarations recognized and where
/// the unconsumed tail begins, or the fault message.
pub type ParsingResult = Result<(Vec<ASTNode>, Vec<Token>), String>;

// ---------------------------------------------------------------------------
// The parser model
//
// The spec functions recurse on the remaining token count, paired with a
// rank that orders the functions called at one position.  Recursion on a
// position returned inside a `Good` outcome is fenced by a range test; the
// executable parser proves every returned position in range, so the fence's
// other branch describes no run.
// ---------------------------------------------------------------------------
/// A primary expression: a literal, a variable reference, a call, or a
/// parenthesized expression.
pub open spec fn s_parse_primary(tbl: Seq<(Seq<char>, u32)>, ts: Seq<TokenTypeV>, i: int) -> PRes<
    ExprV,
>
    decreases ts.len() - i, 0int,
{
    if i >= ts.len() {
        PRes::NotComplete
    } else {
        match ts[i] {
            TokenTypeV::Numeric { lexeme } => PRes::Good(ExprV::LiteralEpxr(lexeme), i + 1),
            TokenTypeV::String { lexeme } => PRes::Good(ExprV::StringExpr(lexeme), i + 1),
            TokenTypeV::Ident { lexeme } => if i + 1 < ts.len() && ts[i + 1]
                == TokenTypeV::LParenthesis {
                match s_parse_args(tbl, ts, i + 2, Seq::empty()) {
                    PRes::Good(args, j) => PRes::Good(ExprV::CallExpr(lexeme, args), j),
                    PRes::NotComplete => PRes::NotComplete,
                    PRes::Bad(m) => PRes::Bad(m),
                }
            } else {
                PRes::Good(ExprV::VariableExpr(lexeme), i + 1)
            },
            TokenTypeV::LParenthesis => match s_parse_expr(tbl, ts, i + 1) {
                PRes::Good(e, j) => if j >= ts.len() {
                    PRes::NotComplete
                } else if ts[j] == TokenTypeV::RParenthesis {
                    PRes::Good(e, j + 1)
                } else {
                    PRes::Bad("expected ')'"@)
                },
                PRes::NotComplete => PRes::NotComplete,
                PRes::Bad(m) => PRes::Bad(m),
            },
            _ => PRes::Bad("unknown token when expecting an expression"@),
        }
    }
}

/// A unary expression: a prefix operator applied to a primary expression,
/// or a plain primary expression.  No table entry is needed for unary use.
pub open spec fn s_parse_unary(tbl: Seq<(Seq<char>, u32)>, ts: Seq<TokenTypeV>, i: int) -> PRes<
    ExprV,
>
    decreases ts.len() - i, 1int,
{
    if i < ts.len() && (ts[i] matches TokenTypeV::Operator { lexeme }) {
        match ts[i] {
            TokenTypeV::Operator { lexeme } => match s_parse_primary(tbl, ts, i + 1) {
                PRes::Good(e, j) => PRes::Good(ExprV::UnaryExpr(lexeme, Box::new(e)), j),
                PRes::NotComplete => PRes::NotComplete,
                PRes::Bad(m) => PRes::Bad(m),
            },
            _ => PRes::NotComplete,  // never reached: the outer test saw an operator
        }
    } else {
        s_parse_primary(tbl, ts, i)
    }
}

/// Precedence climbing, outer loop: while an operator at least as tight as
/// `min_prec` follows, consume it, parse its right-hand side, and fold it
/// into `lhs` left-associatively.
pub open spec fn s_parse_bin_rhs(
    tbl: Seq<(Seq<char>, u32)>,
    ts: Seq<TokenTypeV>,
    i: int,
    min_prec: u32,
    lhs: ExprV,
) -> PRes<ExprV>
    decreases ts.len() - i, 2int,
{
    if i >= ts.len() {
        PRes::Good(lhs, i)
    } else {
        match ts[i] {
            TokenTypeV::Operator { lexeme: op } => match s_lookup(tbl, op) {
                None => PRes::Bad("unknown operator found"@),
                Some(p) => if p < min_prec {
                    PRes::Good(lhs, i)
                } else {
                    match s_parse_unary(tbl, ts, i + 1) {
                        PRes::Good(rhs0, j) => if i + 1 < j && j <= ts.len() {
                            match s_parse_bin_ext(tbl, ts, j, p, rhs0) {
                                PRes::Good(rhs, k) => if j <= k && k <= ts.len() {
                                    s_parse_bin_rhs(
                                        tbl,
                                        ts,
                                        k,
                                        min_prec,
                                        ExprV::BinaryExpr(op, Box::new(lhs), Box::new(rhs)),
                                    )
                                } else {
                                    PRes::NotComplete  // never reached: positions stay in range
                                },
                                PRes::NotComplete => PRes::NotComplete,
                                PRes::Bad(m) => PRes::Bad(m),
                            }
                        } else {
                            PRes::NotComplete  // never reached: a unary expression consumes input
                        },
                        PRes::NotComplete => PRes::NotComplete,
                        PRes::Bad(m) => PRes::Bad(m),
                    }
                },
            },
            _ => PRes::Good(lhs, i),
        }
    }
}

/// Precedence climbing, inner loop: while the next operator binds strictly
/// tighter than `p`, let it take `rhs` as its left-hand side.
pub open spec fn s_parse_bin_ext(
    tbl: Seq<(Seq<char>, u32)>,
    ts: Seq<TokenTypeV>,
    j: int,
    p: u32,
    rhs: ExprV,
) -> PRes<ExprV>
    decreases ts.len() - j, 3int,
{
    if j >= ts.len() {
        PRes::Good(rhs, j)
    } else {
        match ts[j] {
            TokenTypeV::Operator { lexeme: op2 } => match s_lookup(tbl, op2) {
                None => PRes::Bad("unknown operator found"@),
                Some(p2) => if p2 > p {
                    match s_parse_bin_rhs(tbl, ts, j, p2, rhs) {
                        PRes::Good(rhs2, k) => if j < k && k <= ts.len() {
                            s_parse_bin_ext(tbl, ts, k, p, rhs2)
                        } else {
                            PRes::NotComplete  // never reached: that operator is consumed
                        },
                        PRes::NotComplete => PRes::NotComplete,
                        PRes::Bad(m) => PRes::Bad(m),
                    }
                } else {
                    PRes::Good(rhs, j)
                },
            },
            _ => PRes::Good(rhs, j),
        }
    }
}

/// A full expression: one unary expression, then precedence climbing from
/// the loosest threshold.
pub open spec fn s_parse_expr(tbl: Seq<(Seq<char>, u32)>, ts: Seq<TokenTypeV>, i: int) -> PRes<
    ExprV,
>
    decreases ts.len() - i, 4int,
{
    match s_parse_unary(tbl, ts, i) {
        PRes::Good(lhs, j) => if i < j && j <= ts.len() {
            s_parse_bin_rhs(tbl, ts, j, 0, lhs)
        } else {
            PRes::NotComplete  // never reached: a unary expression consumes input
        },
        PRes::NotComplete => PRes::NotComplete,
        PRes::Bad(m) => PRes::Bad(m),
    }
}

/// Call arguments after the opening parenthesis: expressions separated by
/// commas, closed by `)`.
pub open spec fn s_parse_args(
    tbl: Seq<(Seq<char>, u32)>,
    ts: Seq<TokenTypeV>,
    i: int,
    acc: Seq<ExprV>,
) -> PRes<Seq<ExprV>>
    decreases ts.len() - i, 5int,
{
    if i >= ts.len() {
        PRes::NotComplete
    } else if ts[i] == TokenTypeV::RParenthesis {
        PRes::Good(acc, i + 1)
    } else {
        match s_parse_expr(tbl, ts, i) {
            PRes::Good(e, j) => if i < j && j <= ts.len() {
                if j < ts.len() && ts[j] == TokenTypeV::Comma {
                    s_parse_args(tbl, ts, j + 1, acc.push(e))
                } else if j < ts.len() && ts[j] == TokenTypeV::RParenthesis {
                    PRes::Good(acc.push(e), j + 1)
                } else if j >= ts.len() {
                    PRes::NotComplete
                } else {
                    PRes::Bad("expected ')'"@)
                }
            } else {
                PRes::NotComplete  // never reached: an expression consumes input
            },
            PRes::NotComplete => PRes::NotComplete,
            PRes::Bad(m) => PRes::Bad(m),
        }
    }
}

/// Prototype argument names after the opening parenthesis: identifiers
/// collected in order, commas passed over, closed by `)`.
pub open spec fn s_parse_proto_args(ts: Seq<TokenTypeV>, i: int, acc: Seq<Seq<char>>) -> PRes<
    Seq<Seq<char>>,
>
    decreases ts.len() - i, 0int,
{
    if i >= ts.len() {
        PRes::NotComplete
    } else {
        match ts[i] {
            TokenTypeV::Ident { lexeme } => s_parse_proto_args(ts, i + 1, acc.push(lexeme)),
            TokenTypeV::Comma => s_parse_proto_args(ts, i + 1, acc),
            TokenTypeV::RParenthesis => PRes::Good(acc, i + 1),
            _ => PRes::Bad("expected ')'"@),
        }
    }
}

/// A prototype: a function name, `(`, argument names, `)`.
pub open spec fn s_parse_prototype(ts: Seq<TokenTypeV>, i: int) -> PRes<ProtoV>
    decreases ts.len() - i, 6int,
{
    if i >= ts.len() {
        PRes::NotComplete
    } else {
        match ts[i] {
            TokenTypeV::Ident { lexeme: name } => if i + 1 >= ts.len() {
                PRes::NotComplete
            } else if ts[i + 1] == TokenTypeV::LParenthesis {
                match s_parse_proto_args(ts, i + 2, Seq::empty()) {
                    PRes::Good(args, j) => PRes::Good(ProtoV { name, args }, j),
                    PRes::NotComplete => PRes::NotComplete,
                    PRes::Bad(m) => PRes::Bad(m),
                }
            } else {
                PRes::Bad("expected '('"@)
            },
            _ => PRes::Bad("expected function name"@),
        }
    }
}

/// An `extern` declaration: the keyword, then a prototype.
pub open spec fn s_parse_extern(ts: Seq<TokenTypeV>, i: int) -> PRes<NodeV>
    decreases ts.len() - i, 7int,
{
    if i >= ts.len() {
        PRes::NotComplete
    } else {
        match s_parse_prototype(ts, i + 1) {
            PRes::Good(p, j) => PRes::Good(NodeV::ExternNode(p), j),
            PRes::NotComplete => PRes::NotComplete,
            PRes::Bad(m) => PRes::Bad(m),
        }
    }
}

/// A `def` declaration: the keyword, a prototype, one body expression.
pub open spec fn s_parse_function(tbl: Seq<(Seq<char>, u32)>, ts: Seq<TokenTypeV>, i: int) -> PRes<
    NodeV,
>
    decreases ts.len() - i, 7int,
{
    if i >= ts.len() {
        PRes::NotComplete
    } else {
        match s_parse_prototype(ts, i + 1) {
            PRes::Good(proto, j) => if i < j && j <= ts.len() {
                match s_parse_expr(tbl, ts, j) {
                    PRes::Good(body, k) => PRes::Good(
                        NodeV::FunctionNode(FuncV { prototype: proto, body }),
                        k,
                    ),
                    PRes::NotComplete => PRes::NotComplete,
                    PRes::Bad(m) => PRes::Bad(m),
                }
            } else {
                PRes::NotComplete  // never reached: a prototype consumes input
            },
            PRes::NotComplete => PRes::NotComplete,
            PRes::Bad(m) => PRes::Bad(m),
        }
    }
}

/// A bare top-level expression, wrapped as an anonymous zero-argument
/// function so the declaration list stays homogeneous.
pub open spec fn s_parse_anon(tbl: Seq<(Seq<char>, u32)>, ts: Seq<TokenTypeV>, i: int) -> PRes<
    NodeV,
>
    decreases ts.len() - i, 7int,
{
    if i >= ts.len() {
        PRes::NotComplete
    } else {
        match s_parse_expr(tbl, ts, i) {
            PRes::Good(e, j) => PRes::Good(
                NodeV::FunctionNode(
                    FuncV { prototype: ProtoV { name: Seq::empty(), args: Seq::empty() }, body: e },
                ),
                j,
            ),
            PRes::NotComplete => PRes::NotComplete,
            PRes::Bad(m) => PRes::Bad(m),
        }
    }
}

/// The top-level driver: declarations and delimiters until the tokens run
/// out or a construct cannot be finished; a structural fault aborts the
/// whole run.  Yields the declarations in order and the position where the
/// unconsumed tail begins.
pub open spec fn s_parse_nodes(tbl: Seq<(Seq<char>, u32)>, ts: Seq<TokenTypeV>, i: int) -> Result<
    (Seq<NodeV>, int),
    Seq<char>,
>
    decreases ts.len() - i, 8int,
{
    if i >= ts.len() {
        Ok((Seq::empty(), i))
    } else if ts[i] == TokenTypeV::Delimiter {
        s_parse_nodes(tbl, ts, i + 1)
    } else {
        let first = if ts[i] == TokenTypeV::Def {
            s_parse_function(tbl, ts, i)
        } else if ts[i] == TokenTypeV::Extern {
            s_parse_extern(ts, i)
        } else {
            s_parse_anon(tbl, ts, i)
        };
        match first {
            PRes::Good(n, j) => if i < j && j <= ts.len() {
                match s_parse_nodes(tbl, ts, j) {
                    Ok((ns, k)) => Ok((seq![n] + ns, k)),
                    Err(m) => Err(m),
                }
            } else {
                Ok((seq![n], j))  // never reached: a declaration consumes input
            },
            PRes::NotComplete => Ok((Seq::empty(), i)),
            PRes::Bad(m) => Err(m),
        }
    }
}

// ---------------------------------------------------------------------------
// Positions stay in range
// ---------------------------------------------------------------------------
/// The inner climbing loop never moves the position backwards or past the
/// end.
proof fn lemma_bin_ext_bounds(
    tbl: Seq<(Seq<char>, u32)>,
    ts: Seq<TokenTypeV>,
    j: int,
    p: u32,
    rhs: ExprV,
)
    requires
        0 <= j <= ts.len(),
    ensures
        s_parse_bin_ext(tbl, ts, j, p, rhs) matches PRes::Good(e, k) ==> j <= k <= ts.len(),
    decreases ts.len() - j,
{
    if j < ts.len() {
        match ts[j] {
            TokenTypeV::Operator { lexeme: op2 } => {
                match s_lookup(tbl, op2) {
                    Some(p2) => {
                        if p2 > p {
                            match s_parse_bin_rhs(tbl, ts, j, p2, rhs) {
                                PRes::Good(rhs2, k1) => {
                                    if j < k1 && k1 <= ts.len() {
                                        lemma_bin_ext_bounds(tbl, ts, k1, p, rhs2);
                                    }
                                },
                                PRes::NotComplete => {},
                                PRes::Bad(m) => {},
                            }
                        }
                    },
                    None => {},
                }
            },
            _ => {},
        }
    }
}

/// The outer climbing loop never moves the position backwards or past the
/// end; and when it stands on an operator the table knows at or above the
/// threshold, success consumes that operator and an operand.
proof fn lemma_bin_rhs_bounds(
    tbl: Seq<(Seq<char>, u32)>,
    ts: Seq<TokenTypeV>,
    i: int,
    min_prec: u32,
    lhs: ExprV,
)
    requires
        0 <= i <= ts.len(),
    ensures
        s_parse_bin_rhs(tbl, ts, i, min_prec, lhs) matches PRes::Good(e, j) ==> i <= j
            <= ts.len(),
        i < ts.len() ==> (match ts[i] {
            TokenTypeV::Operator { lexeme: op } => match s_lookup(tbl, op) {
                Some(p) => p >= min_prec ==> (s_parse_bin_rhs(tbl, ts, i, min_prec, lhs) matches
                PRes::Good(e, j) ==> i + 2 <= j),
                None => true,
            },
            _ => true,
        }),
    decreases ts.len() - i,
{
    if i < ts.len() {
        match ts[i] {
            TokenTypeV::Operator { lexeme: op } => {
                match s_lookup(tbl, op) {
                    Some(p) => {
                        if p >= min_prec {
                            match s_parse_unary(tbl, ts, i + 1) {
                                PRes::Good(rhs0, j) => {
                                    if i + 1 < j && j <= ts.len() {
                                        lemma_bin_ext_bounds(tbl, ts, j, p, rhs0);
                                        match s_parse_bin_ext(tbl, ts, j, p, rhs0) {
                                            PRes::Good(rhs, k) => {
                                                if j <= k && k <= ts.len() {
                                                    lemma_bin_rhs_bounds(
                                                        tbl,
                                                        ts,
                                                        k,
                                                        min_prec,
                                                        ExprV::BinaryExpr(
                                                            op,
                                                            Box::new(lhs),
                                                            Box::new(rhs),
                                                        ),
                                                    );
                                                }
                                            },
                                            PRes::NotComplete => {},
                                            PRes::Bad(m) => {},
                                        }
                                    }
                                },
                                PRes::NotComplete => {},
                                PRes::Bad(m) => {},
                            }
                        }
                    },
                    None => {},
                }
            },
            _ => {},
        }
    }
}

// ---------------------------------------------------------------------------
// The executable parser
// ---------------------------------------------------------------------------
/// A primary expression, as `s_parse_primary` describes.
fn parse_primary(tokens: &Vec<Token>, pos: usize, settings: &ParserSettings) -> (r:
    PartParsingResult<Expression>)
    ensures
        ({
            let sres = s_parse_primary(settings.table(), token_views(tokens@), pos as int);
            match r {
                PartParsingResult::Good(e, j) => sres == PRes::<ExprV>::Good(
                    expr_view(e),
                    j as int,
                ) && pos < j && j <= tokens@.len(),
                PartParsingResult::NotComplete => sres == PRes::<ExprV>::NotComplete,
                PartParsingResult::Bad(m) => sres == PRes::<ExprV>::Bad(m@),
            }
        }),
    decreases tokens@.len() - pos, 0int,
{
    let ghost ts = token_views(tokens@);
    if pos >= tokens.len() {
        return PartParsingResult::NotComplete;
    }
    proof {
        assert(ts[pos as int] == tokens@[pos as int].token_t@);
    }
    match &tokens[pos].token_t {
        TokenType::Numeric { lexeme } => PartParsingResult::Good(
            Expression::LiteralEpxr(lexeme.clone()),
            pos + 1,
        ),
        TokenType::String { lexeme } => PartParsingResult::Good(
            Expression::StringExpr(lexeme.clone()),
            pos + 1,
        ),
        TokenType::Ident { lexeme } => {
            let mut is_call = false;
            if pos + 1 < tokens.len() {
                proof {
                    assert(ts[pos as int + 1] == tokens@[pos as int + 1].token_t@);
                }
                if let TokenType::LParenthesis = &tokens[pos + 1].token_t {
                    is_call = true;
                }
            }
            if is_call {
                let no_args: Vec<Expression> = Vec::new();
                proof {
                    assert(exprs_view(no_args@) =~= Seq::<ExprV>::empty());
                }
                match parse_args(tokens, pos + 2, settings, no_args) {
                    PartParsingResult::Good(args, j) => {
                        PartParsingResult::Good(Expression::CallExpr(lexeme.clone(), args), j)
                    },
                    PartParsingResult::NotComplete => PartParsingResult::NotComplete,
                    PartParsingResult::Bad(m) => PartParsingResult::Bad(m),
                }
            } else {
                PartParsingResult::Good(Expression::VariableExpr(lexeme.clone()), pos + 1)
            }
        },
        TokenType::LParenthesis => {
            match parse_expr(tokens, pos + 1, settings) {
                PartParsingResult::Good(e, j) => {
                    if j >= tokens.len() {
                        PartParsingResult::NotComplete
                    } else {
                        proof {
                            assert(ts[j as int] == tokens@[j as int].token_t@);
                        }
                        if let TokenType::RParenthesis = &tokens[j].token_t {
                            PartParsingResult::Good(e, j + 1)
                        } else {
                            PartParsingResult::Bad("expected ')'".to_owned())
                        }
                    }
                },
                PartParsingResult::NotComplete => PartParsingResult::NotComplete,
                PartParsingResult::Bad(m) => PartParsingResult::Bad(m),
            }
        },
        _ => PartParsingResult::Bad("unknown token when expecting an expression".to_owned()),
    }
}

/// A unary expression, as `s_parse_unary` describes.
fn parse_unary_expr(tokens: &Vec<Token>, pos: usize, settings: &ParserSettings) -> (r:
    PartParsingResult<Expression>)
    ensures
        ({
            let sres = s_parse_unary(settings.table(), token_views(tokens@), pos as int);
            match r {
                PartParsingResult::Good(e, j) => sres == PRes::<ExprV>::Good(
                    expr_view(e),
                    j as int,
                ) && pos < j && j <= tokens@.len(),
                PartParsingResult::NotComplete => sres == PRes::<ExprV>::NotComplete,
                PartParsingResult::Bad(m) => sres == PRes::<ExprV>::Bad(m@),
            }
        }),
    decreases tokens@.len() - pos, 1int,
{
    let ghost ts = token_views(tokens@);
    if pos < tokens.len() {
        proof {
            assert(ts[pos as int] == tokens@[pos as int].token_t@);
        }
        match &tokens[pos].token_t {
            TokenType::Operator { lexeme } => {
                match parse_primary(tokens, pos + 1, settings) {
                    PartParsingResult::Good(e, j) => PartParsingResult::Good(
                        Expression::UnaryExpr(lexeme.clone(), Box::new(e)),
                        j,
                    ),
                    PartParsingResult::NotComplete => PartParsingResult::NotComplete,
                    PartParsingResult::Bad(m) => PartParsingResult::Bad(m),
                }
            },
            _ => parse_primary(tokens, pos, settings),
        }
    } else {
        parse_primary(tokens, pos, settings)
    }
}

/// The outer climbing loop, as `s_parse_bin_rhs` describes.
fn parse_binary_expr(
    tokens: &Vec<Token>,
    pos: usize,
    settings: &ParserSettings,
    min_prec: u32,
    lhs: Expression,
) -> (r: PartParsingResult<Expression>)
    requires
        pos <= tokens@.len(),
    ensures
        ({
            let sres = s_parse_bin_rhs(
                settings.table(),
                token_views(tokens@),
                pos as int,
                min_prec,
                expr_view(lhs),
            );
            match r {
                PartParsingResult::Good(e, j) => sres == PRes::<ExprV>::Good(
                    expr_view(e),
                    j as int,
                ) && pos <= j && j <= tokens@.len(),
                PartParsingResult::NotComplete => sres == PRes::<ExprV>::NotComplete,
                PartParsingResult::Bad(m) => sres == PRes::<ExprV>::Bad(m@),
            }
        }),
    decreases tokens@.len() - pos, 2int,
{
    let ghost ts = token_views(tokens@);
    if pos >= tokens.len() {
        return PartParsingResult::Good(lhs, pos);
    }
    proof {
        assert(ts[pos as int] == tokens@[pos as int].token_t@);
    }
    match &tokens[pos].token_t {
        TokenType::Operator { lexeme } => {
            match settings.precedence(lexeme) {
                None => PartParsingResult::Bad("unknown operator found".to_owned()),
                Some(p) => {
                    if p < min_prec {
                        PartParsingResult::Good(lhs, pos)
                    } else {
                        match parse_unary_expr(tokens, pos + 1, settings) {
                            PartParsingResult::Good(rhs0, j) => {
                                match parse_binary_tail(tokens, j, settings, p, rhs0) {
                                    PartParsingResult::Good(rhs, k) => {
                                        parse_binary_expr(
                                            tokens,
                                            k,
                                            settings,
                                            min_prec,
                                            Expression::BinaryExpr(
                                                lexeme.clone(),
                                                Box::new(lhs),
                                                Box::new(rhs),
                                            ),
                                        )
                                    },
                                    PartParsingResult::NotComplete => {
                                        PartParsingResult::NotComplete
                                    },
                                    PartParsingResult::Bad(m) => PartParsingResult::Bad(m),
                                }
                            },
                            PartParsingResult::NotComplete => PartParsingResult::NotComplete,
                            PartParsingResult::Bad(m) => PartParsingResult::Bad(m),
                        }
                    }
                },
            }
        },
        _ => PartParsingResult::Good(lhs, pos),
    }
}

/// The inner climbing loop, as `s_parse_bin_ext` describes.
fn parse_binary_tail(
    tokens: &Vec<Token>,
    pos: usize,
    settings: &ParserSettings,
    p: u32,
    rhs: Expression,
) -> (r: PartParsingResult<Expression>)
    requires
        pos <= tokens@.len(),
    ensures
        ({
            let sres = s_parse_bin_ext(
                settings.table(),
                token_views(tokens@),
                pos as int,
                p,
                expr_view(rhs),
            );
            match r {
                PartParsingResult::Good(e, j) => sres == PRes::<ExprV>::Good(
                    expr_view(e),
                    j as int,
                ) && pos <= j && j <= tokens@.len(),
                PartParsingResult::NotComplete => sres == PRes::<ExprV>::NotComplete,
                PartParsingResult::Bad(m) => sres == PRes::<ExprV>::Bad(m@),
            }
        }),
    decreases tokens@.len() - pos, 3int,
{
    let ghost ts = token_views(tokens@);
    if pos >= tokens.len() {
        return PartParsingResult::Good(rhs, pos);
    }
    proof {
        assert(ts[pos as int] == tokens@[pos as int].token_t@);
    }
    match &tokens[pos].token_t {
        TokenType::Operator { lexeme } => {
            match settings.precedence(lexeme) {
                None => PartParsingResult::Bad("unknown operator found".to_owned()),
                Some(p2) => {
                    if p2 > p {
                        proof {
                            lemma_bin_rhs_bounds(
                                settings.table(),
                                ts,
                                pos as int,
                                p2,
                                expr_view(rhs),
                            );
                        }
                        match parse_binary_expr(tokens, pos, settings, p2, rhs) {
                            PartParsingResult::Good(rhs2, k) => {
                                parse_binary_tail(tokens, k, settings, p, rhs2)
                            },
                            PartParsingResult::NotComplete => PartParsingResult::NotComplete,
                            PartParsingResult::Bad(m) => PartParsingResult::Bad(m),
                        }
                    } else {
                        PartParsingResult::Good(rhs, pos)
                    }
                },
            }
        },
        _ => PartParsingResult::Good(rhs, pos),
    }
}

/// One full expression, as `s_parse_expr` describes.
pub fn parse_expr(tokens: &Vec<Token>, pos: usize, settings: &ParserSettings) -> (r:
    PartParsingResult<Expression>)
    ensures
        ({
            let sres = s_parse_expr(settings.table(), token_views(tokens@), pos as int);
            match r {
                PartParsingResult::Good(e, j) => sres == PRes::<ExprV>::Good(
                    expr_view(e),
                    j as int,
                ) && pos < j && j <= tokens@.len(),
                PartParsingResult::NotComplete => sres == PRes::<ExprV>::NotComplete,
                PartParsingResult::Bad(m) => sres == PRes::<ExprV>::Bad(m@),
            }
        }),
    decreases tokens@.len() - pos, 4int,
{
    match parse_unary_expr(tokens, pos, settings) {
        PartParsingResult::Good(lhs, j) => parse_binary_expr(tokens, j, settings, 0, lhs),
        PartParsingResult::NotComplete => PartParsingResult::NotComplete,
        PartParsingResult::Bad(m) => PartParsingResult::Bad(m),
    }
}

/// Call arguments, as `s_parse_args` describes; `acc` holds the arguments
/// already read.
fn parse_args(
    tokens: &Vec<Token>,
    pos: usize,
    settings: &ParserSettings,
    acc: Vec<Expression>,
) -> (r: PartParsingResult<Vec<Expression>>)
    ensures
        ({
            let sres = s_parse_args(
                settings.table(),
                token_views(tokens@),
                pos as int,
                exprs_view(acc@),
            );
            match r {
                PartParsingResult::Good(v, j) => sres == PRes::<Seq<ExprV>>::Good(
                    exprs_view(v@),
                    j as int,
                ) && pos < j && j <= tokens@.len(),
                PartParsingResult::NotComplete => sres == PRes::<Seq<ExprV>>::NotComplete,
                PartParsingResult::Bad(m) => sres == PRes::<Seq<ExprV>>::Bad(m@),
            }
        }),
    decreases tokens@.len() - pos, 5int,
{
    let ghost ts = token_views(tokens@);
    if pos >= tokens.len() {
        return PartParsingResult::NotComplete;
    }
    proof {
        assert(ts[pos as int] == tokens@[pos as int].token_t@);
    }
    if let TokenType::RParenthesis = &tokens[pos].token_t {
        return PartParsingResult::Good(acc, pos + 1);
    }
    match parse_expr(tokens, pos, settings) {
        PartParsingResult::Good(e, j) => {
            if j >= tokens.len() {
                return PartParsingResult::NotComplete;
            }
            proof {
                assert(ts[j as int] == tokens@[j as int].token_t@);
            }
            match &tokens[j].token_t {
                TokenType::Comma => {
                    let ghost acc0 = acc@;
                    let mut acc2 = acc;
                    acc2.push(e);
                    proof {
                        lemma_exprs_view_push(acc0, e);
                    }
                    parse_args(tokens, j + 1, settings, acc2)
                },
                TokenType::RParenthesis => {
                    let ghost acc0 = acc@;
                    let mut acc2 = acc;
                    acc2.push(e);
                    proof {
                        lemma_exprs_view_push(acc0, e);
                    }
                    PartParsingResult::Good(acc2, j + 1)
                },
                _ => PartParsingResult::Bad("expected ')'".to_owned()),
            }
        },
        PartParsingResult::NotComplete => PartParsingResult::NotComplete,
        PartParsingResult::Bad(m) => PartParsingResult::Bad(m),
    }
}

/// Prototype argument names, as `s_parse_proto_args` describes; `acc` holds
/// the names already read.
fn parse_proto_args(tokens: &Vec<Token>, pos: usize, acc: Vec<String>) -> (r: PartParsingResult<
    Vec<String>,
>)
    ensures
        ({
            let sres = s_parse_proto_args(token_views(tokens@), pos as int, strings_view(acc@));
            match r {
                PartParsingResult::Good(v, j) => sres == PRes::<Seq<Seq<char>>>::Good(
                    strings_view(v@),
                    j as int,
                ) && pos < j && j <= tokens@.len(),
                PartParsingResult::NotComplete => sres == PRes::<Seq<Seq<char>>>::NotComplete,
                PartParsingResult::Bad(m) => sres == PRes::<Seq<Seq<char>>>::Bad(m@),
            }
        }),
    decreases tokens@.len() - pos,
{
    let ghost ts = token_views(tokens@);
    if pos >= tokens.len() {
        return PartParsingResult::NotComplete;
    }
    proof {
        assert(ts[pos as int] == tokens@[pos as int].token_t@);
    }
    match &tokens[pos].token_t {
        TokenType::Ident { lexeme } => {
            let ghost acc0 = acc@;
            let mut acc2 = acc;
            acc2.push(lexeme.clone());
            proof {
                assert(strings_view(acc2@) =~= strings_view(acc0).push(lexeme@));
            }
            parse_proto_args(tokens, pos + 1, acc2)
        },
        TokenType::Comma => parse_proto_args(tokens, pos + 1, acc),
        TokenType::RParenthesis => PartParsingResult::Good(acc, pos + 1),
        _ => PartParsingResult::Bad("expected ')'".to_owned()),
    }
}

/// A prototype, as `s_parse_prototype` describes.
pub fn parse_prototype(tokens: &Vec<Token>, pos: usize) -> (r: PartParsingResult<Prototype>)
    ensures
        ({
            let sres = s_parse_prototype(token_views(tokens@), pos as int);
            match r {
                PartParsingResult::Good(p, j) => sres == PRes::<ProtoV>::Good(
                    proto_view(p),
                    j as int,
                ) && pos < j && j <= tokens@.len(),
                PartParsingResult::NotComplete => sres == PRes::<ProtoV>::NotComplete,
                PartParsingResult::Bad(m) => sres == PRes::<ProtoV>::Bad(m@),
            }
        }),
{
    let ghost ts = token_views(tokens@);
    if pos >= tokens.len() {
        return PartParsingResult::NotComplete;
    }
    proof {
        assert(ts[pos as int] == tokens@[pos as int].token_t@);
    }
    match &tokens[pos].token_t {
        TokenType::Ident { lexeme } => {
            if pos + 1 >= tokens.len() {
                return PartParsingResult::NotComplete;
            }
            proof {
                assert(ts[pos as int + 1] == tokens@[pos as int + 1].token_t@);
            }
            if let TokenType::LParenthesis = &tokens[pos + 1].token_t {
                let no_args: Vec<String> = Vec::new();
                proof {
                    assert(strings_view(no_args@) =~= Seq::<Seq<char>>::empty());
                }
                match parse_proto_args(tokens, pos + 2, no_args) {
                    PartParsingResult::Good(args, j) => PartParsingResult::Good(
                        Prototype { name: lexeme.clone(), args },
                        j,
                    ),
                    PartParsingResult::NotComplete => PartParsingResult::NotComplete,
                    PartParsingResult::Bad(m) => PartParsingResult::Bad(m),
                }
            } else {
                PartParsingResult::Bad("expected '('".to_owned())
            }
        },
        _ => PartParsingResult::Bad("expected function name".to_owned()),
    }
}

/// An `extern` declaration, as `s_parse_extern` describes.
pub fn parse_extern(tokens: &Vec<Token>, pos: usize) -> (r: PartParsingResult<ASTNode>)
    ensures
        ({
            let sres = s_parse_extern(token_views(tokens@), pos as int);
            match r {
                PartParsingResult::Good(n, j) => sres == PRes::<NodeV>::Good(
                    node_view(n),
                    j as int,
                ) && pos < j && j <= tokens@.len(),
                PartParsingResult::NotComplete => sres == PRes::<NodeV>::NotComplete,
                PartParsingResult::Bad(m) => sres == PRes::<NodeV>::Bad(m@),
            }
        }),
{
    if pos >= tokens.len() {
        return PartParsingResult::NotComplete;
    }
    match parse_prototype(tokens, pos + 1) {
        PartParsingResult::Good(p, j) => PartParsingResult::Good(ASTNode::ExternNode(p), j),
        PartParsingResult::NotComplete => PartParsingResult::NotComplete,
        PartParsingResult::Bad(m) => PartParsingResult::Bad(m),
    }
}

/// A `def` declaration, as `s_parse_function` describes.
pub fn parse_function(tokens: &Vec<Token>, pos: usize, settings: &ParserSettings) -> (r:
    PartParsingResult<ASTNode>)
    ensures
        ({
            let sres = s_parse_function(settings.table(), token_views(tokens@), pos as int);
            match r {
                PartParsingResult::Good(n, j) => sres == PRes::<NodeV>::Good(
                    node_view(n),
                    j as int,
                ) && pos < j && j <= tokens@.len(),
                PartParsingResult::NotComplete => sres == PRes::<NodeV>::NotComplete,
                PartParsingResult::Bad(m) => sres == PRes::<NodeV>::Bad(m@),
            }
        }),
{
    if pos >= tokens.len() {
        return PartParsingResult::NotComplete;
    }
    match parse_prototype(tokens, pos + 1) {
        PartParsingResult::Good(proto, j) => {
            match parse_expr(tokens, j, settings) {
                PartParsingResult::Good(body, k) => PartParsingResult::Good(
                    ASTNode::FunctionNode(Function { prototype: proto, body }),
                    k,
                ),
                PartParsingResult::NotComplete => PartParsingResult::NotComplete,
                PartParsingResult::Bad(m) => PartParsingResult::Bad(m),
            }
        },
        PartParsingResult::NotComplete => PartParsingResult::NotComplete,
        PartParsingResult::Bad(m) => PartParsingResult::Bad(m),
    }
}

/// A bare top-level expression wrapped as an anonymous function, as
/// `s_parse_anon` describes.
fn parse_anonymous(tokens: &Vec<Token>, pos: usize, settings: &ParserSettings) -> (r:
    PartParsingResult<ASTNode>)
    ensures
        ({
            let sres = s_parse_anon(settings.table(), token_views(tokens@), pos as int);
            match r {
                PartParsingResult::Good(n, j) => sres == PRes::<NodeV>::Good(
                    node_view(n),
                    j as int,
                ) && pos < j && j <= tokens@.len(),
                PartParsingResult::NotComplete => sres == PRes::<NodeV>::NotComplete,
                PartParsingResult::Bad(m) => sres == PRes::<NodeV>::Bad(m@),
            }
        }),
{
    if pos >= tokens.len() {
        return PartParsingResult::NotComplete;
    }
    match parse_expr(tokens, pos, settings) {
        PartParsingResult::Good(e, j) => {
            let name = String::new();
            let args: Vec<String> = Vec::new();
            proof {
                assert(strings_view(args@) =~= Seq::<Seq<char>>::empty());
            }
            PartParsingResult::Good(
                ASTNode::FunctionNode(
                    Function { prototype: Prototype { name, args }, body: e },
                ),
                j,
            )
        },
        PartParsingResult::NotComplete => PartParsingResult::NotComplete,
        PartParsingResult::Bad(m) => PartParsingResult::Bad(m),
    }
}

/// The top-level driver, as `s_parse_nodes` describes; `ast` holds the
/// declarations of earlier calls and is only appended to.
fn parse_nodes(tokens: &Vec<Token>, pos: usize, settings: &ParserSettings, ast: Vec<ASTNode>) -> (r:
    Result<(Vec<ASTNode>, usize), String>)
    requires
        pos <= tokens@.len(),
    ensures
        ({
            let sres = s_parse_nodes(settings.table(), token_views(tokens@), pos as int);
            match r {
                Ok(p) => {
                    &&& sres matches Ok(sp) && nodes_view(p.0@) == nodes_view(ast@) + sp.0
                        && p.1 as int == sp.1
                    &&& pos <= p.1 && p.1 <= tokens@.len()
                    &&& p.0@.len() >= ast@.len()
                    &&& p.0@.subrange(0, ast@.len() as int) == ast@
                },
                Err(m) => sres matches Err(mm) && mm == m@,
            }
        }),
    decreases tokens@.len() - pos, 8int,
{
    let ghost ts = token_views(tokens@);
    if pos >= tokens.len() {
        proof {
            assert(nodes_view(ast@) + Seq::<NodeV>::empty() =~= nodes_view(ast@));
            assert(ast@.subrange(0, ast@.len() as int) =~= ast@);
        }
        return Ok((ast, pos));
    }
    proof {
        assert(ts[pos as int] == tokens@[pos as int].token_t@);
    }
    if let TokenType::Delimiter = &tokens[pos].token_t {
        return parse_nodes(tokens, pos + 1, settings, ast);
    }
    let first: PartParsingResult<ASTNode> = match &tokens[pos].token_t {
        TokenType::Def => parse_function(tokens, pos, settings),
        TokenType::Extern => parse_extern(tokens, pos),
        _ => parse_anonymous(tokens, pos, settings),
    };
    match first {
        PartParsingResult::Good(n, j) => {
            let ghost l = ast@.len() as int;
            let ghost nv = node_view(n);
            let mut ast2 = ast;
            ast2.push(n);
            proof {
                assert(nodes_view(ast2@) =~= nodes_view(ast2@.subrange(0, l)).push(nv));
                assert(ast2@.subrange(0, l) =~= ast2@.drop_last());
            }
            match parse_nodes(tokens, j, settings, ast2) {
                Ok((v, k)) => {
                    proof {
                        let sp = s_parse_nodes(settings.table(), ts, j as int);
                        if let Ok(spp) = sp {
                            assert(nodes_view(ast2@) =~= nodes_view(ast2@.subrange(0, l)) + seq![
                                nv,
                            ]);
                            assert((nodes_view(ast2@.subrange(0, l)) + seq![nv]) + spp.0
                                =~= nodes_view(ast2@.subrange(0, l)) + (seq![nv] + spp.0));
                            assert(ast2@.subrange(0, l) == ast@);
                        }
                        assert(v@.subrange(0, l) =~= ast@) by {
                            assert(v@.subrange(0, l + 1) == ast2@);
                            assert(forall|x: int|
                                0 <= x < l ==> v@.subrange(0, l + 1)[x] == #[trigger] v@[x]);
                            assert(forall|x: int| 0 <= x < l ==> v@[x] == ast2@[x]);
                            assert(forall|x: int| 0 <= x < l ==> ast2@[x] == ast@[x]);
                        }
                    }
                    Ok((v, k))
                },
                Err(m) => Err(m),
            }
        },
        PartParsingResult::NotComplete => {
            proof {
                assert(nodes_view(ast@) + Seq::<NodeV>::empty() =~= nodes_view(ast@));
                assert(ast@.subrange(0, ast@.len() as int) =~= ast@);
            }
            Ok((ast, pos))
        },
        PartParsingResult::Bad(m) => Err(m),
    }
}

/// One whole parse call.  Tokens are consumed from the front; recognized
/// declarations extend a copy of `parsed_tree`, earlier nodes first and
/// untouched; on success the unconsumed tail comes back in its original
/// order, to be put before whatever tokens arrive next.  A structural fault
/// aborts the call and hands back its message alone, leaving the work of
/// earlier calls untouched in the caller's hands.
pub fn parse(tokens: &Vec<Token>, parsed_tree: &Vec<ASTNode>, settings: &mut ParserSettings) -> (r:
    ParsingResult)
    ensures
        *final(settings) == *old(settings),
        ({
            let sres = s_parse_nodes(old(settings).table(), token_views(tokens@), 0);
            match r {
                Ok(p) => {
                    &&& sres matches Ok(sp) && nodes_view(p.0@) == nodes_view(parsed_tree@) + sp.0
                    &&& p.0@.len() >= parsed_tree@.len()
                    &&& sres matches Ok(sp) && p.1@ == tokens@.skip(sp.1)
                },
                Err(m) => sres matches Err(mm) && mm == m@,
            }
        }),
{
    let mut ast: Vec<ASTNode> = Vec::new();
    let mut idx: usize = 0;
    while idx < parsed_tree.len()
        invariant
            idx <= parsed_tree@.len(),
            ast@.len() == idx,
            forall|k: int|
                0 <= k < idx ==> node_view(#[trigger] ast@[k]) == node_view(parsed_tree@[k]),
        decreases parsed_tree@.len() - idx,
    {
        ast.push(parsed_tree[idx].clone());
        idx = idx + 1;
    }
    proof {
        assert(nodes_view(ast@) =~= nodes_view(parsed_tree@));
    }
    let ghost copied = ast@;
    match parse_nodes(tokens, 0, settings, ast) {
        Ok((out, consumed)) => {
            let mut rest: Vec<Token> = Vec::new();
            let mut k: usize = consumed;
            while k < tokens.len()
                invariant
                    consumed <= k && k <= tokens@.len(),
                    rest@.len() == k - consumed,
                    forall|t: int|
                        0 <= t < rest@.len() ==> #[trigger] rest@[t] == tokens@[consumed + t],
                decreases tokens@.len() - k,
            {
                rest.push(tokens[k].clone());
                k = k + 1;
            }
            proof {
                assert(rest@ =~= tokens@.skip(consumed as int));
            }
            Ok((out, rest))
        },
        Err(m) => Err(m),
    }
}

} // verus!
