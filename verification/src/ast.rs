//! The abstract syntax tree the parser produces, with its mathematical view.
//!
//! Numeric literals carry their lexeme text: the tree records what was
//! written, and a later stage gives the text a numeric value.

use vstd::prelude::*;

verus! {

/// A top-level declaration: an external prototype or a function definition.
/// A bare expression is wrapped as an anonymous zero-argument function, so a
/// program is one homogeneous list of nodes.
#[derive(Debug, PartialEq)]
pub enum ASTNode {
    ExternNode(Prototype),
    FunctionNode(Function),
}

/// A function signature: its name and its parameter names in order.
#[derive(Debug, PartialEq)]
pub struct Prototype {
    pub name: String,
    pub args: Vec<String>,
}

/// A function definition: a prototype and exactly one body expression.
#[derive(Debug, PartialEq)]
pub struct Function {
    pub prototype: Prototype,
    pub body: Expression,
}

/// An expression tree.  Binary and unary nodes own their operands; a call
/// owns its argument expressions in order.
#[derive(Debug, PartialEq)]
pub enum Expression {
    /// A numeric literal, as its lexeme text.
    LiteralEpxr(String),
    /// A string literal, as its unquoted text.
    StringExpr(String),
    /// A reference to a variable.
    VariableExpr(String),
    /// A prefix operator applied to one operand.
    UnaryExpr(String, Box<Expression>),
    /// An infix operator applied to a left and a right operand.
    BinaryExpr(String, Box<Expression>, Box<Expression>),
    /// A call: the callee's name and the arguments in order.
    CallExpr(String, Vec<Expression>),
}

/// The mathematical value of an `Expression`.
pub enum ExprV {
    LiteralEpxr(Seq<char>),
    StringExpr(Seq<char>),
    VariableExpr(Seq<char>),
    UnaryExpr(Seq<char>, Box<ExprV>),
    BinaryExpr(Seq<char>, Box<ExprV>, Box<ExprV>),
    CallExpr(Seq<char>, Seq<ExprV>),
}

/// The mathematical value of a `Prototype`.
pub struct ProtoV {
    pub name: Seq<char>,
    pub args: Seq<Seq<char>>,
}

/// The mathematical value of a `Function`.
pub struct FuncV {
    pub prototype: ProtoV,
    pub body: ExprV,
}

/// The mathematical value of an `ASTNode`.
pub enum NodeV {
    ExternNode(ProtoV),
    FunctionNode(FuncV),
}

pub open spec fn expr_view(e: Expression) -> ExprV
    decreases e,
{
    match e {
        Expression::LiteralEpxr(s) => ExprV::LiteralEpxr(s@),
        Expression::StringExpr(s) => ExprV::StringExpr(s@),
        Expression::VariableExpr(s) => ExprV::VariableExpr(s@),
        Expression::UnaryExpr(op, inner) => ExprV::UnaryExpr(op@, Box::new(expr_view(*inner))),
        Expression::BinaryExpr(op, lhs, rhs) => ExprV::BinaryExpr(
            op@,
            Box::new(expr_view(*lhs)),
            Box::new(expr_view(*rhs)),
        ),
        Expression::CallExpr(name, args) => ExprV::CallExpr(name@, exprs_view(args@)),
    }
}

pub open spec fn exprs_view(s: Seq<Expression>) -> Seq<ExprV>
    decreases s,
{
    if s.len() == 0 {
        Seq::empty()
    } else {
        seq![expr_view(s[0])] + exprs_view(s.drop_first())
    }
}

/// The views of a sequence of parameter names.
pub open spec fn strings_view(s: Seq<String>) -> Seq<Seq<char>> {
    s.map_values(|x: String| x@)
}

pub open spec fn proto_view(p: Prototype) -> ProtoV {
    ProtoV { name: p.name@, args: strings_view(p.args@) }
}

pub open spec fn func_view(f: Function) -> FuncV {
    FuncV { prototype: proto_view(f.prototype), body: expr_view(f.body) }
}

pub open spec fn node_view(n: ASTNode) -> NodeV {
    match n {
        ASTNode::ExternNode(p) => NodeV::ExternNode(proto_view(p)),
        ASTNode::FunctionNode(f) => NodeV::FunctionNode(func_view(f)),
    }
}

/// The views of a list of declarations.
pub open spec fn nodes_view(s: Seq<ASTNode>) -> Seq<NodeV> {
    s.map_values(|n: ASTNode| node_view(n))
}

impl Prototype {
    pub fn new(name: String, args: Vec<String>) -> (r: Prototype)
        ensures
            r == (Prototype { name, args }),
    {
        Prototype { name, args }
    }
}

impl Function {
    pub fn new(prototype: Prototype, body: Expression) -> (r: Function)
        ensures
            r == (Function { prototype, body }),
    {
        Function { prototype, body }
    }
}

impl Clone for Expression {
    /// A clone is the same expression tree, seen through the view.
    fn clone(&self) -> (r: Self)
        ensures
            expr_view(r) == expr_view(*self),
        decreases *self,
    {
        match self {
            Expression::LiteralEpxr(s) => Expression::LiteralEpxr(s.clone()),
            Expression::StringExpr(s) => Expression::StringExpr(s.clone()),
            Expression::VariableExpr(s) => Expression::VariableExpr(s.clone()),
            Expression::UnaryExpr(op, inner) => Expression::UnaryExpr(
                op.clone(),
                Box::new((**inner).clone()),
            ),
            Expression::BinaryExpr(op, lhs, rhs) => Expression::BinaryExpr(
                op.clone(),
                Box::new((**lhs).clone()),
                Box::new((**rhs).clone()),
            ),
            Expression::CallExpr(name, args) => {
                let mut out: Vec<Expression> = Vec::new();
                let mut idx: usize = 0;
                while idx < args.len()
                    invariant
                        idx <= args@.len(),
                        out@.len() == idx,
                        *self is CallExpr,
                        (*self)->CallExpr_1 == *args,
                        forall|k: int|
                            0 <= k < idx ==> expr_view(#[trigger] out@[k]) == expr_view(args@[k]),
                    decreases args@.len() - idx,
                {
                    proof {
                        assert(*self is CallExpr);
                        assert((*self)->CallExpr_1 == *args);
                        assert(decreases_to!(*self => (*self)->CallExpr_1));
                        assert(decreases_to!(*args => args@));
                        assert(decreases_to!(args@ => args@[idx as int]));
                        assert(decreases_to!(*self => args@[idx as int]));
                    }
                    out.push(args[idx].clone());
                    idx = idx + 1;
                }
                proof {
                    lemma_exprs_view_len(out@);
                    lemma_exprs_view_len(args@);
                    assert forall|k: int| 0 <= k < exprs_view(out@).len() implies exprs_view(
                        out@,
                    )[k] == exprs_view(args@)[k] by {
                        assert(expr_view(out@[k]) == expr_view(args@[k]));
                    }
                    assert(exprs_view(out@) =~= exprs_view(args@));
                }
                Expression::CallExpr(name.clone(), out)
            },
        }
    }
}

impl Clone for Prototype {
    /// A clone is the same prototype, seen through the view.
    fn clone(&self) -> (r: Self)
        ensures
            proto_view(r) == proto_view(*self),
    {
        let mut args: Vec<String> = Vec::new();
        let mut idx: usize = 0;
        while idx < self.args.len()
            invariant
                idx <= self.args@.len(),
                args@.len() == idx,
                forall|k: int| 0 <= k < idx ==> #[trigger] args@[k] == self.args@[k],
            decreases self.args@.len() - idx,
        {
            args.push(self.args[idx].clone());
            idx = idx + 1;
        }
        proof {
            assert(args@ =~= self.args@);
        }
        Prototype { name: self.name.clone(), args }
    }
}

impl Clone for Function {
    /// A clone is the same function, seen through the view.
    fn clone(&self) -> (r: Self)
        ensures
            func_view(r) == func_view(*self),
    {
        Function { prototype: self.prototype.clone(), body: self.body.clone() }
    }
}

impl Clone for ASTNode {
    /// A clone is the same declaration, seen through the view.
    fn clone(&self) -> (r: Self)
        ensures
            node_view(r) == node_view(*self),
    {
        match self {
            ASTNode::ExternNode(p) => ASTNode::ExternNode(p.clone()),
            ASTNode::FunctionNode(f) => ASTNode::FunctionNode(f.clone()),
        }
    }
}

/// `exprs_view` is the element-wise view.
pub proof fn lemma_exprs_view_len(s: Seq<Expression>)
    ensures
        exprs_view(s).len() == s.len(),
        forall|i: int| 0 <= i < s.len() ==> exprs_view(s)[i] == expr_view(#[trigger] s[i]),
    decreases s,
{
    if s.len() > 0 {
        lemma_exprs_view_len(s.drop_first());
        assert forall|i: int| 0 <= i < s.len() implies exprs_view(s)[i] == expr_view(
            #[trigger] s[i],
        ) by {
            if i > 0 {
                assert(s.drop_first()[i - 1] == s[i]);
                assert(exprs_view(s)[i] == exprs_view(s.drop_first())[i - 1]);
            }
        }
    }
}

/// Appending one expression extends the view by its view.
pub proof fn lemma_exprs_view_push(s: Seq<Expression>, e: Expression)
    ensures
        exprs_view(s.push(e)) == exprs_view(s).push(expr_view(e)),
    decreases s,
{
    if s.len() == 0 {
        assert(s.push(e).drop_first() =~= Seq::<Expression>::empty());
        assert(s.push(e)[0] == e);
        assert(exprs_view(s.push(e)) == seq![expr_view(e)] + exprs_view(Seq::<Expression>::empty()));
        assert(seq![expr_view(e)] + Seq::<ExprV>::empty() =~= Seq::<ExprV>::empty().push(
            expr_view(e),
        ));
    } else {
        lemma_exprs_view_push(s.drop_first(), e);
        assert(s.push(e).drop_first() =~= s.drop_first().push(e));
        assert(s.push(e)[0] == s[0]);
        assert(exprs_view(s.push(e)) == seq![expr_view(s[0])] + exprs_view(s.drop_first()).push(
            expr_view(e),
        ));
        assert(seq![expr_view(s[0])] + exprs_view(s.drop_first()).push(expr_view(e)) =~= (seq![
            expr_view(s[0]),
        ] + exprs_view(s.drop_first())).push(expr_view(e)));
    }
}

} // verus!
