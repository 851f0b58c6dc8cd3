//! The grammar of Cool over a sequence of tokens.
//!
//! Each rule is a function of the token sequence and the index of the token
//! where the phrase must begin. It answers with the tree of the phrase and the
//! index just behind it, or with the index of the token at which the rule
//! gave up. Alternatives are tried in the order they are written and the
//! first that fits is taken; a repetition takes as many items as fit, and an
//! optional part that does not fit is left out. A sequence gives up where its
//! first part that does not fit gives up, a choice where its last alternative
//! does; a repetition and an optional part never give up.

use crate::ptree::{
    BinaryOperator, CaseBranchView, ClassView, ExpressionDataView, ExpressionView, FeatureDataView,
    FeatureView, FormalView, ProgramView, UnaryOperator,
};
use crate::tokens::{SpanView, TokenKindView, TokenView};
use vstd::prelude::*;

verus! {

/// What a rule answers: the value of the phrase and the index behind it, or
/// the index of the token at which the rule gave up.
pub type Parsed<T> = Result<(T, int), int>;

/// The answer `r` of a rule applied at `p`, held to end behind `p` and inside
/// a sequence of `len` tokens. Every rule that recognises a phrase meets this
/// bound, as the laws of the parser show; writing it out lets a rule go on
/// from where another one ended.
pub open spec fn checked<T>(r: Parsed<T>, p: int, len: nat) -> Parsed<T> {
    match r {
        Ok((v, q)) => if p < q <= len {
            Ok((v, q))
        } else {
            Err(p)
        },
        Err(e) => Err(e),
    }
}

/// Whether the token at `p` has the kind `kind`.
pub open spec fn at(ts: Seq<TokenView>, p: int, kind: TokenKindView) -> bool {
    0 <= p < ts.len() && ts[p].kind == kind
}

/// An expression node that begins at the token at `p`.
pub open spec fn node(ts: Seq<TokenView>, p: int, data: ExpressionDataView) -> ExpressionView {
    ExpressionView { data, location: ts[p].location }
}

/// A type identifier.
pub open spec fn spec_type_id(ts: Seq<TokenView>, p: int) -> Parsed<Seq<char>> {
    if 0 <= p < ts.len() && ts[p].kind is TypeId {
        Ok((ts[p].kind->TypeId_0, p + 1))
    } else {
        Err(p)
    }
}

/// An object identifier.
pub open spec fn spec_ident(ts: Seq<TokenView>, p: int) -> Parsed<Seq<char>> {
    if 0 <= p < ts.len() && ts[p].kind is Ident {
        Ok((ts[p].kind->Ident_0, p + 1))
    } else {
        Err(p)
    }
}

/// The levels of infix operators, from the loosest to the tightest.
#[derive(Debug, Clone, Copy, PartialEq, Eq)]
pub enum Tier {
    /// `<=`, `<` and `=`
    Comparison,
    /// `+` and `-`
    Sum,
    /// `*` and `/`
    Product,
}

impl Tier {
    /// The infix operator of this level that a token kind spells.
    pub open spec fn operator(self, kind: TokenKindView) -> Option<BinaryOperator> {
        match (self, kind) {
            (Tier::Comparison, TokenKindView::LessThanOrEquals) => Some(
                BinaryOperator::LessThanOrEquals,
            ),
            (Tier::Comparison, TokenKindView::LessThan) => Some(BinaryOperator::LessThan),
            (Tier::Comparison, TokenKindView::Equals) => Some(BinaryOperator::Equals),
            (Tier::Sum, TokenKindView::Add) => Some(BinaryOperator::Add),
            (Tier::Sum, TokenKindView::Subtract) => Some(BinaryOperator::Subtract),
            (Tier::Product, TokenKindView::Multiply) => Some(BinaryOperator::Multiply),
            (Tier::Product, TokenKindView::Divide) => Some(BinaryOperator::Divide),
            _ => None,
        }
    }

    /// The height of the level in the order of rules.
    pub open spec fn rank(self) -> int {
        match self {
            Tier::Comparison => 90,
            Tier::Sum => 80,
            Tier::Product => 70,
        }
    }
}

/// An expression: an assignment, a `not`, or a chain of comparisons. An
/// assignment is a name, `<-` and an expression; a `not` is the word and an
/// expression. Both reach as far to the right as possible.
pub open spec fn spec_expression(ts: Seq<TokenView>, p: int) -> Parsed<ExpressionView>
    decreases ts.len() - p, 100int,
{
    if spec_assign(ts, p) is Ok {
        spec_assign(ts, p)
    } else if spec_bool_not_oper(ts, p) is Ok {
        spec_bool_not_oper(ts, p)
    } else {
        spec_binary(ts, p, Tier::Comparison)
    }
}

/// An assignment: name `<-` expression.
pub open spec fn spec_assign(ts: Seq<TokenView>, p: int) -> Parsed<ExpressionView>
    decreases ts.len() - p, 95int,
{
    if !(0 <= p < ts.len() && ts[p].kind is Ident) {
        Err(p)
    } else if !at(ts, p + 1, TokenKindView::Assign) {
        Err(p + 1)
    } else {
        match checked(spec_expression(ts, p + 2), p + 2, ts.len()) {
            Ok((value, q)) => Ok(
                (
                    node(ts, p, ExpressionDataView::Assign(ts[p].kind->Ident_0, Box::new(value))),
                    q,
                ),
            ),
            Err(e) => Err(e),
        }
    }
}

/// A negation: `not` expression.
pub open spec fn spec_bool_not_oper(ts: Seq<TokenView>, p: int) -> Parsed<ExpressionView>
    decreases ts.len() - p, 95int,
{
    if !at(ts, p, TokenKindView::Not) {
        Err(p)
    } else {
        match checked(spec_expression(ts, p + 1), p + 1, ts.len()) {
            Ok((operand, q)) => Ok(
                (
                    node(
                        ts,
                        p,
                        ExpressionDataView::UnaryOperation(UnaryOperator::Not, Box::new(operand)),
                    ),
                    q,
                ),
            ),
            Err(e) => Err(e),
        }
    }
}

/// A chain of infix operators of one level: an operand of the next tighter
/// level, then any number of operators of the level, each with such an
/// operand. The chain groups to the left.
pub open spec fn spec_binary(ts: Seq<TokenView>, p: int, tier: Tier) -> Parsed<ExpressionView>
    decreases ts.len() - p, tier.rank(),
{
    let first = match tier {
        Tier::Comparison => spec_binary(ts, p, Tier::Sum),
        Tier::Sum => spec_binary(ts, p, Tier::Product),
        Tier::Product => spec_operand(ts, p),
    };
    match checked(first, p, ts.len()) {
        Ok((left, q)) => Ok(spec_binary_tail(ts, q, tier, left)),
        Err(e) => Err(e),
    }
}

/// The rest of a chain of infix operators whose operands so far make up
/// `left`. An operator whose right operand does not fit ends the chain before
/// the operator. Every operation begins at its operator.
pub open spec fn spec_binary_tail(ts: Seq<TokenView>, q: int, tier: Tier, left: ExpressionView) -> (
    ExpressionView,
    int,
)
    decreases ts.len() - q, 5int,
{
    if !(0 <= q < ts.len()) {
        (left, q)
    } else {
        match tier.operator(ts[q].kind) {
            None => (left, q),
            Some(op) => {
                let operand = match tier {
                    Tier::Comparison => spec_binary(ts, q + 1, Tier::Sum),
                    Tier::Sum => spec_binary(ts, q + 1, Tier::Product),
                    Tier::Product => spec_operand(ts, q + 1),
                };
                match checked(operand, q + 1, ts.len()) {
                    Ok((right, r)) => spec_binary_tail(
                        ts,
                        r,
                        tier,
                        node(
                            ts,
                            q,
                            ExpressionDataView::BinaryOperation(
                                op,
                                Box::new(left),
                                Box::new(right),
                            ),
                        ),
                    ),
                    Err(_) => (left, q),
                }
            },
        }
    }
}

/// An `isvoid` test: `isvoid` and its operand, which is an `isvoid` test, a
/// negation or a term.
pub open spec fn spec_isvoid_oper(ts: Seq<TokenView>, p: int) -> Parsed<ExpressionView>
    decreases ts.len() - p, 55int,
{
    if !at(ts, p, TokenKindView::IsVoid) {
        Err(p)
    } else {
        match checked(spec_operand(ts, p + 1), p + 1, ts.len()) {
            Ok((operand, q)) => Ok(
                (
                    node(
                        ts,
                        p,
                        ExpressionDataView::UnaryOperation(
                            UnaryOperator::IsVoid,
                            Box::new(operand),
                        ),
                    ),
                    q,
                ),
            ),
            Err(e) => Err(e),
        }
    }
}

/// A negation: `~` and its operand, which is a negation or a term. `~`
/// binds tighter than `isvoid`, so an `isvoid` test is no operand of it.
pub open spec fn spec_negative_oper(ts: Seq<TokenView>, p: int) -> Parsed<ExpressionView>
    decreases ts.len() - p, 55int,
{
    if !at(ts, p, TokenKindView::Negative) {
        Err(p)
    } else {
        match checked(spec_negated(ts, p + 1), p + 1, ts.len()) {
            Ok((operand, q)) => Ok(
                (
                    node(
                        ts,
                        p,
                        ExpressionDataView::UnaryOperation(
                            UnaryOperator::Negative,
                            Box::new(operand),
                        ),
                    ),
                    q,
                ),
            ),
            Err(e) => Err(e),
        }
    }
}

/// An operand of `~`: a negation or a term.
pub open spec fn spec_negated(ts: Seq<TokenView>, p: int) -> Parsed<ExpressionView>
    decreases ts.len() - p, 57int,
{
    if spec_negative_oper(ts, p) is Ok {
        spec_negative_oper(ts, p)
    } else {
        spec_term(ts, p)
    }
}

/// An operand of `*` and `/`: an `isvoid` test, a negation or a term.
pub open spec fn spec_operand(ts: Seq<TokenView>, p: int) -> Parsed<ExpressionView>
    decreases ts.len() - p, 60int,
{
    if spec_isvoid_oper(ts, p) is Ok {
        spec_isvoid_oper(ts, p)
    } else if spec_negative_oper(ts, p) is Ok {
        spec_negative_oper(ts, p)
    } else {
        spec_term(ts, p)
    }
}

/// The arguments of a call: `(`, expressions separated by commas, `)`.
pub open spec fn spec_arguments(ts: Seq<TokenView>, p: int) -> Parsed<Seq<ExpressionView>>
    decreases ts.len() - p, 5int,
{
    if !at(ts, p, TokenKindView::OpenParens) {
        Err(p)
    } else {
        let (args, q) = match checked(spec_expression(ts, p + 1), p + 1, ts.len()) {
            Ok((first, q)) => spec_more_arguments(ts, q, seq![first]),
            Err(_) => (Seq::empty(), p + 1),
        };
        if at(ts, q, TokenKindView::CloseParens) {
            Ok((args, q + 1))
        } else {
            Err(q)
        }
    }
}

/// The arguments that follow the arguments `done`, each behind a comma. A
/// comma that no expression follows ends the list before the comma.
pub open spec fn spec_more_arguments(ts: Seq<TokenView>, q: int, done: Seq<ExpressionView>) -> (
    Seq<ExpressionView>,
    int,
)
    decreases ts.len() - q, 5int,
{
    if !at(ts, q, TokenKindView::Comma) {
        (done, q)
    } else {
        match checked(spec_expression(ts, q + 1), q + 1, ts.len()) {
            Ok((next, r)) => spec_more_arguments(ts, r, done.push(next)),
            Err(_) => (done, q),
        }
    }
}

/// A call: a method name and its arguments.
pub open spec fn spec_call(ts: Seq<TokenView>, p: int) -> Parsed<InvocationView>
    decreases ts.len() - p, 10int,
{
    if !(0 <= p < ts.len() && ts[p].kind is Ident) {
        Err(p)
    } else {
        match checked(spec_arguments(ts, p + 1), p + 1, ts.len()) {
            Ok((args, q)) => Ok((InvocationView { name: ts[p].kind->Ident_0, args }, q)),
            Err(e) => Err(e),
        }
    }
}

/// A dispatch without its receiver: the place of its dot, the class named
/// behind `@` if any, the method name and the arguments.
pub struct CallInfoView {
    pub location: SpanView,
    pub static_type: Option<Seq<char>>,
    pub name: Seq<char>,
    pub args: Seq<ExpressionView>,
}

/// A method name with its arguments.
pub struct InvocationView {
    pub name: Seq<char>,
    pub args: Seq<ExpressionView>,
}

/// The dispatch of `call` on `receiver`.
pub open spec fn dispatch(receiver: ExpressionView, call: CallInfoView) -> ExpressionView {
    ExpressionView {
        data: ExpressionDataView::MethodCall(
            Box::new(receiver),
            call.static_type,
            call.name,
            call.args,
        ),
        location: call.location,
    }
}

/// One dispatch chained to what stands before it: `.` call, or `@` class
/// `.` call. An `@` that no class follows is not taken.
pub open spec fn spec_chained_call(ts: Seq<TokenView>, q: int) -> Parsed<CallInfoView>
    decreases ts.len() - q, 15int,
{
    let typed = at(ts, q, TokenKindView::At) && 0 <= q + 1 < ts.len() && ts[q + 1].kind is TypeId;
    let dot = if typed {
        q + 2
    } else {
        q
    };
    if !at(ts, dot, TokenKindView::Dot) {
        Err(dot)
    } else {
        match checked(spec_call(ts, dot + 1), dot + 1, ts.len()) {
            Ok((call, r)) => Ok(
                (
                    CallInfoView {
                        location: ts[dot].location,
                        static_type: if typed {
                            Some(ts[q + 1].kind->TypeId_0)
                        } else {
                            None
                        },
                        name: call.name,
                        args: call.args,
                    },
                    r,
                ),
            ),
            Err(e) => Err(e),
        }
    }
}

/// The dispatches chained to `receiver`: each takes all that stands before
/// it as its receiver, and begins at its dot.
pub open spec fn spec_chained_calls(ts: Seq<TokenView>, q: int, receiver: ExpressionView) -> (
    ExpressionView,
    int,
)
    decreases ts.len() - q, 25int,
{
    match checked(spec_chained_call(ts, q), q, ts.len()) {
        Ok((call, r)) => spec_chained_calls(ts, r, dispatch(receiver, call)),
        Err(_) => (receiver, q),
    }
}

/// The receiver that a call without one is sent to.
pub open spec fn self_name() -> Seq<char> {
    "self"@
}

/// A call without a receiver, with the dispatches chained to it. The call is
/// sent to `self`; the call and its receiver begin at the method name.
pub open spec fn spec_implicit_self_method_call(ts: Seq<TokenView>, p: int) -> Parsed<
    ExpressionView,
>
    decreases ts.len() - p, 40int,
{
    match checked(spec_call(ts, p), p, ts.len()) {
        Ok((call, q)) => Ok(
            spec_chained_calls(
                ts,
                q,
                dispatch(
                    node(ts, p, ExpressionDataView::Object(self_name())),
                    CallInfoView {
                        location: ts[p].location,
                        static_type: None,
                        name: call.name,
                        args: call.args,
                    },
                ),
            ),
        ),
        Err(e) => Err(e),
    }
}

/// A value with the dispatches chained to it.
pub open spec fn spec_method_call(ts: Seq<TokenView>, p: int) -> Parsed<ExpressionView>
    decreases ts.len() - p, 40int,
{
    match checked(spec_value(ts, p), p, ts.len()) {
        Ok((value, q)) => Ok(spec_chained_calls(ts, q, value)),
        Err(e) => Err(e),
    }
}

/// A term: a call without a receiver, or else a value, with the dispatches
/// chained to it.
pub open spec fn spec_term(ts: Seq<TokenView>, p: int) -> Parsed<ExpressionView>
    decreases ts.len() - p, 50int,
{
    if spec_implicit_self_method_call(ts, p) is Ok {
        spec_implicit_self_method_call(ts, p)
    } else {
        spec_method_call(ts, p)
    }
}

/// A value: an expression in parentheses, a block, a conditional, a loop, a
/// case, a let, a `new`, a name or a literal. Parentheses leave no node of
/// their own.
pub open spec fn spec_value(ts: Seq<TokenView>, p: int) -> Parsed<ExpressionView>
    decreases ts.len() - p, 30int,
{
    if spec_parens_expression(ts, p) is Ok {
        spec_parens_expression(ts, p)
    } else if spec_expression_block(ts, p) is Ok {
        spec_expression_block(ts, p)
    } else if spec_conditional_expression(ts, p) is Ok {
        spec_conditional_expression(ts, p)
    } else if spec_loop_expression(ts, p) is Ok {
        spec_loop_expression(ts, p)
    } else if spec_case_expression(ts, p) is Ok {
        spec_case_expression(ts, p)
    } else if spec_let_expression(ts, p) is Ok {
        spec_let_expression(ts, p)
    } else if spec_new_object(ts, p) is Ok {
        spec_new_object(ts, p)
    } else if spec_object(ts, p) is Ok {
        spec_object(ts, p)
    } else {
        spec_literal(ts, p)
    }
}

/// `(` expression `)`
pub open spec fn spec_parens_expression(ts: Seq<TokenView>, p: int) -> Parsed<ExpressionView>
    decreases ts.len() - p, 20int,
{
    if !at(ts, p, TokenKindView::OpenParens) {
        Err(p)
    } else {
        match checked(spec_expression(ts, p + 1), p + 1, ts.len()) {
            Ok((inner, q)) => if at(ts, q, TokenKindView::CloseParens) {
                Ok((inner, q + 1))
            } else {
                Err(q)
            },
            Err(e) => Err(e),
        }
    }
}

/// An expression closed by a semicolon.
pub open spec fn spec_statement(ts: Seq<TokenView>, p: int) -> Parsed<ExpressionView>
    decreases ts.len() - p, 110int,
{
    match checked(spec_expression(ts, p), p, ts.len()) {
        Ok((e, q)) => if at(ts, q, TokenKindView::SemiColon) {
            Ok((e, q + 1))
        } else {
            Err(q)
        },
        Err(e) => Err(e),
    }
}

/// The statements that follow the statements `done`.
pub open spec fn spec_more_statements(ts: Seq<TokenView>, q: int, done: Seq<ExpressionView>) -> (
    Seq<ExpressionView>,
    int,
)
    decreases ts.len() - q, 120int,
{
    match checked(spec_statement(ts, q), q, ts.len()) {
        Ok((next, r)) => spec_more_statements(ts, r, done.push(next)),
        Err(_) => (done, q),
    }
}

/// A block: `{`, one or more statements, `}`.
pub open spec fn spec_expression_block(ts: Seq<TokenView>, p: int) -> Parsed<ExpressionView>
    decreases ts.len() - p, 20int,
{
    if !at(ts, p, TokenKindView::OpenBraces) {
        Err(p)
    } else {
        match checked(spec_statement(ts, p + 1), p + 1, ts.len()) {
            Ok((first, q)) => {
                let (body, r) = spec_more_statements(ts, q, seq![first]);
                if at(ts, r, TokenKindView::CloseBraces) {
                    Ok((node(ts, p, ExpressionDataView::Block(body)), r + 1))
                } else {
                    Err(r)
                }
            },
            Err(e) => Err(e),
        }
    }
}

/// `if` expression `then` expression `else` expression `fi`
pub open spec fn spec_conditional_expression(ts: Seq<TokenView>, p: int) -> Parsed<ExpressionView>
    decreases ts.len() - p, 20int,
{
    if !at(ts, p, TokenKindView::If) {
        Err(p)
    } else {
        match checked(spec_expression(ts, p + 1), p + 1, ts.len()) {
            Err(e) => Err(e),
            Ok((cond, q)) => if !at(ts, q, TokenKindView::Then) {
                Err(q)
            } else {
                match checked(spec_expression(ts, q + 1), q + 1, ts.len()) {
                    Err(e) => Err(e),
                    Ok((then_branch, r)) => if !at(ts, r, TokenKindView::Else) {
                        Err(r)
                    } else {
                        match checked(spec_expression(ts, r + 1), r + 1, ts.len()) {
                            Err(e) => Err(e),
                            Ok((else_branch, s)) => if !at(ts, s, TokenKindView::Fi) {
                                Err(s)
                            } else {
                                Ok(
                                    (
                                        node(
                                            ts,
                                            p,
                                            ExpressionDataView::Conditional(
                                                Box::new(cond),
                                                Box::new(then_branch),
                                                Box::new(else_branch),
                                            ),
                                        ),
                                        s + 1,
                                    ),
                                )
                            },
                        }
                    },
                }
            },
        }
    }
}

/// `while` expression `loop` expression `pool`
pub open spec fn spec_loop_expression(ts: Seq<TokenView>, p: int) -> Parsed<ExpressionView>
    decreases ts.len() - p, 20int,
{
    if !at(ts, p, TokenKindView::While) {
        Err(p)
    } else {
        match checked(spec_expression(ts, p + 1), p + 1, ts.len()) {
            Err(e) => Err(e),
            Ok((cond, q)) => if !at(ts, q, TokenKindView::Loop) {
                Err(q)
            } else {
                match checked(spec_expression(ts, q + 1), q + 1, ts.len()) {
                    Err(e) => Err(e),
                    Ok((body, r)) => if !at(ts, r, TokenKindView::Pool) {
                        Err(r)
                    } else {
                        Ok(
                            (
                                node(
                                    ts,
                                    p,
                                    ExpressionDataView::Loop(Box::new(cond), Box::new(body)),
                                ),
                                r + 1,
                            ),
                        )
                    },
                }
            },
        }
    }
}

/// A branch of a case: name `:` class `=>` expression `;`
pub open spec fn spec_case_branch(ts: Seq<TokenView>, p: int) -> Parsed<CaseBranchView>
    decreases ts.len() - p, 110int,
{
    if !(0 <= p < ts.len() && ts[p].kind is Ident) {
        Err(p)
    } else if !at(ts, p + 1, TokenKindView::Colon) {
        Err(p + 1)
    } else if !(0 <= p + 2 < ts.len() && ts[p + 2].kind is TypeId) {
        Err(p + 2)
    } else if !at(ts, p + 3, TokenKindView::DoubleArrow) {
        Err(p + 3)
    } else {
        match checked(spec_expression(ts, p + 4), p + 4, ts.len()) {
            Err(e) => Err(e),
            Ok((body, q)) => if !at(ts, q, TokenKindView::SemiColon) {
                Err(q)
            } else {
                Ok(
                    (
                        CaseBranchView {
                            ident: ts[p].kind->Ident_0,
                            type_id: ts[p + 2].kind->TypeId_0,
                            expression: body,
                            location: ts[p].location,
                        },
                        q + 1,
                    ),
                )
            },
        }
    }
}

/// The branches that follow the branches `done`.
pub open spec fn spec_more_branches(ts: Seq<TokenView>, q: int, done: Seq<CaseBranchView>) -> (
    Seq<CaseBranchView>,
    int,
)
    decreases ts.len() - q, 120int,
{
    match checked(spec_case_branch(ts, q), q, ts.len()) {
        Ok((next, r)) => spec_more_branches(ts, r, done.push(next)),
        Err(_) => (done, q),
    }
}

/// `case` expression `of`, one or more branches, `esac`
pub open spec fn spec_case_expression(ts: Seq<TokenView>, p: int) -> Parsed<ExpressionView>
    decreases ts.len() - p, 20int,
{
    if !at(ts, p, TokenKindView::Case) {
        Err(p)
    } else {
        match checked(spec_expression(ts, p + 1), p + 1, ts.len()) {
            Err(e) => Err(e),
            Ok((subject, q)) => if !at(ts, q, TokenKindView::Of) {
                Err(q)
            } else {
                match checked(spec_case_branch(ts, q + 1), q + 1, ts.len()) {
                    Err(e) => Err(e),
                    Ok((first, r)) => {
                        let (branches, s) = spec_more_branches(ts, r, seq![first]);
                        if !at(ts, s, TokenKindView::Esac) {
                            Err(s)
                        } else {
                            Ok(
                                (
                                    node(
                                        ts,
                                        p,
                                        ExpressionDataView::Case(Box::new(subject), branches),
                                    ),
                                    s + 1,
                                ),
                            )
                        }
                    },
                }
            },
        }
    }
}

/// One binding of a `let`.
pub struct BindingView {
    pub name: Seq<char>,
    pub type_id: Seq<char>,
    pub init: Option<ExpressionView>,
    pub location: SpanView,
}

/// The initial value that may follow a declaration: `<-` expression. Where
/// the expression does not fit there is no initial value, and the
/// declaration ends before the `<-`.
pub open spec fn spec_initializer(ts: Seq<TokenView>, p: int) -> (Option<ExpressionView>, int)
    decreases ts.len() - p, 110int,
{
    if !at(ts, p, TokenKindView::Assign) {
        (None, p)
    } else {
        match checked(spec_expression(ts, p + 1), p + 1, ts.len()) {
            Ok((value, q)) => (Some(value), q),
            Err(_) => (None, p),
        }
    }
}

/// A binding of a `let`: name `:` class, and an initial value if one
/// follows.
pub open spec fn spec_let_binding(ts: Seq<TokenView>, p: int) -> Parsed<BindingView>
    decreases ts.len() - p, 120int,
{
    if !(0 <= p < ts.len() && ts[p].kind is Ident) {
        Err(p)
    } else if !at(ts, p + 1, TokenKindView::Colon) {
        Err(p + 1)
    } else if !(0 <= p + 2 < ts.len() && ts[p + 2].kind is TypeId) {
        Err(p + 2)
    } else {
        let (init, q) = spec_initializer(ts, p + 3);
        Ok(
            (
                BindingView {
                    name: ts[p].kind->Ident_0,
                    type_id: ts[p + 2].kind->TypeId_0,
                    init,
                    location: ts[p].location,
                },
                q,
            ),
        )
    }
}

/// One more binding of a `let`: a comma and a binding.
pub open spec fn spec_next_binding(ts: Seq<TokenView>, q: int) -> Parsed<BindingView>
    decreases ts.len() - q, 125int,
{
    if at(ts, q, TokenKindView::Comma) {
        checked(spec_let_binding(ts, q + 1), q + 1, ts.len())
    } else {
        Err(q)
    }
}

/// What follows the bindings `done` of a `let`: a comma and one more
/// binding, any number of times, then `in` and the expression that the
/// bindings hold in. A comma that no binding follows is not taken.
pub open spec fn spec_let_rest(ts: Seq<TokenView>, q: int, done: Seq<BindingView>) -> Parsed<
    ExpressionView,
>
    decreases ts.len() - q, 130int,
{
    match checked(spec_next_binding(ts, q), q, ts.len()) {
        Ok((binding, r)) => spec_let_rest(ts, r, done.push(binding)),
        Err(_) => if !at(ts, q, TokenKindView::In) {
            Err(q)
        } else {
            match checked(spec_expression(ts, q + 1), q + 1, ts.len()) {
                Ok((body, s)) => Ok((nest_bindings(done, body), s)),
                Err(e) => Err(e),
            }
        },
    }
}

/// The nest of `let` nodes that binds `bindings` around `body`: the first
/// binding is outermost, the last one holds `body`, and every node begins at
/// the name that it binds.
pub open spec fn nest_bindings(bindings: Seq<BindingView>, body: ExpressionView) -> ExpressionView
    decreases bindings.len(),
{
    if bindings.len() == 0 {
        body
    } else {
        nest_bindings(bindings.drop_last(), let_node(bindings.last(), body))
    }
}

/// The `let` node of one binding around `body`.
pub open spec fn let_node(binding: BindingView, body: ExpressionView) -> ExpressionView {
    ExpressionView {
        data: ExpressionDataView::Let(
            binding.name,
            binding.type_id,
            match binding.init {
                Some(e) => Some(Box::new(e)),
                None => None,
            },
            Box::new(body),
        ),
        location: binding.location,
    }
}

/// `let`, one or more bindings separated by commas, `in`, expression
pub open spec fn spec_let_expression(ts: Seq<TokenView>, p: int) -> Parsed<ExpressionView>
    decreases ts.len() - p, 20int,
{
    if !at(ts, p, TokenKindView::Let) {
        Err(p)
    } else {
        match checked(spec_let_binding(ts, p + 1), p + 1, ts.len()) {
            Err(e) => Err(e),
            Ok((first, q)) => spec_let_rest(ts, q, seq![first]),
        }
    }
}

/// `new` class
pub open spec fn spec_new_object(ts: Seq<TokenView>, p: int) -> Parsed<ExpressionView> {
    if !at(ts, p, TokenKindView::New) {
        Err(p)
    } else if !(0 <= p + 1 < ts.len() && ts[p + 1].kind is TypeId) {
        Err(p + 1)
    } else {
        Ok((node(ts, p, ExpressionDataView::New(ts[p + 1].kind->TypeId_0)), p + 2))
    }
}

/// A name that stands for an object.
pub open spec fn spec_object(ts: Seq<TokenView>, p: int) -> Parsed<ExpressionView> {
    if 0 <= p < ts.len() && ts[p].kind is Ident {
        Ok((node(ts, p, ExpressionDataView::Object(ts[p].kind->Ident_0)), p + 1))
    } else {
        Err(p)
    }
}

/// A boolean, integer or string literal.
pub open spec fn spec_literal(ts: Seq<TokenView>, p: int) -> Parsed<ExpressionView> {
    if !(0 <= p < ts.len()) {
        Err(p)
    } else {
        match ts[p].kind {
            TokenKindView::BoolLiteral(b) => Ok(
                (node(ts, p, ExpressionDataView::BoolLiteral(b)), p + 1),
            ),
            TokenKindView::IntLiteral(i) => Ok(
                (node(ts, p, ExpressionDataView::IntLiteral(i)), p + 1),
            ),
            TokenKindView::StrLiteral(s) => Ok(
                (node(ts, p, ExpressionDataView::StrLiteral(s)), p + 1),
            ),
            _ => Err(p),
        }
    }
}

/// A formal: name `:` class.
pub open spec fn spec_formal(ts: Seq<TokenView>, p: int) -> Parsed<FormalView> {
    if !(0 <= p < ts.len() && ts[p].kind is Ident) {
        Err(p)
    } else if !at(ts, p + 1, TokenKindView::Colon) {
        Err(p + 1)
    } else if !(0 <= p + 2 < ts.len() && ts[p + 2].kind is TypeId) {
        Err(p + 2)
    } else {
        Ok(
            (
                FormalView {
                    name: ts[p].kind->Ident_0,
                    type_id: ts[p + 2].kind->TypeId_0,
                    location: ts[p].location,
                },
                p + 3,
            ),
        )
    }
}

/// The formals that follow the formals `done`, each behind a comma.
pub open spec fn spec_more_formals(ts: Seq<TokenView>, q: int, done: Seq<FormalView>) -> (
    Seq<FormalView>,
    int,
)
    decreases ts.len() - q,
{
    if !at(ts, q, TokenKindView::Comma) {
        (done, q)
    } else {
        match spec_formal(ts, q + 1) {
            Ok((next, r)) => spec_more_formals(ts, r, done.push(next)),
            Err(_) => (done, q),
        }
    }
}

/// The formals of a method: none, or formals separated by commas.
pub open spec fn spec_formals(ts: Seq<TokenView>, p: int) -> (Seq<FormalView>, int) {
    match spec_formal(ts, p) {
        Ok((first, q)) => spec_more_formals(ts, q, seq![first]),
        Err(_) => (Seq::empty(), p),
    }
}

/// An attribute: name `:` class, and an initial value if one follows.
pub open spec fn spec_attribute(ts: Seq<TokenView>, p: int) -> Parsed<FeatureView> {
    if !(0 <= p < ts.len() && ts[p].kind is Ident) {
        Err(p)
    } else if !at(ts, p + 1, TokenKindView::Colon) {
        Err(p + 1)
    } else if !(0 <= p + 2 < ts.len() && ts[p + 2].kind is TypeId) {
        Err(p + 2)
    } else {
        let (init, q) = spec_initializer(ts, p + 3);
        Ok(
            (
                FeatureView {
                    data: FeatureDataView::Attribute(
                        ts[p].kind->Ident_0,
                        ts[p + 2].kind->TypeId_0,
                        init,
                    ),
                    location: ts[p].location,
                },
                q,
            ),
        )
    }
}

/// A method: name `(` formals `)` `:` class `{` expression `}`
pub open spec fn spec_method(ts: Seq<TokenView>, p: int) -> Parsed<FeatureView> {
    if !(0 <= p < ts.len() && ts[p].kind is Ident) {
        Err(p)
    } else if !at(ts, p + 1, TokenKindView::OpenParens) {
        Err(p + 1)
    } else {
        let (formals, q) = spec_formals(ts, p + 2);
        if !at(ts, q, TokenKindView::CloseParens) {
            Err(q)
        } else if !at(ts, q + 1, TokenKindView::Colon) {
            Err(q + 1)
        } else if !(0 <= q + 2 < ts.len() && ts[q + 2].kind is TypeId) {
            Err(q + 2)
        } else if !at(ts, q + 3, TokenKindView::OpenBraces) {
            Err(q + 3)
        } else {
            match spec_expression(ts, q + 4) {
                Err(e) => Err(e),
                Ok((body, r)) => if !at(ts, r, TokenKindView::CloseBraces) {
                    Err(r)
                } else {
                    Ok(
                        (
                            FeatureView {
                                data: FeatureDataView::Method(
                                    ts[p].kind->Ident_0,
                                    ts[q + 2].kind->TypeId_0,
                                    formals,
                                    body,
                                ),
                                location: ts[p].location,
                            },
                            r + 1,
                        ),
                    )
                },
            }
        }
    }
}

/// A feature: an attribute or else a method, closed by a semicolon.
pub open spec fn spec_feature(ts: Seq<TokenView>, p: int) -> Parsed<FeatureView> {
    let member = if spec_attribute(ts, p) is Ok {
        spec_attribute(ts, p)
    } else {
        spec_method(ts, p)
    };
    match member {
        Err(e) => Err(e),
        Ok((feature, q)) => if at(ts, q, TokenKindView::SemiColon) {
            Ok((feature, q + 1))
        } else {
            Err(q)
        },
    }
}

/// The features that follow the features `done`.
pub open spec fn spec_features(ts: Seq<TokenView>, q: int, done: Seq<FeatureView>) -> (
    Seq<FeatureView>,
    int,
)
    decreases ts.len() - q,
{
    match checked(spec_feature(ts, q), q, ts.len()) {
        Ok((next, r)) => spec_features(ts, r, done.push(next)),
        Err(_) => (done, q),
    }
}

/// The class that every class without an `inherits` clause inherits from.
pub open spec fn root_class() -> Seq<char> {
    "Object"@
}

/// A class: `class` name, `inherits` and a class if they follow, `{`,
/// features, `}`. An `inherits` that no class follows is not taken. The class
/// begins at the word `class`, and inherits from `Object` where it names no
/// other class.
pub open spec fn spec_class(ts: Seq<TokenView>, p: int) -> Parsed<ClassView> {
    if !at(ts, p, TokenKindView::Class) {
        Err(p)
    } else if !(0 <= p + 1 < ts.len() && ts[p + 1].kind is TypeId) {
        Err(p + 1)
    } else {
        let inherits = at(ts, p + 2, TokenKindView::Inherits) && 0 <= p + 3 < ts.len() && ts[p
            + 3].kind is TypeId;
        let open = if inherits {
            p + 4
        } else {
            p + 2
        };
        let super_class_name = if inherits {
            ts[p + 3].kind->TypeId_0
        } else {
            root_class()
        };
        if !at(ts, open, TokenKindView::OpenBraces) {
            Err(open)
        } else {
            let (features, q) = spec_features(ts, open + 1, Seq::empty());
            if !at(ts, q, TokenKindView::CloseBraces) {
                Err(q)
            } else {
                Ok(
                    (
                        ClassView {
                            name: ts[p + 1].kind->TypeId_0,
                            super_class_name,
                            features,
                            location: ts[p].location,
                        },
                        q + 1,
                    ),
                )
            }
        }
    }
}

/// A class closed by a semicolon.
pub open spec fn spec_class_item(ts: Seq<TokenView>, p: int) -> Parsed<ClassView> {
    match spec_class(ts, p) {
        Err(e) => Err(e),
        Ok((class, q)) => if at(ts, q, TokenKindView::SemiColon) {
            Ok((class, q + 1))
        } else {
            Err(q)
        },
    }
}

/// The classes that follow the classes `done`.
pub open spec fn spec_classes(ts: Seq<TokenView>, q: int, done: Seq<ClassView>) -> (
    Seq<ClassView>,
    int,
)
    decreases ts.len() - q,
{
    match checked(spec_class_item(ts, q), q, ts.len()) {
        Ok((next, r)) => spec_classes(ts, r, done.push(next)),
        Err(_) => (done, q),
    }
}

/// A program: one or more classes, each closed by a semicolon, and nothing
/// behind the last semicolon.
pub open spec fn spec_program(ts: Seq<TokenView>, p: int) -> Parsed<ProgramView> {
    match checked(spec_class_item(ts, p), p, ts.len()) {
        Err(e) => Err(e),
        Ok((first, q)) => {
            let (classes, r) = spec_classes(ts, q, seq![first]);
            if r == ts.len() {
                Ok((ProgramView { classes }, r))
            } else {
                Err(r)
            }
        },
    }
}

} // verus!
