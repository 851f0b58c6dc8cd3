//! The parser: tokens to a parse tree.
//!
//! Every rule of the grammar has a function here that takes a window on the
//! tokens and answers with the window behind the phrase and the tree of the
//! phrase, or with an error that points at the token where the rule gave up.

pub mod grammar;
pub mod laws;

use crate::parser::grammar::{
    at, dispatch, nest_bindings, spec_arguments, spec_assign,
    spec_attribute, spec_binary, spec_binary_tail, spec_bool_not_oper, spec_call, spec_case_branch,
    spec_case_expression, spec_chained_call, spec_chained_calls, spec_class, spec_class_item,
    spec_classes, spec_conditional_expression, spec_expression, spec_expression_block,
    spec_feature, spec_features, spec_formal, spec_formals, spec_ident,
    spec_implicit_self_method_call, spec_initializer, spec_isvoid_oper, spec_negative_oper, spec_let_binding, spec_let_expression,
    spec_let_rest, spec_literal, spec_loop_expression, spec_method, spec_method_call,
    spec_more_arguments, spec_more_branches, spec_more_formals, spec_more_statements,
    spec_negated, spec_new_object, spec_next_binding, spec_object, spec_operand, spec_parens_expression,
    spec_program, spec_statement, spec_term, spec_type_id, spec_value, BindingView, CallInfoView,
    InvocationView, Parsed, Tier,
};
use crate::ptree::{
    branch_views, class_views, expression_views, feature_views, formal_views,
    lemma_branch_views_push, lemma_class_views_push, lemma_expression_views_push,
    lemma_feature_views_push, lemma_formal_views_push, BinaryOperator, CaseBranch, Class,
    Expression, ExpressionData, ExpressionView, Feature, FeatureData, Formal, Program,
    UnaryOperator,
};
use crate::tokens::{
    token_views, Ident, Span, SpanView, Token, TokenKind, TokenView, Tokens, TypeId,
};
use vstd::prelude::*;

verus! {

/// A failed parse: the index of the token where the rule gave up, and the
/// place of that token. There is no place where the tokens ran out.
#[derive(Debug, Clone, Copy, PartialEq)]
pub struct ParseError<'a> {
    pub at: usize,
    pub location: Option<Span<'a>>,
}

/// The mathematical value of a [`ParseError`].
pub struct ParseErrorView {
    pub at: int,
    pub location: Option<SpanView>,
}

impl<'a> View for ParseError<'a> {
    type V = ParseErrorView;

    open spec fn view(&self) -> ParseErrorView {
        ParseErrorView {
            at: self.at as int,
            location: match self.location {
                Some(l) => Some(l@),
                None => None,
            },
        }
    }
}

/// The error of a rule that gave up at the token with index `i`.
pub open spec fn error_at(ts: Seq<TokenView>, i: int) -> ParseErrorView {
    ParseErrorView {
        at: i,
        location: if 0 <= i < ts.len() {
            Some(ts[i].location)
        } else {
            None
        },
    }
}

/// Whether `rest` is the window `input` with the cursor moved on by at least
/// one token.
pub open spec fn advanced(rest: Tokens, input: Tokens) -> bool {
    rest.tokens() == input.tokens() && input.cursor() < rest.cursor() <= input.tokens().len()
}

/// Whether `rest` is the window `input` with the cursor where it was or
/// further on.
pub open spec fn continued(rest: Tokens, input: Tokens) -> bool {
    rest.tokens() == input.tokens() && 0 <= input.cursor() <= rest.cursor()
        <= input.tokens().len()
}

/// Whether the result `r` of parsing at `input` is what the rule `m` of the
/// grammar answers.
pub open spec fn parsed<T: View>(
    r: Result<(Tokens, T), ParseError>,
    input: Tokens,
    m: Parsed<T::V>,
) -> bool {
    match r {
        Ok((rest, v)) => advanced(rest, input) && m == Ok::<(T::V, int), int>((v@, rest.cursor())),
        Err(e) => m is Err && input.cursor() <= m->Err_0 <= input.tokens().len() && e@
            == error_at(input.tokens(), m->Err_0),
    }
}

/// The error of a rule that gives up at the cursor of `input`.
pub fn fail<'a>(input: Tokens<'a>) -> (e: ParseError<'a>)
    ensures
        e@ == error_at(input.tokens(), input.cursor()),
        0 <= input.cursor() <= input.tokens().len(),
{
    let location = match input.first() {
        Some(token) => Some(token.location),
        None => None,
    };
    ParseError { at: input.offset(), location }
}

/// The place of the token at the cursor. The cursor stays.
pub fn current_location<'a>(input: Tokens<'a>) -> (r: Result<(Tokens<'a>, Span<'a>), ParseError<'a>>)
    ensures
        0 <= input.cursor() <= input.tokens().len(),
        match r {
            Ok((rest, location)) => rest == input && input.cursor() < input.tokens().len()
                && location@ == input.tokens()[input.cursor()].location,
            Err(e) => input.cursor() == input.tokens().len() && e@ == error_at(
                input.tokens(),
                input.cursor(),
            ),
        },
{
    match input.first() {
        Some(token) => Ok((input, token.location)),
        None => Err(fail(input)),
    }
}

/// A token of the kind `kind` at the cursor: answers with its place.
pub fn expect<'a>(input: Tokens<'a>, kind: &TokenKind) -> (r: Result<
    (Tokens<'a>, Span<'a>),
    ParseError<'a>,
>)
    ensures
        0 <= input.cursor() <= input.tokens().len(),
        match r {
            Ok((rest, location)) => at(input.tokens(), input.cursor(), kind@) && rest.tokens()
                == input.tokens() && rest.cursor() == input.cursor() + 1 && location@
                == input.tokens()[input.cursor()].location,
            Err(e) => !at(input.tokens(), input.cursor(), kind@) && e@ == error_at(
                input.tokens(),
                input.cursor(),
            ),
        },
{
    match input.first() {
        Some(token) => if token.kind.is(kind) {
            Ok((input.advance(), token.location))
        } else {
            Err(fail(input))
        },
        None => Err(fail(input)),
    }
}

/// A type identifier at the cursor.
pub fn type_id<'a>(input: Tokens<'a>) -> (r: Result<(Tokens<'a>, TypeId), ParseError<'a>>)
    ensures
        parsed(r, input, spec_type_id(input.tokens(), input.cursor())),
{
    match input.first() {
        Some(token) => match &token.kind {
            TokenKind::TypeId(name) => Ok((input.advance(), name.clone())),
            _ => Err(fail(input)),
        },
        None => Err(fail(input)),
    }
}

/// An object identifier at the cursor.
pub fn ident<'a>(input: Tokens<'a>) -> (r: Result<(Tokens<'a>, Ident), ParseError<'a>>)
    ensures
        parsed(r, input, spec_ident(input.tokens(), input.cursor())),
{
    match input.first() {
        Some(token) => match &token.kind {
            TokenKind::Ident(name) => Ok((input.advance(), name.clone())),
            _ => Err(fail(input)),
        },
        None => Err(fail(input)),
    }
}

/// A boolean, integer or string literal.
pub fn literal<'a>(input: Tokens<'a>) -> (r: Result<(Tokens<'a>, Expression<'a>), ParseError<'a>>)
    ensures
        parsed(r, input, spec_literal(input.tokens(), input.cursor())),
{
    match input.first() {
        Some(token) => {
            let data = match &token.kind {
                TokenKind::BoolLiteral(b) => ExpressionData::BoolLiteral(*b),
                TokenKind::IntLiteral(i) => ExpressionData::IntLiteral(*i),
                TokenKind::StrLiteral(s) => ExpressionData::StrLiteral(s.clone()),
                _ => {
                    return Err(fail(input));
                },
            };
            Ok((input.advance(), Expression::new(data, token.location)))
        },
        None => Err(fail(input)),
    }
}

/// A name that stands for an object.
pub fn object<'a>(input: Tokens<'a>) -> (r: Result<(Tokens<'a>, Expression<'a>), ParseError<'a>>)
    ensures
        parsed(r, input, spec_object(input.tokens(), input.cursor())),
{
    let (_, location) = current_location(input)?;
    let (rest, name) = ident(input)?;
    Ok((rest, Expression::new(ExpressionData::Object(name), location)))
}

/// `new` class
pub fn new_object<'a>(input: Tokens<'a>) -> (r: Result<(Tokens<'a>, Expression<'a>), ParseError<'a>>)
    ensures
        parsed(r, input, spec_new_object(input.tokens(), input.cursor())),
{
    let (rest, location) = expect(input, &TokenKind::New)?;
    let (rest, name) = type_id(rest)?;
    Ok((rest, Expression::new(ExpressionData::New(name), location)))
}

/// A formal: name `:` class.
pub fn formal<'a>(input: Tokens<'a>) -> (r: Result<(Tokens<'a>, Formal<'a>), ParseError<'a>>)
    ensures
        parsed(r, input, spec_formal(input.tokens(), input.cursor())),
{
    let (_, location) = current_location(input)?;
    let (rest, name) = ident(input)?;
    let (rest, _) = expect(rest, &TokenKind::Colon)?;
    let (rest, type_id) = type_id(rest)?;
    Ok((rest, Formal::new(name, type_id, location)))
}

/// A method name with its arguments.
#[derive(Debug, PartialEq)]
pub struct Invocation<'a> {
    pub name: Ident,
    pub args: Vec<Expression<'a>>,
}

impl<'a> View for Invocation<'a> {
    type V = InvocationView;

    open spec fn view(&self) -> InvocationView {
        InvocationView { name: self.name@, args: expression_views(self.args@) }
    }
}

/// A dispatch without its receiver.
#[derive(Debug, PartialEq)]
pub struct CallInfo<'a> {
    pub location: Span<'a>,
    pub static_type: Option<TypeId>,
    pub name: Ident,
    pub args: Vec<Expression<'a>>,
}

impl<'a> View for CallInfo<'a> {
    type V = CallInfoView;

    open spec fn view(&self) -> CallInfoView {
        CallInfoView {
            location: self.location@,
            static_type: match self.static_type {
                Some(t) => Some(t@),
                None => None,
            },
            name: self.name@,
            args: expression_views(self.args@),
        }
    }
}

/// One binding of a `let`.
#[derive(Debug, PartialEq)]
pub struct Binding<'a> {
    pub name: Ident,
    pub type_id: TypeId,
    pub init: Option<Expression<'a>>,
    pub location: Span<'a>,
}

impl<'a> View for Binding<'a> {
    type V = BindingView;

    open spec fn view(&self) -> BindingView {
        BindingView {
            name: self.name@,
            type_id: self.type_id@,
            init: match self.init {
                Some(e) => Some(e@),
                None => None,
            },
            location: self.location@,
        }
    }
}

/// The values of a sequence of bindings.
pub open spec fn binding_views(bs: Seq<Binding>) -> Seq<BindingView> {
    Seq::new(bs.len(), |i: int| bs[i]@)
}

/// The values of bindings with one more pushed are the values with the
/// value of that one pushed.
pub proof fn lemma_binding_views_push(bs: Seq<Binding>, b: Binding)
    ensures
        binding_views(bs.push(b)) == binding_views(bs).push(b@),
{
    assert(binding_views(bs.push(b)) =~= binding_views(bs).push(b@));
}

/// The dispatch of `call` on `receiver`.
pub fn build_chained_call<'a>(receiver: Expression<'a>, call: CallInfo<'a>) -> (e: Expression<'a>)
    ensures
        e@ == dispatch(receiver@, call@),
{
    Expression::new(
        ExpressionData::MethodCall(Box::new(receiver), call.static_type, call.name, call.args),
        call.location,
    )
}

/// The operation `op` on `left` and `right` that begins at `location`.
pub fn build_binary_expr<'a>(
    left: Expression<'a>,
    op: BinaryOperator,
    location: Span<'a>,
    right: Expression<'a>,
) -> (e: Expression<'a>)
    ensures
        e.location == location,
        e.data == ExpressionData::BinaryOperation(op, Box::new(left), Box::new(right)),
{
    Expression::new(ExpressionData::BinaryOperation(op, Box::new(left), Box::new(right)), location)
}

/// The infix operator of level `tier` that a token kind spells.
pub fn operator_of(tier: Tier, kind: &TokenKind) -> (r: Option<BinaryOperator>)
    ensures
        r == tier.operator(kind@),
{
    match tier {
        Tier::Comparison => match kind {
            TokenKind::LessThanOrEquals => Some(BinaryOperator::LessThanOrEquals),
            TokenKind::LessThan => Some(BinaryOperator::LessThan),
            TokenKind::Equals => Some(BinaryOperator::Equals),
            _ => None,
        },
        Tier::Sum => match kind {
            TokenKind::Add => Some(BinaryOperator::Add),
            TokenKind::Subtract => Some(BinaryOperator::Subtract),
            _ => None,
        },
        Tier::Product => match kind {
            TokenKind::Multiply => Some(BinaryOperator::Multiply),
            TokenKind::Divide => Some(BinaryOperator::Divide),
            _ => None,
        },
    }
}

/// An expression.
pub fn expression<'a>(input: Tokens<'a>) -> (r: Result<(Tokens<'a>, Expression<'a>), ParseError<'a>>)
    ensures
        parsed(r, input, spec_expression(input.tokens(), input.cursor())),
    decreases input.tokens().len() - input.cursor(), 100int,
{
    match assign(input) {
        Ok(found) => Ok(found),
        Err(_) => match bool_not_oper(input) {
            Ok(found) => Ok(found),
            Err(_) => comparison_oper(input),
        },
    }
}

/// An assignment: name `<-` expression.
pub fn assign<'a>(input: Tokens<'a>) -> (r: Result<(Tokens<'a>, Expression<'a>), ParseError<'a>>)
    ensures
        parsed(r, input, spec_assign(input.tokens(), input.cursor())),
    decreases input.tokens().len() - input.cursor(), 95int,
{
    let (_, location) = current_location(input)?;
    let (rest, name) = ident(input)?;
    let (rest, _) = expect(rest, &TokenKind::Assign)?;
    let (rest, value) = expression(rest)?;
    Ok((rest, Expression::new(ExpressionData::Assign(name, Box::new(value)), location)))
}

/// A negation: `not` expression.
pub fn bool_not_oper<'a>(input: Tokens<'a>) -> (r: Result<
    (Tokens<'a>, Expression<'a>),
    ParseError<'a>,
>)
    ensures
        parsed(r, input, spec_bool_not_oper(input.tokens(), input.cursor())),
    decreases input.tokens().len() - input.cursor(), 95int,
{
    let (rest, location) = expect(input, &TokenKind::Not)?;
    let (rest, operand) = expression(rest)?;
    Ok(
        (
            rest,
            Expression::new(
                ExpressionData::UnaryOperation(UnaryOperator::Not, Box::new(operand)),
                location,
            ),
        ),
    )
}

/// A chain of comparisons.
pub fn comparison_oper<'a>(input: Tokens<'a>) -> (r: Result<
    (Tokens<'a>, Expression<'a>),
    ParseError<'a>,
>)
    ensures
        parsed(r, input, spec_binary(input.tokens(), input.cursor(), Tier::Comparison)),
    decreases input.tokens().len() - input.cursor(), 92int,
{
    binary(input, Tier::Comparison)
}

/// A chain of additions and subtractions.
pub fn add_sub_oper<'a>(input: Tokens<'a>) -> (r: Result<
    (Tokens<'a>, Expression<'a>),
    ParseError<'a>,
>)
    ensures
        parsed(r, input, spec_binary(input.tokens(), input.cursor(), Tier::Sum)),
    decreases input.tokens().len() - input.cursor(), 82int,
{
    binary(input, Tier::Sum)
}

/// A chain of multiplications and divisions.
pub fn mul_div_oper<'a>(input: Tokens<'a>) -> (r: Result<
    (Tokens<'a>, Expression<'a>),
    ParseError<'a>,
>)
    ensures
        parsed(r, input, spec_binary(input.tokens(), input.cursor(), Tier::Product)),
    decreases input.tokens().len() - input.cursor(), 72int,
{
    binary(input, Tier::Product)
}

/// An operand of the operators of level `tier`: a chain of the next tighter
/// level, or an operand of `*` and `/`.
fn tighter<'a>(input: Tokens<'a>, tier: Tier) -> (r: Result<
    (Tokens<'a>, Expression<'a>),
    ParseError<'a>,
>)
    ensures
        parsed(
            r,
            input,
            match tier {
                Tier::Comparison => spec_binary(input.tokens(), input.cursor(), Tier::Sum),
                Tier::Sum => spec_binary(input.tokens(), input.cursor(), Tier::Product),
                Tier::Product => spec_operand(input.tokens(), input.cursor()),
            },
        ),
    decreases input.tokens().len() - input.cursor(), tier.rank() - 5,
{
    match tier {
        Tier::Comparison => add_sub_oper(input),
        Tier::Sum => mul_div_oper(input),
        Tier::Product => operand(input),
    }
}

/// A chain of infix operators of level `tier`.
pub fn binary<'a>(input: Tokens<'a>, tier: Tier) -> (r: Result<
    (Tokens<'a>, Expression<'a>),
    ParseError<'a>,
>)
    ensures
        parsed(r, input, spec_binary(input.tokens(), input.cursor(), tier)),
    decreases input.tokens().len() - input.cursor(), tier.rank(),
{
    let (first_rest, first) = tighter(input, tier)?;
    let ghost ts = input.tokens();
    let ghost start = first_rest.cursor();
    let ghost first_view = first@;
    let mut rest = first_rest;
    let mut left = first;
    let mut more = true;
    while more
        invariant
            ts == input.tokens(),
            rest.tokens() == ts,
            input.cursor() < rest.cursor() <= ts.len(),
            spec_binary_tail(ts, start, tier, first_view) == spec_binary_tail(
                ts,
                rest.cursor(),
                tier,
                left@,
            ),
            !more ==> spec_binary_tail(ts, rest.cursor(), tier, left@) == (left@, rest.cursor()),
        decreases ts.len() - rest.cursor(), if more { 1int } else { 0int },
    {
        more = false;
        if let Some(token) = rest.first() {
            if let Some(op) = operator_of(tier, &token.kind) {
                if let Ok((after, right)) = tighter(rest.advance(), tier) {
                    left = build_binary_expr(left, op, token.location, right);
                    rest = after;
                    more = true;
                }
            }
        }
    }
    Ok((rest, left))
}

/// An `isvoid` test: `isvoid` and its operand, which is an `isvoid` test, a
/// negation or a term.
pub fn isvoid_oper<'a>(input: Tokens<'a>) -> (r: Result<
    (Tokens<'a>, Expression<'a>),
    ParseError<'a>,
>)
    ensures
        parsed(r, input, spec_isvoid_oper(input.tokens(), input.cursor())),
    decreases input.tokens().len() - input.cursor(), 55int,
{
    let (rest, location) = expect(input, &TokenKind::IsVoid)?;
    let (rest, operand) = operand(rest)?;
    Ok(
        (
            rest,
            Expression::new(
                ExpressionData::UnaryOperation(UnaryOperator::IsVoid, Box::new(operand)),
                location,
            ),
        ),
    )
}

/// An operand of `~`: a negation or a term.
pub fn negated<'a>(input: Tokens<'a>) -> (r: Result<(Tokens<'a>, Expression<'a>), ParseError<'a>>)
    ensures
        parsed(r, input, spec_negated(input.tokens(), input.cursor())),
    decreases input.tokens().len() - input.cursor(), 57int,
{
    match negative_oper(input) {
        Ok(found) => Ok(found),
        Err(_) => term(input),
    }
}

/// A negation: `~` and its operand, which is a negation or a term.
pub fn negative_oper<'a>(input: Tokens<'a>) -> (r: Result<
    (Tokens<'a>, Expression<'a>),
    ParseError<'a>,
>)
    ensures
        parsed(r, input, spec_negative_oper(input.tokens(), input.cursor())),
    decreases input.tokens().len() - input.cursor(), 55int,
{
    let (rest, location) = expect(input, &TokenKind::Negative)?;
    let (rest, operand) = negated(rest)?;
    Ok(
        (
            rest,
            Expression::new(
                ExpressionData::UnaryOperation(UnaryOperator::Negative, Box::new(operand)),
                location,
            ),
        ),
    )
}

/// An operand of `*` and `/`: an `isvoid` test, a negation or a term.
pub fn operand<'a>(input: Tokens<'a>) -> (r: Result<(Tokens<'a>, Expression<'a>), ParseError<'a>>)
    ensures
        parsed(r, input, spec_operand(input.tokens(), input.cursor())),
    decreases input.tokens().len() - input.cursor(), 60int,
{
    match isvoid_oper(input) {
        Ok(found) => Ok(found),
        Err(_) => match negative_oper(input) {
            Ok(found) => Ok(found),
            Err(_) => term(input),
        },
    }
}

/// A term: a call without a receiver, or else a value, with the dispatches
/// chained to it.
pub fn term<'a>(input: Tokens<'a>) -> (r: Result<(Tokens<'a>, Expression<'a>), ParseError<'a>>)
    ensures
        parsed(r, input, spec_term(input.tokens(), input.cursor())),
    decreases input.tokens().len() - input.cursor(), 50int,
{
    match implicit_self_method_call(input) {
        Ok(found) => Ok(found),
        Err(_) => method_call(input),
    }
}

/// A call without a receiver, with the dispatches chained to it.
pub fn implicit_self_method_call<'a>(input: Tokens<'a>) -> (r: Result<
    (Tokens<'a>, Expression<'a>),
    ParseError<'a>,
>)
    ensures
        parsed(r, input, spec_implicit_self_method_call(input.tokens(), input.cursor())),
    decreases input.tokens().len() - input.cursor(), 40int,
{
    let (_, location) = current_location(input)?;
    let (rest, invocation) = call(input)?;
    let receiver = Expression::new(ExpressionData::Object(String::from_str("self")), location);
    let first = CallInfo {
        location,
        static_type: None,
        name: invocation.name,
        args: invocation.args,
    };
    let (rest, chain) = chained_calls(rest, build_chained_call(receiver, first));
    Ok((rest, chain))
}

/// A value with the dispatches chained to it.
pub fn method_call<'a>(input: Tokens<'a>) -> (r: Result<
    (Tokens<'a>, Expression<'a>),
    ParseError<'a>,
>)
    ensures
        parsed(r, input, spec_method_call(input.tokens(), input.cursor())),
    decreases input.tokens().len() - input.cursor(), 40int,
{
    let (rest, receiver) = value(input)?;
    let (rest, chain) = chained_calls(rest, receiver);
    Ok((rest, chain))
}

/// The dispatches chained to `receiver`.
pub fn chained_calls<'a>(input: Tokens<'a>, receiver: Expression<'a>) -> (r: (
    Tokens<'a>,
    Expression<'a>,
))
    ensures
        continued(r.0, input),
        spec_chained_calls(input.tokens(), input.cursor(), receiver@) == (r.1@, r.0.cursor()),
    decreases input.tokens().len() - input.cursor(), 25int,
{
    let ghost ts = input.tokens();
    let ghost start = input.cursor();
    let ghost first_view = receiver@;
    let mut rest = input;
    let mut chain = receiver;
    let mut more = true;
    let _ = input.input_len();
    while more
        invariant
            ts == input.tokens(),
            rest.tokens() == ts,
            0 <= input.cursor() <= rest.cursor() <= ts.len(),
            spec_chained_calls(ts, start, first_view) == spec_chained_calls(
                ts,
                rest.cursor(),
                chain@,
            ),
            !more ==> spec_chained_calls(ts, rest.cursor(), chain@) == (chain@, rest.cursor()),
        decreases ts.len() - rest.cursor(), if more { 1int } else { 0int },
    {
        more = false;
        if let Ok((after, call)) = chained_call(rest) {
            chain = build_chained_call(chain, call);
            rest = after;
            more = true;
        }
    }
    (rest, chain)
}

/// One dispatch chained to what stands before it: `.` call, or `@` class
/// `.` call.
pub fn chained_call<'a>(input: Tokens<'a>) -> (r: Result<(Tokens<'a>, CallInfo<'a>), ParseError<'a>>)
    ensures
        parsed(r, input, spec_chained_call(input.tokens(), input.cursor())),
    decreases input.tokens().len() - input.cursor(), 15int,
{
    let (rest, static_type) = match expect(input, &TokenKind::At) {
        Ok((after_at, _)) => match type_id(after_at) {
            Ok((after_type, name)) => (after_type, Some(name)),
            Err(_) => (input, None),
        },
        Err(_) => (input, None),
    };
    let (rest, location) = expect(rest, &TokenKind::Dot)?;
    let (rest, invocation) = call(rest)?;
    Ok((rest, CallInfo { location, static_type, name: invocation.name, args: invocation.args }))
}

/// A call: a method name and its arguments.
pub fn call<'a>(input: Tokens<'a>) -> (r: Result<(Tokens<'a>, Invocation<'a>), ParseError<'a>>)
    ensures
        parsed(r, input, spec_call(input.tokens(), input.cursor())),
    decreases input.tokens().len() - input.cursor(), 10int,
{
    let (rest, name) = ident(input)?;
    let (rest, args) = arguments(rest)?;
    Ok((rest, Invocation { name, args }))
}

/// The arguments of a call: `(`, expressions separated by commas, `)`.
pub fn arguments<'a>(input: Tokens<'a>) -> (r: Result<
    (Tokens<'a>, Vec<Expression<'a>>),
    ParseError<'a>,
>)
    ensures
        match r {
            Ok((rest, args)) => advanced(rest, input) && spec_arguments(
                input.tokens(),
                input.cursor(),
            ) == Ok::<(Seq<ExpressionView>, int), int>((expression_views(args@), rest.cursor())),
            Err(e) => spec_arguments(input.tokens(), input.cursor()) is Err && input.cursor()
                <= spec_arguments(input.tokens(), input.cursor())->Err_0 <= input.tokens().len()
                && e@ == error_at(
                input.tokens(),
                spec_arguments(input.tokens(), input.cursor())->Err_0,
            ),
        },
    decreases input.tokens().len() - input.cursor(), 5int,
{
    let (open, _) = expect(input, &TokenKind::OpenParens)?;
    let ghost ts = input.tokens();
    let mut args: Vec<Expression<'a>> = Vec::new();
    let mut rest = open;
    match expression(open) {
        Ok((after, first)) => {
            proof {
                lemma_expression_views_push(args@, first);
                assert(expression_views(args@) == Seq::<ExpressionView>::empty());
                assert(Seq::<ExpressionView>::empty().push(first@) == seq![first@]);
            }
            args.push(first);
            rest = after;
            let ghost start = after.cursor();
            let ghost first_views = expression_views(args@);
            let mut more = true;
            while more
                invariant
                    ts == input.tokens(),
                    rest.tokens() == ts,
                    input.cursor() < rest.cursor() <= ts.len(),
                    spec_more_arguments(ts, start, first_views) == spec_more_arguments(
                        ts,
                        rest.cursor(),
                        expression_views(args@),
                    ),
                    !more ==> spec_more_arguments(ts, rest.cursor(), expression_views(args@)) == (
                        expression_views(args@),
                        rest.cursor(),
                    ),
                decreases ts.len() - rest.cursor(), if more { 1int } else { 0int },
            {
                more = false;
                if let Ok((after_comma, _)) = expect(rest, &TokenKind::Comma) {
                    if let Ok((after_arg, arg)) = expression(after_comma) {
                        proof {
                            lemma_expression_views_push(args@, arg);
                        }
                        args.push(arg);
                        rest = after_arg;
                        more = true;
                    }
                }
            }
        },
        Err(_) => {
            assert(expression_views(args@) == Seq::<ExpressionView>::empty());
        },
    }
    let (rest, _) = expect(rest, &TokenKind::CloseParens)?;
    Ok((rest, args))
}

/// A value: an expression in parentheses, a block, a conditional, a loop, a
/// case, a let, a `new`, a name or a literal.
pub fn value<'a>(input: Tokens<'a>) -> (r: Result<(Tokens<'a>, Expression<'a>), ParseError<'a>>)
    ensures
        parsed(r, input, spec_value(input.tokens(), input.cursor())),
    decreases input.tokens().len() - input.cursor(), 30int,
{
    if let Ok(found) = parens_expression(input) {
        return Ok(found);
    }
    if let Ok(found) = expression_block(input) {
        return Ok(found);
    }
    if let Ok(found) = conditional_expression(input) {
        return Ok(found);
    }
    if let Ok(found) = loop_expression(input) {
        return Ok(found);
    }
    if let Ok(found) = case_expression(input) {
        return Ok(found);
    }
    if let Ok(found) = let_expression(input) {
        return Ok(found);
    }
    if let Ok(found) = new_object(input) {
        return Ok(found);
    }
    if let Ok(found) = object(input) {
        return Ok(found);
    }
    literal(input)
}

/// `(` expression `)`
pub fn parens_expression<'a>(input: Tokens<'a>) -> (r: Result<
    (Tokens<'a>, Expression<'a>),
    ParseError<'a>,
>)
    ensures
        parsed(r, input, spec_parens_expression(input.tokens(), input.cursor())),
    decreases input.tokens().len() - input.cursor(), 20int,
{
    let (rest, _) = expect(input, &TokenKind::OpenParens)?;
    let (rest, inner) = expression(rest)?;
    let (rest, _) = expect(rest, &TokenKind::CloseParens)?;
    Ok((rest, inner))
}

/// An expression closed by a semicolon.
pub fn statement<'a>(input: Tokens<'a>) -> (r: Result<(Tokens<'a>, Expression<'a>), ParseError<'a>>)
    ensures
        parsed(r, input, spec_statement(input.tokens(), input.cursor())),
    decreases input.tokens().len() - input.cursor(), 110int,
{
    let (rest, e) = expression(input)?;
    let (rest, _) = expect(rest, &TokenKind::SemiColon)?;
    Ok((rest, e))
}

/// A block: `{`, one or more statements, `}`.
pub fn expression_block<'a>(input: Tokens<'a>) -> (r: Result<
    (Tokens<'a>, Expression<'a>),
    ParseError<'a>,
>)
    ensures
        parsed(r, input, spec_expression_block(input.tokens(), input.cursor())),
    decreases input.tokens().len() - input.cursor(), 20int,
{
    let (open, location) = expect(input, &TokenKind::OpenBraces)?;
    let (after, first) = statement(open)?;
    let ghost ts = input.tokens();
    let mut body: Vec<Expression<'a>> = Vec::new();
    proof {
        lemma_expression_views_push(body@, first);
        assert(expression_views(body@) == Seq::<ExpressionView>::empty());
        assert(Seq::<ExpressionView>::empty().push(first@) == seq![first@]);
    }
    body.push(first);
    let mut rest = after;
    let ghost start = after.cursor();
    let ghost first_views = expression_views(body@);
    let mut more = true;
    while more
        invariant
            ts == input.tokens(),
            rest.tokens() == ts,
            input.cursor() < rest.cursor() <= ts.len(),
            spec_more_statements(ts, start, first_views) == spec_more_statements(
                ts,
                rest.cursor(),
                expression_views(body@),
            ),
            !more ==> spec_more_statements(ts, rest.cursor(), expression_views(body@)) == (
                expression_views(body@),
                rest.cursor(),
            ),
        decreases ts.len() - rest.cursor(), if more { 1int } else { 0int },
    {
        more = false;
        if let Ok((after_item, item)) = statement(rest) {
            proof {
                lemma_expression_views_push(body@, item);
            }
            body.push(item);
            rest = after_item;
            more = true;
        }
    }
    let (rest, _) = expect(rest, &TokenKind::CloseBraces)?;
    Ok((rest, Expression::new(ExpressionData::Block(body), location)))
}

/// `if` expression `then` expression `else` expression `fi`
pub fn conditional_expression<'a>(input: Tokens<'a>) -> (r: Result<
    (Tokens<'a>, Expression<'a>),
    ParseError<'a>,
>)
    ensures
        parsed(r, input, spec_conditional_expression(input.tokens(), input.cursor())),
    decreases input.tokens().len() - input.cursor(), 20int,
{
    let (rest, location) = expect(input, &TokenKind::If)?;
    let (rest, cond) = expression(rest)?;
    let (rest, _) = expect(rest, &TokenKind::Then)?;
    let (rest, then_branch) = expression(rest)?;
    let (rest, _) = expect(rest, &TokenKind::Else)?;
    let (rest, else_branch) = expression(rest)?;
    let (rest, _) = expect(rest, &TokenKind::Fi)?;
    Ok(
        (
            rest,
            Expression::new(
                ExpressionData::Conditional(
                    Box::new(cond),
                    Box::new(then_branch),
                    Box::new(else_branch),
                ),
                location,
            ),
        ),
    )
}

/// `while` expression `loop` expression `pool`
pub fn loop_expression<'a>(input: Tokens<'a>) -> (r: Result<
    (Tokens<'a>, Expression<'a>),
    ParseError<'a>,
>)
    ensures
        parsed(r, input, spec_loop_expression(input.tokens(), input.cursor())),
    decreases input.tokens().len() - input.cursor(), 20int,
{
    let (rest, location) = expect(input, &TokenKind::While)?;
    let (rest, cond) = expression(rest)?;
    let (rest, _) = expect(rest, &TokenKind::Loop)?;
    let (rest, body) = expression(rest)?;
    let (rest, _) = expect(rest, &TokenKind::Pool)?;
    Ok((rest, Expression::new(ExpressionData::Loop(Box::new(cond), Box::new(body)), location)))
}

/// A branch of a case: name `:` class `=>` expression `;`
pub fn case_branch<'a>(input: Tokens<'a>) -> (r: Result<(Tokens<'a>, CaseBranch<'a>), ParseError<'a>>)
    ensures
        parsed(r, input, spec_case_branch(input.tokens(), input.cursor())),
    decreases input.tokens().len() - input.cursor(), 110int,
{
    let (_, location) = current_location(input)?;
    let (rest, name) = ident(input)?;
    let (rest, _) = expect(rest, &TokenKind::Colon)?;
    let (rest, type_id) = type_id(rest)?;
    let (rest, _) = expect(rest, &TokenKind::DoubleArrow)?;
    let (rest, body) = expression(rest)?;
    let (rest, _) = expect(rest, &TokenKind::SemiColon)?;
    Ok((rest, CaseBranch::new(name, type_id, body, location)))
}

/// `case` expression `of`, one or more branches, `esac`
pub fn case_expression<'a>(input: Tokens<'a>) -> (r: Result<
    (Tokens<'a>, Expression<'a>),
    ParseError<'a>,
>)
    ensures
        parsed(r, input, spec_case_expression(input.tokens(), input.cursor())),
    decreases input.tokens().len() - input.cursor(), 20int,
{
    let (rest, location) = expect(input, &TokenKind::Case)?;
    let (rest, subject) = expression(rest)?;
    let (rest, _) = expect(rest, &TokenKind::Of)?;
    let (after, first) = case_branch(rest)?;
    let ghost ts = input.tokens();
    let mut branches: Vec<CaseBranch<'a>> = Vec::new();
    proof {
        lemma_branch_views_push(branches@, first);
        assert(branch_views(branches@) == Seq::<crate::ptree::CaseBranchView>::empty());
        assert(Seq::<crate::ptree::CaseBranchView>::empty().push(first@) == seq![first@]);
    }
    branches.push(first);
    let mut rest = after;
    let ghost start = after.cursor();
    let ghost first_views = branch_views(branches@);
    let mut more = true;
    while more
        invariant
            ts == input.tokens(),
            rest.tokens() == ts,
            input.cursor() < rest.cursor() <= ts.len(),
            spec_more_branches(ts, start, first_views) == spec_more_branches(
                ts,
                rest.cursor(),
                branch_views(branches@),
            ),
            !more ==> spec_more_branches(ts, rest.cursor(), branch_views(branches@)) == (
                branch_views(branches@),
                rest.cursor(),
            ),
        decreases ts.len() - rest.cursor(), if more { 1int } else { 0int },
    {
        more = false;
        if let Ok((after_item, item)) = case_branch(rest) {
            proof {
                lemma_branch_views_push(branches@, item);
            }
            branches.push(item);
            rest = after_item;
            more = true;
        }
    }
    let (rest, _) = expect(rest, &TokenKind::Esac)?;
    Ok((rest, Expression::new(ExpressionData::Case(Box::new(subject), branches), location)))
}

/// The initial value that may follow a declaration: `<-` expression.
pub fn initializer<'a>(input: Tokens<'a>) -> (r: (Tokens<'a>, Option<Expression<'a>>))
    ensures
        continued(r.0, input),
        spec_initializer(input.tokens(), input.cursor()) == (
            match r.1 {
                Some(e) => Some(e@),
                None => None,
            },
            r.0.cursor(),
        ),
    decreases input.tokens().len() - input.cursor(), 110int,
{
    match expect(input, &TokenKind::Assign) {
        Ok((rest, _)) => match expression(rest) {
            Ok((rest, value)) => (rest, Some(value)),
            Err(_) => (input, None),
        },
        Err(_) => (input, None),
    }
}

/// A binding of a `let`: name `:` class, and an initial value if one
/// follows.
pub fn let_binding<'a>(input: Tokens<'a>) -> (r: Result<(Tokens<'a>, Binding<'a>), ParseError<'a>>)
    ensures
        parsed(r, input, spec_let_binding(input.tokens(), input.cursor())),
    decreases input.tokens().len() - input.cursor(), 120int,
{
    let (_, location) = current_location(input)?;
    let (rest, name) = ident(input)?;
    let (rest, _) = expect(rest, &TokenKind::Colon)?;
    let (rest, type_id) = type_id(rest)?;
    let (rest, init) = initializer(rest);
    Ok((rest, Binding { name, type_id, init, location }))
}

/// `let`, one or more bindings separated by commas, `in`, expression
pub fn let_expression<'a>(input: Tokens<'a>) -> (r: Result<
    (Tokens<'a>, Expression<'a>),
    ParseError<'a>,
>)
    ensures
        parsed(r, input, spec_let_expression(input.tokens(), input.cursor())),
    decreases input.tokens().len() - input.cursor(), 20int,
{
    let (rest, _) = expect(input, &TokenKind::Let)?;
    let (after, first) = let_binding(rest)?;
    let ghost ts = input.tokens();
    let mut bindings: Vec<Binding<'a>> = Vec::new();
    proof {
        lemma_binding_views_push(bindings@, first);
        assert(binding_views(bindings@) == Seq::<BindingView>::empty());
        assert(Seq::<BindingView>::empty().push(first@) == seq![first@]);
    }
    bindings.push(first);
    let mut rest = after;
    let ghost start = after.cursor();
    let ghost first_views = binding_views(bindings@);
    let mut more = true;
    while more
        invariant
            ts == input.tokens(),
            rest.tokens() == ts,
            input.cursor() < rest.cursor() <= ts.len(),
            spec_let_rest(ts, start, first_views) == spec_let_rest(
                ts,
                rest.cursor(),
                binding_views(bindings@),
            ),
            !more ==> spec_next_binding(ts, rest.cursor()) is Err,
        decreases ts.len() - rest.cursor(), if more { 1int } else { 0int },
    {
        more = false;
        let ghost here = rest.cursor();
        let ghost done = binding_views(bindings@);
        if let Ok((after_comma, _)) = expect(rest, &TokenKind::Comma) {
            if let Ok((after_item, item)) = let_binding(after_comma) {
                proof {
                    lemma_binding_views_push(bindings@, item);
                    assert(spec_next_binding(ts, here) == Ok::<(BindingView, int), int>(
                        (item@, after_item.cursor()),
                    ));
                    assert(spec_let_rest(ts, here, done) == spec_let_rest(
                        ts,
                        after_item.cursor(),
                        done.push(item@),
                    ));
                }
                bindings.push(item);
                rest = after_item;
                more = true;
            } else {
                assert(spec_next_binding(ts, here) is Err);
            }
        } else {
            assert(spec_next_binding(ts, here) is Err);
        }
    }
    let (rest, _) = expect(rest, &TokenKind::In)?;
    let (rest, body) = expression(rest)?;
    let ghost all = binding_views(bindings@);
    let ghost body_view = body@;
    let mut nest = body;
    while bindings.len() > 0
        invariant
            nest_bindings(all, body_view) == nest_bindings(binding_views(bindings@), nest@),
        decreases bindings.len(),
    {
        let ghost before = bindings@;
        let binding = bindings.pop().unwrap();
        proof {
            assert(binding_views(before).drop_last() == binding_views(bindings@));
            assert(binding_views(before).last() == binding@);
        }
        nest = Expression::new(
            ExpressionData::Let(
                binding.name,
                binding.type_id,
                Box::new(binding.init),
                Box::new(nest),
            ),
            binding.location,
        );
    }
    Ok((rest, nest))
}

/// The formals of a method: none, or formals separated by commas.
pub fn formals<'a>(input: Tokens<'a>) -> (r: (Tokens<'a>, Vec<Formal<'a>>))
    ensures
        continued(r.0, input),
        spec_formals(input.tokens(), input.cursor()) == (formal_views(r.1@), r.0.cursor()),
{
    let ghost ts = input.tokens();
    let _ = input.input_len();
    let mut list: Vec<Formal<'a>> = Vec::new();
    let mut rest = input;
    match formal(input) {
        Ok((after, first)) => {
            proof {
                lemma_formal_views_push(list@, first);
                assert(formal_views(list@) == Seq::<crate::ptree::FormalView>::empty());
                assert(Seq::<crate::ptree::FormalView>::empty().push(first@) == seq![first@]);
            }
            list.push(first);
            rest = after;
            let ghost start = after.cursor();
            let ghost first_views = formal_views(list@);
            let mut more = true;
            while more
                invariant
                    ts == input.tokens(),
                    rest.tokens() == ts,
                    input.cursor() < rest.cursor() <= ts.len(),
                    spec_more_formals(ts, start, first_views) == spec_more_formals(
                        ts,
                        rest.cursor(),
                        formal_views(list@),
                    ),
                    !more ==> spec_more_formals(ts, rest.cursor(), formal_views(list@)) == (
                        formal_views(list@),
                        rest.cursor(),
                    ),
                decreases ts.len() - rest.cursor(), if more { 1int } else { 0int },
            {
                more = false;
                if let Ok((after_comma, _)) = expect(rest, &TokenKind::Comma) {
                    if let Ok((after_item, item)) = formal(after_comma) {
                        proof {
                            lemma_formal_views_push(list@, item);
                        }
                        list.push(item);
                        rest = after_item;
                        more = true;
                    }
                }
            }
        },
        Err(_) => {
            assert(formal_views(list@) == Seq::<crate::ptree::FormalView>::empty());
        },
    }
    (rest, list)
}

/// An attribute: name `:` class, and an initial value if one follows.
pub fn attribute<'a>(input: Tokens<'a>) -> (r: Result<(Tokens<'a>, Feature<'a>), ParseError<'a>>)
    ensures
        parsed(r, input, spec_attribute(input.tokens(), input.cursor())),
{
    let (_, location) = current_location(input)?;
    let (rest, name) = ident(input)?;
    let (rest, _) = expect(rest, &TokenKind::Colon)?;
    let (rest, type_id) = type_id(rest)?;
    let (rest, init) = initializer(rest);
    Ok((rest, Feature::new(FeatureData::Attribute(name, type_id, init), location)))
}

/// A method: name `(` formals `)` `:` class `{` expression `}`
pub fn method<'a>(input: Tokens<'a>) -> (r: Result<(Tokens<'a>, Feature<'a>), ParseError<'a>>)
    ensures
        parsed(r, input, spec_method(input.tokens(), input.cursor())),
{
    let (_, location) = current_location(input)?;
    let (rest, name) = ident(input)?;
    let (rest, _) = expect(rest, &TokenKind::OpenParens)?;
    let (rest, list) = formals(rest);
    let (rest, _) = expect(rest, &TokenKind::CloseParens)?;
    let (rest, _) = expect(rest, &TokenKind::Colon)?;
    let (rest, type_id) = type_id(rest)?;
    let (rest, _) = expect(rest, &TokenKind::OpenBraces)?;
    let (rest, body) = expression(rest)?;
    let (rest, _) = expect(rest, &TokenKind::CloseBraces)?;
    Ok((rest, Feature::new(FeatureData::Method(name, type_id, list, body), location)))
}

/// A feature: an attribute or else a method, closed by a semicolon.
pub fn feature<'a>(input: Tokens<'a>) -> (r: Result<(Tokens<'a>, Feature<'a>), ParseError<'a>>)
    ensures
        parsed(r, input, spec_feature(input.tokens(), input.cursor())),
{
    let (rest, member) = match attribute(input) {
        Ok(found) => found,
        Err(_) => method(input)?,
    };
    let (rest, _) = expect(rest, &TokenKind::SemiColon)?;
    Ok((rest, member))
}

/// The features of a class: as many as fit.
pub fn features<'a>(input: Tokens<'a>) -> (r: (Tokens<'a>, Vec<Feature<'a>>))
    ensures
        continued(r.0, input),
        spec_features(input.tokens(), input.cursor(), Seq::empty()) == (
            feature_views(r.1@),
            r.0.cursor(),
        ),
{
    let ghost ts = input.tokens();
    let _ = input.input_len();
    let mut list: Vec<Feature<'a>> = Vec::new();
    let mut rest = input;
    let mut more = true;
    proof {
        assert(feature_views(list@) == Seq::<crate::ptree::FeatureView>::empty());
    }
    while more
        invariant
            ts == input.tokens(),
            rest.tokens() == ts,
            0 <= input.cursor() <= rest.cursor() <= ts.len(),
            spec_features(ts, input.cursor(), Seq::empty()) == spec_features(
                ts,
                rest.cursor(),
                feature_views(list@),
            ),
            !more ==> spec_features(ts, rest.cursor(), feature_views(list@)) == (
                feature_views(list@),
                rest.cursor(),
            ),
        decreases ts.len() - rest.cursor(), if more { 1int } else { 0int },
    {
        more = false;
        if let Ok((after_item, item)) = feature(rest) {
            proof {
                lemma_feature_views_push(list@, item);
            }
            list.push(item);
            rest = after_item;
            more = true;
        }
    }
    (rest, list)
}

/// A class: `class` name, `inherits` and a class if they follow, `{`,
/// features, `}`.
pub fn class<'a>(input: Tokens<'a>) -> (r: Result<(Tokens<'a>, Class<'a>), ParseError<'a>>)
    ensures
        parsed(r, input, spec_class(input.tokens(), input.cursor())),
{
    let (rest, location) = expect(input, &TokenKind::Class)?;
    let (rest, name) = type_id(rest)?;
    let (rest, super_name) = match expect(rest, &TokenKind::Inherits) {
        Ok((after_word, _)) => match type_id(after_word) {
            Ok((after_name, super_name)) => (after_name, Some(super_name)),
            Err(_) => (rest, None),
        },
        Err(_) => (rest, None),
    };
    let (rest, _) = expect(rest, &TokenKind::OpenBraces)?;
    let (rest, list) = features(rest);
    let (rest, _) = expect(rest, &TokenKind::CloseBraces)?;
    Ok((rest, Class::new(name, super_name, list, location)))
}

/// A class closed by a semicolon.
pub fn class_item<'a>(input: Tokens<'a>) -> (r: Result<(Tokens<'a>, Class<'a>), ParseError<'a>>)
    ensures
        parsed(r, input, spec_class_item(input.tokens(), input.cursor())),
{
    let (rest, class) = class(input)?;
    let (rest, _) = expect(rest, &TokenKind::SemiColon)?;
    Ok((rest, class))
}

/// A program: one or more classes, each closed by a semicolon, up to the end
/// of the window.
pub fn program<'a>(input: Tokens<'a>) -> (r: Result<(Tokens<'a>, Program<'a>), ParseError<'a>>)
    ensures
        parsed(r, input, spec_program(input.tokens(), input.cursor())),
        r matches Ok((_, program)) ==> program.classes@.len() >= 1,
{
    let (after, first) = class_item(input)?;
    let ghost ts = input.tokens();
    let mut classes: Vec<Class<'a>> = Vec::new();
    proof {
        lemma_class_views_push(classes@, first);
        assert(class_views(classes@) == Seq::<crate::ptree::ClassView>::empty());
        assert(Seq::<crate::ptree::ClassView>::empty().push(first@) == seq![first@]);
    }
    classes.push(first);
    let mut rest = after;
    let ghost start = after.cursor();
    let ghost first_views = class_views(classes@);
    let mut more = true;
    while more
        invariant
            ts == input.tokens(),
            rest.tokens() == ts,
            input.cursor() < rest.cursor() <= ts.len(),
            classes@.len() >= 1,
            spec_classes(ts, start, first_views) == spec_classes(
                ts,
                rest.cursor(),
                class_views(classes@),
            ),
            !more ==> spec_classes(ts, rest.cursor(), class_views(classes@)) == (
                class_views(classes@),
                rest.cursor(),
            ),
        decreases ts.len() - rest.cursor(), if more { 1int } else { 0int },
    {
        more = false;
        if let Ok((after_item, item)) = class_item(rest) {
            proof {
                lemma_class_views_push(classes@, item);
            }
            classes.push(item);
            rest = after_item;
            more = true;
        }
    }
    if rest.input_len() == 0 {
        Ok((rest, Program::new(classes)))
    } else {
        Err(fail(rest))
    }
}

/// Parses the tokens of a source file into the tree of its program.
pub fn parse_program<'a>(tokens: &'a [Token<'a>]) -> (r: Result<
    (Tokens<'a>, Program<'a>),
    ParseError<'a>,
>)
    ensures
        match r {
            Ok((rest, program)) => rest.cursor() == tokens@.len() && rest.tokens() == token_views(
                tokens@,
            ) && program.classes@.len() >= 1 && spec_program(token_views(tokens@), 0) == Ok::<
                (crate::ptree::ProgramView, int),
                int,
            >((program@, tokens@.len() as int)),
            Err(e) => spec_program(token_views(tokens@), 0) is Err && e.at <= tokens@.len() && e@
                == error_at(token_views(tokens@), spec_program(token_views(tokens@), 0)->Err_0),
        },
{
    program(Tokens::new(tokens))
}

} // verus!
