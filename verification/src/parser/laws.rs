//! What holds of every parse.

use super::grammar::{
    at, checked, dispatch, let_node, nest_bindings, node, self_name, spec_arguments,
    spec_assign, spec_attribute, spec_binary, spec_binary_tail, spec_bool_not_oper, spec_call,
    spec_case_branch, spec_case_expression, spec_chained_call, spec_chained_calls, spec_class,
    spec_class_item, spec_classes, spec_conditional_expression, spec_expression,
    spec_expression_block, spec_feature, spec_features, spec_formal, spec_formals,
    spec_implicit_self_method_call, spec_initializer, spec_isvoid_oper, spec_let_binding,
    spec_let_expression, spec_let_rest, spec_loop_expression, spec_method, spec_method_call,
    spec_more_arguments, spec_more_branches, spec_more_formals, spec_more_statements,
    spec_negated, spec_negative_oper, spec_next_binding, spec_operand, spec_parens_expression,
    spec_program, spec_statement, spec_term, spec_value, BindingView, CallInfoView,
    InvocationView, Parsed, Tier,
};
use crate::lexer::laws::{lemma_label_marks_places_only, lemma_token_places, line_count};
use crate::lexer::spec_lex;
use crate::ptree::{
    CaseBranchView, ClassView, ExpressionDataView, ExpressionView, FeatureDataView, FeatureView,
    FormalView, ProgramView,
};
use crate::tokens::{SpanView, TokenKindView, TokenView};
use vstd::prelude::*;

verus! {

/// Whether two sequences of tokens hold the same kinds in the same order.
pub open spec fn same_kinds(a: Seq<TokenView>, b: Seq<TokenView>) -> bool {
    &&& a.len() == b.len()
    &&& forall|i: int|
        #![trigger a[i]]
        #![trigger b[i]]
        0 <= i < a.len() ==> a[i].kind == b[i].kind
}

/// Whether two sequences of tokens hold the same kinds in the same order,
/// with the places of every two tokens of one index in the relation `rel`.
pub open spec fn related(
    a: Seq<TokenView>,
    b: Seq<TokenView>,
    rel: spec_fn(SpanView, SpanView) -> bool,
) -> bool {
    &&& a.len() == b.len()
    &&& forall|i: int|
        #![trigger a[i]]
        #![trigger b[i]]
        0 <= i < a.len() ==> a[i].kind == b[i].kind && rel(a[i].location, b[i].location)
}

/// Whether two answers of a rule agree on where the phrase ends, or on where
/// the rule gave up.
pub open spec fn agree<A>(x: Parsed<A>, y: Parsed<A>) -> bool {
    match (x, y) {
        (Ok((_, q)), Ok((_, r))) => q == r,
        (Err(e), Err(f)) => e == f,
        _ => false,
    }
}

/// Whether an answer of a rule applied at `p`, if it holds a phrase, ends
/// behind `p` and inside a sequence of `len` tokens.
pub open spec fn advances<A>(r: Parsed<A>, p: int, len: nat) -> bool {
    r matches Ok((_, q)) ==> p < q <= len
}

/// Whether two expressions are alike: they have the same form, names,
/// operators and literals, node by node, the places of every two nodes that
/// match are in the relation `rel`, every block holds an expression and every
/// case a branch.
pub open spec fn expression_alike(
    x: ExpressionView,
    y: ExpressionView,
    rel: spec_fn(SpanView, SpanView) -> bool,
) -> bool
    decreases x,
{
    rel(x.location, y.location) && data_alike(x.data, y.data, rel)
}

/// Whether two sequences of expressions are alike, one by one.
pub open spec fn expressions_alike(
    xs: Seq<ExpressionView>,
    ys: Seq<ExpressionView>,
    rel: spec_fn(SpanView, SpanView) -> bool,
) -> bool
    decreases xs,
{
    xs.len() == ys.len() && forall|i: int|
        0 <= i < xs.len() ==> expression_alike(#[trigger] xs[i], ys[i], rel)
}

/// Whether two case branches are alike: same name and class, places in the
/// relation, expressions alike.
pub open spec fn branch_alike(
    x: CaseBranchView,
    y: CaseBranchView,
    rel: spec_fn(SpanView, SpanView) -> bool,
) -> bool
    decreases x,
{
    x.ident == y.ident && x.type_id == y.type_id && rel(x.location, y.location)
        && expression_alike(x.expression, y.expression, rel)
}

/// Whether two sequences of case branches are alike, one by one.
pub open spec fn branches_alike(
    xs: Seq<CaseBranchView>,
    ys: Seq<CaseBranchView>,
    rel: spec_fn(SpanView, SpanView) -> bool,
) -> bool
    decreases xs,
{
    xs.len() == ys.len() && forall|i: int|
        0 <= i < xs.len() ==> branch_alike(#[trigger] xs[i], ys[i], rel)
}

/// Whether the bodies of two expressions are alike.
pub open spec fn data_alike(
    x: ExpressionDataView,
    y: ExpressionDataView,
    rel: spec_fn(SpanView, SpanView) -> bool,
) -> bool
    decreases x,
{
    match x {
        ExpressionDataView::Assign(name, value) => y matches ExpressionDataView::Assign(n, v)
            && name == n && expression_alike(*value, *v, rel),
        ExpressionDataView::UnaryOperation(op, operand) => y matches ExpressionDataView::UnaryOperation(
            o,
            v,
        ) && op == o && expression_alike(*operand, *v, rel),
        ExpressionDataView::BinaryOperation(op, left, right) => y matches ExpressionDataView::BinaryOperation(
            o,
            l,
            r,
        ) && op == o && expression_alike(*left, *l, rel) && expression_alike(*right, *r, rel),
        ExpressionDataView::MethodCall(receiver, static_type, name, args) => y matches ExpressionDataView::MethodCall(
            r,
            t,
            n,
            a,
        ) && static_type == t && name == n && expression_alike(*receiver, *r, rel)
            && expressions_alike(args, a, rel),
        ExpressionDataView::Conditional(cond, then_branch, else_branch) => y matches ExpressionDataView::Conditional(
            c,
            t,
            e,
        ) && expression_alike(*cond, *c, rel) && expression_alike(*then_branch, *t, rel)
            && expression_alike(*else_branch, *e, rel),
        ExpressionDataView::Loop(cond, body) => y matches ExpressionDataView::Loop(c, b)
            && expression_alike(*cond, *c, rel) && expression_alike(*body, *b, rel),
        ExpressionDataView::Case(subject, branches) => y matches ExpressionDataView::Case(s, b)
            && expression_alike(*subject, *s, rel) && branches.len() >= 1 && branches_alike(
            branches,
            b,
            rel,
        ),
        ExpressionDataView::Block(body) => y matches ExpressionDataView::Block(b) && body.len()
            >= 1 && expressions_alike(body, b, rel),
        ExpressionDataView::Let(name, type_id, init, body) => y matches ExpressionDataView::Let(
            n,
            t,
            i,
            b,
        ) && name == n && type_id == t && (match init {
            Some(e) => i matches Some(f) && expression_alike(*e, *f, rel),
            None => i is None,
        }) && expression_alike(*body, *b, rel),
        ExpressionDataView::New(type_id) => y == x,
        ExpressionDataView::Object(name) => y == x,
        ExpressionDataView::IntLiteral(i) => y == x,
        ExpressionDataView::StrLiteral(s) => y == x,
        ExpressionDataView::BoolLiteral(b) => y == x,
    }
}

/// Whether two initial values are alike: both missing, or both there and
/// alike.
pub open spec fn init_alike(
    x: Option<ExpressionView>,
    y: Option<ExpressionView>,
    rel: spec_fn(SpanView, SpanView) -> bool,
) -> bool {
    match x {
        Some(e) => y matches Some(f) && expression_alike(e, f, rel),
        None => y is None,
    }
}

/// Whether two bindings are alike.
pub open spec fn binding_alike(
    x: BindingView,
    y: BindingView,
    rel: spec_fn(SpanView, SpanView) -> bool,
) -> bool {
    x.name == y.name && x.type_id == y.type_id && rel(x.location, y.location) && init_alike(
        x.init,
        y.init,
        rel,
    )
}

/// Whether two sequences of bindings are alike, one by one.
pub open spec fn bindings_alike(
    xs: Seq<BindingView>,
    ys: Seq<BindingView>,
    rel: spec_fn(SpanView, SpanView) -> bool,
) -> bool {
    xs.len() == ys.len() && forall|i: int|
        0 <= i < xs.len() ==> binding_alike(#[trigger] xs[i], ys[i], rel)
}

/// Whether two method names with arguments are alike.
pub open spec fn invocation_alike(
    x: InvocationView,
    y: InvocationView,
    rel: spec_fn(SpanView, SpanView) -> bool,
) -> bool {
    x.name == y.name && expressions_alike(x.args, y.args, rel)
}

/// Whether two dispatches without their receivers are alike.
pub open spec fn call_alike(
    x: CallInfoView,
    y: CallInfoView,
    rel: spec_fn(SpanView, SpanView) -> bool,
) -> bool {
    rel(x.location, y.location) && x.static_type == y.static_type && x.name == y.name
        && expressions_alike(x.args, y.args, rel)
}

/// Whether two formals are alike.
pub open spec fn formal_alike(
    x: FormalView,
    y: FormalView,
    rel: spec_fn(SpanView, SpanView) -> bool,
) -> bool {
    x.name == y.name && x.type_id == y.type_id && rel(x.location, y.location)
}

/// Whether two sequences of formals are alike, one by one.
pub open spec fn formals_alike(
    xs: Seq<FormalView>,
    ys: Seq<FormalView>,
    rel: spec_fn(SpanView, SpanView) -> bool,
) -> bool {
    xs.len() == ys.len() && forall|i: int|
        0 <= i < xs.len() ==> formal_alike(#[trigger] xs[i], ys[i], rel)
}

/// Whether two features are alike.
pub open spec fn feature_alike(
    x: FeatureView,
    y: FeatureView,
    rel: spec_fn(SpanView, SpanView) -> bool,
) -> bool {
    rel(x.location, y.location) && match x.data {
        FeatureDataView::Attribute(name, type_id, init) => y.data matches FeatureDataView::Attribute(
            n,
            t,
            i,
        ) && name == n && type_id == t && init_alike(init, i, rel),
        FeatureDataView::Method(name, type_id, formals, body) => y.data matches FeatureDataView::Method(
            n,
            t,
            f,
            b,
        ) && name == n && type_id == t && formals_alike(formals, f, rel) && expression_alike(
            body,
            b,
            rel,
        ),
    }
}

/// Whether two sequences of features are alike, one by one.
pub open spec fn features_alike(
    xs: Seq<FeatureView>,
    ys: Seq<FeatureView>,
    rel: spec_fn(SpanView, SpanView) -> bool,
) -> bool {
    xs.len() == ys.len() && forall|i: int|
        0 <= i < xs.len() ==> feature_alike(#[trigger] xs[i], ys[i], rel)
}

/// Whether two classes are alike.
pub open spec fn class_alike(
    x: ClassView,
    y: ClassView,
    rel: spec_fn(SpanView, SpanView) -> bool,
) -> bool {
    x.name == y.name && x.super_class_name == y.super_class_name && rel(x.location, y.location)
        && features_alike(x.features, y.features, rel)
}

/// Whether two sequences of classes are alike, one by one.
pub open spec fn classes_alike(
    xs: Seq<ClassView>,
    ys: Seq<ClassView>,
    rel: spec_fn(SpanView, SpanView) -> bool,
) -> bool {
    xs.len() == ys.len() && forall|i: int|
        0 <= i < xs.len() ==> class_alike(#[trigger] xs[i], ys[i], rel)
}

/// Whether two programs are alike: each holds a class, and their classes are
/// alike.
pub open spec fn program_alike(
    x: ProgramView,
    y: ProgramView,
    rel: spec_fn(SpanView, SpanView) -> bool,
) -> bool {
    x.classes.len() >= 1 && classes_alike(x.classes, y.classes, rel)
}

// One lemma for every rule of the grammar, each with the same three claims
// about the rule applied to two token sequences `a` and `b` of equal kinds
// whose places are in the relation `rel`: the two answers agree on where they
// end or give up; a phrase that is recognised is not empty and ends inside
// the tokens; and the two trees are alike, with the places of their nodes in
// the relation. The lemmas call each other as the rules do.

proof fn lemma_expression(
    a: Seq<TokenView>,
    b: Seq<TokenView>,
    p: int,
    rel: spec_fn(SpanView, SpanView) -> bool,
)
    requires
        related(a, b, rel),
    ensures
        agree(spec_expression(a, p), spec_expression(b, p)),
        advances(spec_expression(a, p), p, a.len()),
        spec_expression(a, p) matches Ok((e, _)) ==> expression_alike(
            e,
            spec_expression(b, p)->Ok_0.0,
            rel,
        ),
    decreases a.len() - p, 100int,
{
    lemma_assign(a, b, p, rel);
    lemma_bool_not_oper(a, b, p, rel);
    lemma_binary(a, b, p, Tier::Comparison, rel);
}

proof fn lemma_assign(
    a: Seq<TokenView>,
    b: Seq<TokenView>,
    p: int,
    rel: spec_fn(SpanView, SpanView) -> bool,
)
    requires
        related(a, b, rel),
    ensures
        agree(spec_assign(a, p), spec_assign(b, p)),
        advances(spec_assign(a, p), p, a.len()),
        spec_assign(a, p) matches Ok((e, _)) ==> expression_alike(
            e,
            spec_assign(b, p)->Ok_0.0,
            rel,
        ),
    decreases a.len() - p, 95int,
{
    if 0 <= p < a.len() && a[p].kind is Ident && at(a, p + 1, TokenKindView::Assign) {
        lemma_expression(a, b, p + 2, rel);
    }
}

proof fn lemma_bool_not_oper(
    a: Seq<TokenView>,
    b: Seq<TokenView>,
    p: int,
    rel: spec_fn(SpanView, SpanView) -> bool,
)
    requires
        related(a, b, rel),
    ensures
        agree(spec_bool_not_oper(a, p), spec_bool_not_oper(b, p)),
        advances(spec_bool_not_oper(a, p), p, a.len()),
        spec_bool_not_oper(a, p) matches Ok((e, _)) ==> expression_alike(
            e,
            spec_bool_not_oper(b, p)->Ok_0.0,
            rel,
        ),
    decreases a.len() - p, 95int,
{
    if at(a, p, TokenKindView::Not) {
        lemma_expression(a, b, p + 1, rel);
    }
}

/// The operand of the operators of level `tier` at `p`.
spec fn tighter(ts: Seq<TokenView>, p: int, tier: Tier) -> Parsed<ExpressionView> {
    match tier {
        Tier::Comparison => spec_binary(ts, p, Tier::Sum),
        Tier::Sum => spec_binary(ts, p, Tier::Product),
        Tier::Product => spec_operand(ts, p),
    }
}

proof fn lemma_tighter(
    a: Seq<TokenView>,
    b: Seq<TokenView>,
    p: int,
    tier: Tier,
    rel: spec_fn(SpanView, SpanView) -> bool,
)
    requires
        related(a, b, rel),
    ensures
        agree(tighter(a, p, tier), tighter(b, p, tier)),
        advances(tighter(a, p, tier), p, a.len()),
        advances(tighter(a, p, tier), p, a.len()),
        tighter(a, p, tier) matches Ok((e, _)) ==> expression_alike(
            e,
            tighter(b, p, tier)->Ok_0.0,
            rel,
        ),
    decreases a.len() - p, tier.rank() - 5,
{
    match tier {
        Tier::Comparison => lemma_binary(a, b, p, Tier::Sum, rel),
        Tier::Sum => lemma_binary(a, b, p, Tier::Product, rel),
        Tier::Product => lemma_operand(a, b, p, rel),
    }
}

proof fn lemma_binary(
    a: Seq<TokenView>,
    b: Seq<TokenView>,
    p: int,
    tier: Tier,
    rel: spec_fn(SpanView, SpanView) -> bool,
)
    requires
        related(a, b, rel),
    ensures
        agree(spec_binary(a, p, tier), spec_binary(b, p, tier)),
        advances(spec_binary(a, p, tier), p, a.len()),
        spec_binary(a, p, tier) matches Ok((e, _)) ==> expression_alike(
            e,
            spec_binary(b, p, tier)->Ok_0.0,
            rel,
        ),
    decreases a.len() - p, tier.rank(),
{
    lemma_tighter(a, b, p, tier, rel);
    match checked(tighter(a, p, tier), p, a.len()) {
        Ok((left, q)) => {
            let other = checked(tighter(b, p, tier), p, b.len())->Ok_0.0;
            lemma_binary_tail(a, b, q, tier, left, other, rel);
        },
        Err(_) => {},
    }
}

proof fn lemma_binary_tail(
    a: Seq<TokenView>,
    b: Seq<TokenView>,
    q: int,
    tier: Tier,
    left: ExpressionView,
    other: ExpressionView,
    rel: spec_fn(SpanView, SpanView) -> bool,
)
    requires
        related(a, b, rel),
        expression_alike(left, other, rel),
    ensures
        spec_binary_tail(a, q, tier, left).1 == spec_binary_tail(b, q, tier, other).1,
        q <= spec_binary_tail(a, q, tier, left).1,
        q <= a.len() ==> spec_binary_tail(a, q, tier, left).1 <= a.len(),
        expression_alike(
            spec_binary_tail(a, q, tier, left).0,
            spec_binary_tail(b, q, tier, other).0,
            rel,
        ),
    decreases a.len() - q, 5int,
{
    if 0 <= q < a.len() {
        match tier.operator(a[q].kind) {
            None => {},
            Some(op) => {
                lemma_tighter(a, b, q + 1, tier, rel);
                match checked(tighter(a, q + 1, tier), q + 1, a.len()) {
                    Ok((right, r)) => {
                        let right_other = checked(tighter(b, q + 1, tier), q + 1, b.len())->Ok_0.0;
                        lemma_binary_tail(
                            a,
                            b,
                            r,
                            tier,
                            node(
                                a,
                                q,
                                ExpressionDataView::BinaryOperation(
                                    op,
                                    Box::new(left),
                                    Box::new(right),
                                ),
                            ),
                            node(
                                b,
                                q,
                                ExpressionDataView::BinaryOperation(
                                    op,
                                    Box::new(other),
                                    Box::new(right_other),
                                ),
                            ),
                            rel,
                        );
                    },
                    Err(_) => {},
                }
            },
        }
    }
}

proof fn lemma_operand(
    a: Seq<TokenView>,
    b: Seq<TokenView>,
    p: int,
    rel: spec_fn(SpanView, SpanView) -> bool,
)
    requires
        related(a, b, rel),
    ensures
        agree(spec_operand(a, p), spec_operand(b, p)),
        advances(spec_operand(a, p), p, a.len()),
        spec_operand(a, p) matches Ok((e, _)) ==> expression_alike(
            e,
            spec_operand(b, p)->Ok_0.0,
            rel,
        ),
    decreases a.len() - p, 60int,
{
    lemma_prefix_oper(a, b, p, rel);
    lemma_term(a, b, p, rel);
}

proof fn lemma_prefix_oper(
    a: Seq<TokenView>,
    b: Seq<TokenView>,
    p: int,
    rel: spec_fn(SpanView, SpanView) -> bool,
)
    requires
        related(a, b, rel),
    ensures
        agree(spec_isvoid_oper(a, p), spec_isvoid_oper(b, p)),
        advances(spec_isvoid_oper(a, p), p, a.len()),
        spec_isvoid_oper(a, p) matches Ok((e, _)) ==> expression_alike(
            e,
            spec_isvoid_oper(b, p)->Ok_0.0,
            rel,
        ),
        agree(spec_negative_oper(a, p), spec_negative_oper(b, p)),
        advances(spec_negative_oper(a, p), p, a.len()),
        spec_negative_oper(a, p) matches Ok((e, _)) ==> expression_alike(
            e,
            spec_negative_oper(b, p)->Ok_0.0,
            rel,
        ),
    decreases a.len() - p, 55int,
{
    if at(a, p, TokenKindView::IsVoid) {
        lemma_operand(a, b, p + 1, rel);
    }
    if at(a, p, TokenKindView::Negative) {
        lemma_negated(a, b, p + 1, rel);
    }
}

proof fn lemma_negated(
    a: Seq<TokenView>,
    b: Seq<TokenView>,
    p: int,
    rel: spec_fn(SpanView, SpanView) -> bool,
)
    requires
        related(a, b, rel),
    ensures
        agree(spec_negated(a, p), spec_negated(b, p)),
        advances(spec_negated(a, p), p, a.len()),
        spec_negated(a, p) matches Ok((e, _)) ==> expression_alike(
            e,
            spec_negated(b, p)->Ok_0.0,
            rel,
        ),
    decreases a.len() - p, 57int,
{
    lemma_prefix_oper(a, b, p, rel);
    lemma_term(a, b, p, rel);
}

proof fn lemma_arguments(
    a: Seq<TokenView>,
    b: Seq<TokenView>,
    p: int,
    rel: spec_fn(SpanView, SpanView) -> bool,
)
    requires
        related(a, b, rel),
    ensures
        agree(spec_arguments(a, p), spec_arguments(b, p)),
        advances(spec_arguments(a, p), p, a.len()),
        spec_arguments(a, p) matches Ok((args, _)) ==> expressions_alike(
            args,
            spec_arguments(b, p)->Ok_0.0,
            rel,
        ),
    decreases a.len() - p, 5int,
{
    if at(a, p, TokenKindView::OpenParens) {
        lemma_expression(a, b, p + 1, rel);
        match checked(spec_expression(a, p + 1), p + 1, a.len()) {
            Ok((first, q)) => {
                let other = checked(spec_expression(b, p + 1), p + 1, b.len())->Ok_0.0;
                lemma_more_arguments(a, b, q, seq![first], seq![other], rel);
            },
            Err(_) => {},
        }
    }
}

proof fn lemma_more_arguments(
    a: Seq<TokenView>,
    b: Seq<TokenView>,
    q: int,
    done: Seq<ExpressionView>,
    other: Seq<ExpressionView>,
    rel: spec_fn(SpanView, SpanView) -> bool,
)
    requires
        related(a, b, rel),
        expressions_alike(done, other, rel),
    ensures
        spec_more_arguments(a, q, done).1 == spec_more_arguments(b, q, other).1,
        q <= spec_more_arguments(a, q, done).1,
        q <= a.len() ==> spec_more_arguments(a, q, done).1 <= a.len(),
        expressions_alike(
            spec_more_arguments(a, q, done).0,
            spec_more_arguments(b, q, other).0,
            rel,
        ),
    decreases a.len() - q, 5int,
{
    if at(a, q, TokenKindView::Comma) {
        lemma_expression(a, b, q + 1, rel);
        match checked(spec_expression(a, q + 1), q + 1, a.len()) {
            Ok((next, r)) => {
                let next_other = checked(spec_expression(b, q + 1), q + 1, b.len())->Ok_0.0;
                lemma_more_arguments(a, b, r, done.push(next), other.push(next_other), rel);
            },
            Err(_) => {},
        }
    }
}

proof fn lemma_call(
    a: Seq<TokenView>,
    b: Seq<TokenView>,
    p: int,
    rel: spec_fn(SpanView, SpanView) -> bool,
)
    requires
        related(a, b, rel),
    ensures
        agree(spec_call(a, p), spec_call(b, p)),
        advances(spec_call(a, p), p, a.len()),
        spec_call(a, p) matches Ok((c, _)) ==> invocation_alike(c, spec_call(b, p)->Ok_0.0, rel),
    decreases a.len() - p, 10int,
{
    if 0 <= p < a.len() && a[p].kind is Ident {
        lemma_arguments(a, b, p + 1, rel);
    }
}

proof fn lemma_chained_call(
    a: Seq<TokenView>,
    b: Seq<TokenView>,
    q: int,
    rel: spec_fn(SpanView, SpanView) -> bool,
)
    requires
        related(a, b, rel),
    ensures
        agree(spec_chained_call(a, q), spec_chained_call(b, q)),
        advances(spec_chained_call(a, q), q, a.len()),
        spec_chained_call(a, q) matches Ok((c, _)) ==> call_alike(
            c,
            spec_chained_call(b, q)->Ok_0.0,
            rel,
        ),
    decreases a.len() - q, 15int,
{
    let typed = at(a, q, TokenKindView::At) && 0 <= q + 1 < a.len() && a[q + 1].kind is TypeId;
    let dot = if typed {
        q + 2
    } else {
        q
    };
    if at(a, dot, TokenKindView::Dot) {
        lemma_call(a, b, dot + 1, rel);
    }
}

proof fn lemma_chained_calls(
    a: Seq<TokenView>,
    b: Seq<TokenView>,
    q: int,
    receiver: ExpressionView,
    other: ExpressionView,
    rel: spec_fn(SpanView, SpanView) -> bool,
)
    requires
        related(a, b, rel),
        expression_alike(receiver, other, rel),
    ensures
        spec_chained_calls(a, q, receiver).1 == spec_chained_calls(b, q, other).1,
        q <= spec_chained_calls(a, q, receiver).1,
        q <= a.len() ==> spec_chained_calls(a, q, receiver).1 <= a.len(),
        expression_alike(
            spec_chained_calls(a, q, receiver).0,
            spec_chained_calls(b, q, other).0,
            rel,
        ),
    decreases a.len() - q, 25int,
{
    lemma_chained_call(a, b, q, rel);
    match checked(spec_chained_call(a, q), q, a.len()) {
        Ok((call, r)) => {
            let call_other = checked(spec_chained_call(b, q), q, b.len())->Ok_0.0;
            lemma_chained_calls(
                a,
                b,
                r,
                dispatch(receiver, call),
                dispatch(other, call_other),
                rel,
            );
        },
        Err(_) => {},
    }
}

proof fn lemma_implicit_self_method_call(
    a: Seq<TokenView>,
    b: Seq<TokenView>,
    p: int,
    rel: spec_fn(SpanView, SpanView) -> bool,
)
    requires
        related(a, b, rel),
    ensures
        agree(spec_implicit_self_method_call(a, p), spec_implicit_self_method_call(b, p)),
        advances(spec_implicit_self_method_call(a, p), p, a.len()),
        spec_implicit_self_method_call(a, p) matches Ok((e, _)) ==> expression_alike(
            e,
            spec_implicit_self_method_call(b, p)->Ok_0.0,
            rel,
        ),
    decreases a.len() - p, 40int,
{
    lemma_call(a, b, p, rel);
    match checked(spec_call(a, p), p, a.len()) {
        Ok((call, q)) => {
            let call_other = checked(spec_call(b, p), p, b.len())->Ok_0.0;
            assert(0 <= p < a.len());
            assert(rel(a[p].location, b[p].location));
            let receiver = node(a, p, ExpressionDataView::Object(self_name()));
            let receiver_other = node(b, p, ExpressionDataView::Object(self_name()));
            assert(data_alike(receiver.data, receiver_other.data, rel));
            assert(expression_alike(receiver, receiver_other, rel));
            let first = dispatch(
                receiver,
                CallInfoView {
                    location: a[p].location,
                    static_type: None,
                    name: call.name,
                    args: call.args,
                },
            );
            let first_other = dispatch(
                receiver_other,
                CallInfoView {
                    location: b[p].location,
                    static_type: None,
                    name: call_other.name,
                    args: call_other.args,
                },
            );
            assert(invocation_alike(call, call_other, rel));
            assert(data_alike(first.data, first_other.data, rel));
            assert(expression_alike(first, first_other, rel));
            lemma_chained_calls(a, b, q, first, first_other, rel);
        },
        Err(_) => {},
    }
}

proof fn lemma_method_call(
    a: Seq<TokenView>,
    b: Seq<TokenView>,
    p: int,
    rel: spec_fn(SpanView, SpanView) -> bool,
)
    requires
        related(a, b, rel),
    ensures
        agree(spec_method_call(a, p), spec_method_call(b, p)),
        advances(spec_method_call(a, p), p, a.len()),
        spec_method_call(a, p) matches Ok((e, _)) ==> expression_alike(
            e,
            spec_method_call(b, p)->Ok_0.0,
            rel,
        ),
    decreases a.len() - p, 40int,
{
    lemma_value(a, b, p, rel);
    match checked(spec_value(a, p), p, a.len()) {
        Ok((value, q)) => {
            let other = checked(spec_value(b, p), p, b.len())->Ok_0.0;
            lemma_chained_calls(a, b, q, value, other, rel);
        },
        Err(_) => {},
    }
}

proof fn lemma_term(
    a: Seq<TokenView>,
    b: Seq<TokenView>,
    p: int,
    rel: spec_fn(SpanView, SpanView) -> bool,
)
    requires
        related(a, b, rel),
    ensures
        agree(spec_term(a, p), spec_term(b, p)),
        advances(spec_term(a, p), p, a.len()),
        spec_term(a, p) matches Ok((e, _)) ==> expression_alike(e, spec_term(b, p)->Ok_0.0, rel),
    decreases a.len() - p, 50int,
{
    lemma_implicit_self_method_call(a, b, p, rel);
    lemma_method_call(a, b, p, rel);
}

proof fn lemma_value(
    a: Seq<TokenView>,
    b: Seq<TokenView>,
    p: int,
    rel: spec_fn(SpanView, SpanView) -> bool,
)
    requires
        related(a, b, rel),
    ensures
        agree(spec_value(a, p), spec_value(b, p)),
        advances(spec_value(a, p), p, a.len()),
        spec_value(a, p) matches Ok((e, _)) ==> expression_alike(e, spec_value(b, p)->Ok_0.0, rel),
    decreases a.len() - p, 30int,
{
    lemma_parens_expression(a, b, p, rel);
    lemma_expression_block(a, b, p, rel);
    lemma_conditional_expression(a, b, p, rel);
    lemma_loop_expression(a, b, p, rel);
    lemma_case_expression(a, b, p, rel);
    lemma_let_expression(a, b, p, rel);
}

proof fn lemma_parens_expression(
    a: Seq<TokenView>,
    b: Seq<TokenView>,
    p: int,
    rel: spec_fn(SpanView, SpanView) -> bool,
)
    requires
        related(a, b, rel),
    ensures
        agree(spec_parens_expression(a, p), spec_parens_expression(b, p)),
        advances(spec_parens_expression(a, p), p, a.len()),
        spec_parens_expression(a, p) matches Ok((e, _)) ==> expression_alike(
            e,
            spec_parens_expression(b, p)->Ok_0.0,
            rel,
        ),
    decreases a.len() - p, 20int,
{
    if at(a, p, TokenKindView::OpenParens) {
        lemma_expression(a, b, p + 1, rel);
    }
}

proof fn lemma_statement(
    a: Seq<TokenView>,
    b: Seq<TokenView>,
    p: int,
    rel: spec_fn(SpanView, SpanView) -> bool,
)
    requires
        related(a, b, rel),
    ensures
        agree(spec_statement(a, p), spec_statement(b, p)),
        advances(spec_statement(a, p), p, a.len()),
        spec_statement(a, p) matches Ok((e, _)) ==> expression_alike(
            e,
            spec_statement(b, p)->Ok_0.0,
            rel,
        ),
    decreases a.len() - p, 110int,
{
    lemma_expression(a, b, p, rel);
}

proof fn lemma_more_statements(
    a: Seq<TokenView>,
    b: Seq<TokenView>,
    q: int,
    done: Seq<ExpressionView>,
    other: Seq<ExpressionView>,
    rel: spec_fn(SpanView, SpanView) -> bool,
)
    requires
        related(a, b, rel),
        expressions_alike(done, other, rel),
    ensures
        spec_more_statements(a, q, done).1 == spec_more_statements(b, q, other).1,
        done.len() <= spec_more_statements(a, q, done).0.len(),
        q <= spec_more_statements(a, q, done).1,
        q <= a.len() ==> spec_more_statements(a, q, done).1 <= a.len(),
        expressions_alike(
            spec_more_statements(a, q, done).0,
            spec_more_statements(b, q, other).0,
            rel,
        ),
    decreases a.len() - q, 120int,
{
    lemma_statement(a, b, q, rel);
    match checked(spec_statement(a, q), q, a.len()) {
        Ok((next, r)) => {
            let next_other = checked(spec_statement(b, q), q, b.len())->Ok_0.0;
            lemma_more_statements(a, b, r, done.push(next), other.push(next_other), rel);
        },
        Err(_) => {},
    }
}

proof fn lemma_expression_block(
    a: Seq<TokenView>,
    b: Seq<TokenView>,
    p: int,
    rel: spec_fn(SpanView, SpanView) -> bool,
)
    requires
        related(a, b, rel),
    ensures
        agree(spec_expression_block(a, p), spec_expression_block(b, p)),
        advances(spec_expression_block(a, p), p, a.len()),
        spec_expression_block(a, p) matches Ok((e, _)) ==> expression_alike(
            e,
            spec_expression_block(b, p)->Ok_0.0,
            rel,
        ),
    decreases a.len() - p, 20int,
{
    if at(a, p, TokenKindView::OpenBraces) {
        lemma_statement(a, b, p + 1, rel);
        match checked(spec_statement(a, p + 1), p + 1, a.len()) {
            Ok((first, q)) => {
                let other = checked(spec_statement(b, p + 1), p + 1, b.len())->Ok_0.0;
                lemma_more_statements(a, b, q, seq![first], seq![other], rel);
            },
            Err(_) => {},
        }
    }
}

proof fn lemma_conditional_expression(
    a: Seq<TokenView>,
    b: Seq<TokenView>,
    p: int,
    rel: spec_fn(SpanView, SpanView) -> bool,
)
    requires
        related(a, b, rel),
    ensures
        agree(spec_conditional_expression(a, p), spec_conditional_expression(b, p)),
        advances(spec_conditional_expression(a, p), p, a.len()),
        spec_conditional_expression(a, p) matches Ok((e, _)) ==> expression_alike(
            e,
            spec_conditional_expression(b, p)->Ok_0.0,
            rel,
        ),
    decreases a.len() - p, 20int,
{
    if at(a, p, TokenKindView::If) {
        lemma_expression(a, b, p + 1, rel);
        match checked(spec_expression(a, p + 1), p + 1, a.len()) {
            Ok((_, q)) => {
                if at(a, q, TokenKindView::Then) {
                    lemma_expression(a, b, q + 1, rel);
                    match checked(spec_expression(a, q + 1), q + 1, a.len()) {
                        Ok((_, r)) => {
                            if at(a, r, TokenKindView::Else) {
                                lemma_expression(a, b, r + 1, rel);
                            }
                        },
                        Err(_) => {},
                    }
                }
            },
            Err(_) => {},
        }
    }
}

proof fn lemma_loop_expression(
    a: Seq<TokenView>,
    b: Seq<TokenView>,
    p: int,
    rel: spec_fn(SpanView, SpanView) -> bool,
)
    requires
        related(a, b, rel),
    ensures
        agree(spec_loop_expression(a, p), spec_loop_expression(b, p)),
        advances(spec_loop_expression(a, p), p, a.len()),
        spec_loop_expression(a, p) matches Ok((e, _)) ==> expression_alike(
            e,
            spec_loop_expression(b, p)->Ok_0.0,
            rel,
        ),
    decreases a.len() - p, 20int,
{
    if at(a, p, TokenKindView::While) {
        lemma_expression(a, b, p + 1, rel);
        match checked(spec_expression(a, p + 1), p + 1, a.len()) {
            Ok((_, q)) => {
                if at(a, q, TokenKindView::Loop) {
                    lemma_expression(a, b, q + 1, rel);
                }
            },
            Err(_) => {},
        }
    }
}

proof fn lemma_case_branch(
    a: Seq<TokenView>,
    b: Seq<TokenView>,
    p: int,
    rel: spec_fn(SpanView, SpanView) -> bool,
)
    requires
        related(a, b, rel),
    ensures
        agree(spec_case_branch(a, p), spec_case_branch(b, p)),
        advances(spec_case_branch(a, p), p, a.len()),
        spec_case_branch(a, p) matches Ok((branch, _)) ==> branch_alike(
            branch,
            spec_case_branch(b, p)->Ok_0.0,
            rel,
        ),
    decreases a.len() - p, 110int,
{
    if 0 <= p < a.len() && a[p].kind is Ident && at(a, p + 1, TokenKindView::Colon) && 0 <= p + 2
        < a.len() && a[p + 2].kind is TypeId && at(a, p + 3, TokenKindView::DoubleArrow) {
        lemma_expression(a, b, p + 4, rel);
    }
}

proof fn lemma_more_branches(
    a: Seq<TokenView>,
    b: Seq<TokenView>,
    q: int,
    done: Seq<CaseBranchView>,
    other: Seq<CaseBranchView>,
    rel: spec_fn(SpanView, SpanView) -> bool,
)
    requires
        related(a, b, rel),
        branches_alike(done, other, rel),
    ensures
        spec_more_branches(a, q, done).1 == spec_more_branches(b, q, other).1,
        done.len() <= spec_more_branches(a, q, done).0.len(),
        q <= spec_more_branches(a, q, done).1,
        q <= a.len() ==> spec_more_branches(a, q, done).1 <= a.len(),
        branches_alike(spec_more_branches(a, q, done).0, spec_more_branches(b, q, other).0, rel),
    decreases a.len() - q, 120int,
{
    lemma_case_branch(a, b, q, rel);
    match checked(spec_case_branch(a, q), q, a.len()) {
        Ok((next, r)) => {
            let next_other = checked(spec_case_branch(b, q), q, b.len())->Ok_0.0;
            lemma_more_branches(a, b, r, done.push(next), other.push(next_other), rel);
        },
        Err(_) => {},
    }
}

proof fn lemma_case_expression(
    a: Seq<TokenView>,
    b: Seq<TokenView>,
    p: int,
    rel: spec_fn(SpanView, SpanView) -> bool,
)
    requires
        related(a, b, rel),
    ensures
        agree(spec_case_expression(a, p), spec_case_expression(b, p)),
        advances(spec_case_expression(a, p), p, a.len()),
        spec_case_expression(a, p) matches Ok((e, _)) ==> expression_alike(
            e,
            spec_case_expression(b, p)->Ok_0.0,
            rel,
        ),
    decreases a.len() - p, 20int,
{
    if at(a, p, TokenKindView::Case) {
        lemma_expression(a, b, p + 1, rel);
        match checked(spec_expression(a, p + 1), p + 1, a.len()) {
            Ok((_, q)) => {
                if at(a, q, TokenKindView::Of) {
                    lemma_case_branch(a, b, q + 1, rel);
                    match checked(spec_case_branch(a, q + 1), q + 1, a.len()) {
                        Ok((first, r)) => {
                            let other = checked(spec_case_branch(b, q + 1), q + 1, b.len())->Ok_0.0;
                            lemma_more_branches(a, b, r, seq![first], seq![other], rel);
                        },
                        Err(_) => {},
                    }
                }
            },
            Err(_) => {},
        }
    }
}

proof fn lemma_initializer(
    a: Seq<TokenView>,
    b: Seq<TokenView>,
    p: int,
    rel: spec_fn(SpanView, SpanView) -> bool,
)
    requires
        related(a, b, rel),
    ensures
        spec_initializer(a, p).1 == spec_initializer(b, p).1,
        p <= spec_initializer(a, p).1,
        p <= a.len() ==> spec_initializer(a, p).1 <= a.len(),
        init_alike(spec_initializer(a, p).0, spec_initializer(b, p).0, rel),
    decreases a.len() - p, 110int,
{
    if at(a, p, TokenKindView::Assign) {
        lemma_expression(a, b, p + 1, rel);
    }
}

proof fn lemma_let_binding(
    a: Seq<TokenView>,
    b: Seq<TokenView>,
    p: int,
    rel: spec_fn(SpanView, SpanView) -> bool,
)
    requires
        related(a, b, rel),
    ensures
        agree(spec_let_binding(a, p), spec_let_binding(b, p)),
        advances(spec_let_binding(a, p), p, a.len()),
        spec_let_binding(a, p) matches Ok((binding, _)) ==> binding_alike(
            binding,
            spec_let_binding(b, p)->Ok_0.0,
            rel,
        ),
    decreases a.len() - p, 120int,
{
    if 0 <= p < a.len() && a[p].kind is Ident && at(a, p + 1, TokenKindView::Colon) && 0 <= p + 2
        < a.len() && a[p + 2].kind is TypeId {
        lemma_initializer(a, b, p + 3, rel);
    }
}

proof fn lemma_next_binding(
    a: Seq<TokenView>,
    b: Seq<TokenView>,
    q: int,
    rel: spec_fn(SpanView, SpanView) -> bool,
)
    requires
        related(a, b, rel),
    ensures
        agree(spec_next_binding(a, q), spec_next_binding(b, q)),
        advances(spec_next_binding(a, q), q, a.len()),
        spec_next_binding(a, q) matches Ok((binding, _)) ==> binding_alike(
            binding,
            spec_next_binding(b, q)->Ok_0.0,
            rel,
        ),
    decreases a.len() - q, 125int,
{
    if at(a, q, TokenKindView::Comma) {
        lemma_let_binding(a, b, q + 1, rel);
    }
}

proof fn lemma_nest_bindings(
    bindings: Seq<BindingView>,
    body: ExpressionView,
    others: Seq<BindingView>,
    other: ExpressionView,
    rel: spec_fn(SpanView, SpanView) -> bool,
)
    requires
        bindings_alike(bindings, others, rel),
        expression_alike(body, other, rel),
    ensures
        expression_alike(nest_bindings(bindings, body), nest_bindings(others, other), rel),
    decreases bindings.len(),
{
    if bindings.len() > 0 {
        let last = bindings.last();
        let last_other = others.last();
        assert(binding_alike(last, last_other, rel));
        assert(data_alike(let_node(last, body).data, let_node(last_other, other).data, rel));
        assert(expression_alike(let_node(last, body), let_node(last_other, other), rel));
        assert forall|i: int| 0 <= i < bindings.drop_last().len() implies binding_alike(
            #[trigger] bindings.drop_last()[i],
            others.drop_last()[i],
            rel,
        ) by {
            assert(bindings.drop_last()[i] == bindings[i]);
            assert(others.drop_last()[i] == others[i]);
        }
        lemma_nest_bindings(
            bindings.drop_last(),
            let_node(last, body),
            others.drop_last(),
            let_node(last_other, other),
            rel,
        );
    }
}

proof fn lemma_let_rest(
    a: Seq<TokenView>,
    b: Seq<TokenView>,
    q: int,
    done: Seq<BindingView>,
    other: Seq<BindingView>,
    rel: spec_fn(SpanView, SpanView) -> bool,
)
    requires
        related(a, b, rel),
        bindings_alike(done, other, rel),
    ensures
        agree(spec_let_rest(a, q, done), spec_let_rest(b, q, other)),
        advances(spec_let_rest(a, q, done), q, a.len()),
        spec_let_rest(a, q, done) matches Ok((e, _)) ==> expression_alike(
            e,
            spec_let_rest(b, q, other)->Ok_0.0,
            rel,
        ),
    decreases a.len() - q, 130int,
{
    lemma_next_binding(a, b, q, rel);
    match checked(spec_next_binding(a, q), q, a.len()) {
        Ok((binding, r)) => {
            let binding_other = checked(spec_next_binding(b, q), q, b.len())->Ok_0.0;
            lemma_let_rest(a, b, r, done.push(binding), other.push(binding_other), rel);
        },
        Err(_) => {
            if at(a, q, TokenKindView::In) {
                lemma_expression(a, b, q + 1, rel);
                match checked(spec_expression(a, q + 1), q + 1, a.len()) {
                    Ok((body, _)) => {
                        let body_other = checked(spec_expression(b, q + 1), q + 1, b.len())->Ok_0.0;
                        lemma_nest_bindings(done, body, other, body_other, rel);
                    },
                    Err(_) => {},
                }
            }
        },
    }
}

proof fn lemma_let_expression(
    a: Seq<TokenView>,
    b: Seq<TokenView>,
    p: int,
    rel: spec_fn(SpanView, SpanView) -> bool,
)
    requires
        related(a, b, rel),
    ensures
        agree(spec_let_expression(a, p), spec_let_expression(b, p)),
        advances(spec_let_expression(a, p), p, a.len()),
        spec_let_expression(a, p) matches Ok((e, _)) ==> expression_alike(
            e,
            spec_let_expression(b, p)->Ok_0.0,
            rel,
        ),
    decreases a.len() - p, 20int,
{
    if at(a, p, TokenKindView::Let) {
        lemma_let_binding(a, b, p + 1, rel);
        match checked(spec_let_binding(a, p + 1), p + 1, a.len()) {
            Ok((first, q)) => {
                let other = checked(spec_let_binding(b, p + 1), p + 1, b.len())->Ok_0.0;
                lemma_let_rest(a, b, q, seq![first], seq![other], rel);
            },
            Err(_) => {},
        }
    }
}

proof fn lemma_more_formals(
    a: Seq<TokenView>,
    b: Seq<TokenView>,
    q: int,
    done: Seq<FormalView>,
    other: Seq<FormalView>,
    rel: spec_fn(SpanView, SpanView) -> bool,
)
    requires
        related(a, b, rel),
        formals_alike(done, other, rel),
    ensures
        spec_more_formals(a, q, done).1 == spec_more_formals(b, q, other).1,
        q <= spec_more_formals(a, q, done).1,
        q <= a.len() ==> spec_more_formals(a, q, done).1 <= a.len(),
        formals_alike(spec_more_formals(a, q, done).0, spec_more_formals(b, q, other).0, rel),
    decreases a.len() - q,
{
    if at(a, q, TokenKindView::Comma) {
        match spec_formal(a, q + 1) {
            Ok((next, r)) => {
                let next_other = spec_formal(b, q + 1)->Ok_0.0;
                lemma_more_formals(a, b, r, done.push(next), other.push(next_other), rel);
            },
            Err(_) => {},
        }
    }
}

proof fn lemma_formals(
    a: Seq<TokenView>,
    b: Seq<TokenView>,
    p: int,
    rel: spec_fn(SpanView, SpanView) -> bool,
)
    requires
        related(a, b, rel),
    ensures
        spec_formals(a, p).1 == spec_formals(b, p).1,
        p <= spec_formals(a, p).1,
        p <= a.len() ==> spec_formals(a, p).1 <= a.len(),
        formals_alike(spec_formals(a, p).0, spec_formals(b, p).0, rel),
{
    match spec_formal(a, p) {
        Ok((first, q)) => {
            let other = spec_formal(b, p)->Ok_0.0;
            lemma_more_formals(a, b, q, seq![first], seq![other], rel);
        },
        Err(_) => {},
    }
}

proof fn lemma_attribute(
    a: Seq<TokenView>,
    b: Seq<TokenView>,
    p: int,
    rel: spec_fn(SpanView, SpanView) -> bool,
)
    requires
        related(a, b, rel),
    ensures
        agree(spec_attribute(a, p), spec_attribute(b, p)),
        advances(spec_attribute(a, p), p, a.len()),
        spec_attribute(a, p) matches Ok((f, _)) ==> feature_alike(
            f,
            spec_attribute(b, p)->Ok_0.0,
            rel,
        ),
{
    lemma_initializer(a, b, p + 3, rel);
}

proof fn lemma_method(
    a: Seq<TokenView>,
    b: Seq<TokenView>,
    p: int,
    rel: spec_fn(SpanView, SpanView) -> bool,
)
    requires
        related(a, b, rel),
    ensures
        agree(spec_method(a, p), spec_method(b, p)),
        advances(spec_method(a, p), p, a.len()),
        spec_method(a, p) matches Ok((f, _)) ==> feature_alike(f, spec_method(b, p)->Ok_0.0, rel),
{
    lemma_formals(a, b, p + 2, rel);
    let q = spec_formals(a, p + 2).1;
    lemma_expression(a, b, q + 4, rel);
}

proof fn lemma_feature(
    a: Seq<TokenView>,
    b: Seq<TokenView>,
    p: int,
    rel: spec_fn(SpanView, SpanView) -> bool,
)
    requires
        related(a, b, rel),
    ensures
        agree(spec_feature(a, p), spec_feature(b, p)),
        advances(spec_feature(a, p), p, a.len()),
        spec_feature(a, p) matches Ok((f, _)) ==> feature_alike(f, spec_feature(b, p)->Ok_0.0, rel),
{
    lemma_attribute(a, b, p, rel);
    lemma_method(a, b, p, rel);
}

proof fn lemma_features(
    a: Seq<TokenView>,
    b: Seq<TokenView>,
    q: int,
    done: Seq<FeatureView>,
    other: Seq<FeatureView>,
    rel: spec_fn(SpanView, SpanView) -> bool,
)
    requires
        related(a, b, rel),
        features_alike(done, other, rel),
    ensures
        spec_features(a, q, done).1 == spec_features(b, q, other).1,
        q <= spec_features(a, q, done).1,
        q <= a.len() ==> spec_features(a, q, done).1 <= a.len(),
        features_alike(spec_features(a, q, done).0, spec_features(b, q, other).0, rel),
    decreases a.len() - q,
{
    lemma_feature(a, b, q, rel);
    match checked(spec_feature(a, q), q, a.len()) {
        Ok((next, r)) => {
            let next_other = checked(spec_feature(b, q), q, b.len())->Ok_0.0;
            lemma_features(a, b, r, done.push(next), other.push(next_other), rel);
        },
        Err(_) => {},
    }
}

proof fn lemma_class(
    a: Seq<TokenView>,
    b: Seq<TokenView>,
    p: int,
    rel: spec_fn(SpanView, SpanView) -> bool,
)
    requires
        related(a, b, rel),
    ensures
        agree(spec_class(a, p), spec_class(b, p)),
        advances(spec_class(a, p), p, a.len()),
        spec_class(a, p) matches Ok((c, _)) ==> class_alike(c, spec_class(b, p)->Ok_0.0, rel),
{
    if at(a, p, TokenKindView::Class) && 0 <= p + 1 < a.len() && a[p + 1].kind is TypeId {
        let inherits = at(a, p + 2, TokenKindView::Inherits) && 0 <= p + 3 < a.len() && a[p
            + 3].kind is TypeId;
        let open = if inherits {
            p + 4
        } else {
            p + 2
        };
        assert(b[p + 1].kind is TypeId);
        assert(inherits == (at(b, p + 2, TokenKindView::Inherits) && 0 <= p + 3 < b.len() && b[p
            + 3].kind is TypeId));
        if at(a, open, TokenKindView::OpenBraces) {
            assert(features_alike(Seq::<FeatureView>::empty(), Seq::<FeatureView>::empty(), rel));
            lemma_features(a, b, open + 1, Seq::empty(), Seq::empty(), rel);
        }
    }
}

proof fn lemma_class_item(
    a: Seq<TokenView>,
    b: Seq<TokenView>,
    p: int,
    rel: spec_fn(SpanView, SpanView) -> bool,
)
    requires
        related(a, b, rel),
    ensures
        agree(spec_class_item(a, p), spec_class_item(b, p)),
        advances(spec_class_item(a, p), p, a.len()),
        spec_class_item(a, p) matches Ok((c, _)) ==> class_alike(
            c,
            spec_class_item(b, p)->Ok_0.0,
            rel,
        ),
{
    lemma_class(a, b, p, rel);
}

proof fn lemma_classes(
    a: Seq<TokenView>,
    b: Seq<TokenView>,
    q: int,
    done: Seq<ClassView>,
    other: Seq<ClassView>,
    rel: spec_fn(SpanView, SpanView) -> bool,
)
    requires
        related(a, b, rel),
        classes_alike(done, other, rel),
    ensures
        spec_classes(a, q, done).1 == spec_classes(b, q, other).1,
        done.len() <= spec_classes(a, q, done).0.len(),
        q <= spec_classes(a, q, done).1,
        q <= a.len() ==> spec_classes(a, q, done).1 <= a.len(),
        classes_alike(spec_classes(a, q, done).0, spec_classes(b, q, other).0, rel),
    decreases a.len() - q,
{
    lemma_class_item(a, b, q, rel);
    match checked(spec_class_item(a, q), q, a.len()) {
        Ok((next, r)) => {
            let next_other = checked(spec_class_item(b, q), q, b.len())->Ok_0.0;
            lemma_classes(a, b, r, done.push(next), other.push(next_other), rel);
        },
        Err(_) => {},
    }
}

/// Two sequences of tokens of equal kinds are programs both or neither, and
/// parses of them stop at the same token. Their trees are alike, and the
/// places of their nodes are in every relation that the places of the tokens
/// are in.
pub proof fn lemma_program(
    a: Seq<TokenView>,
    b: Seq<TokenView>,
    rel: spec_fn(SpanView, SpanView) -> bool,
)
    requires
        related(a, b, rel),
    ensures
        agree(spec_program(a, 0), spec_program(b, 0)),
        advances(spec_program(a, 0), 0, a.len()),
        spec_program(a, 0) matches Ok((program, _)) ==> program_alike(
            program,
            spec_program(b, 0)->Ok_0.0,
            rel,
        ),
{
    lemma_class_item(a, b, 0, rel);
    match checked(spec_class_item(a, 0), 0, a.len()) {
        Ok((first, q)) => {
            let other = checked(spec_class_item(b, 0), 0, b.len())->Ok_0.0;
            lemma_classes(a, b, q, seq![first], seq![other], rel);
        },
        Err(_) => {},
    }
}

/// The relation that holds of any two places.
pub open spec fn any_places() -> spec_fn(SpanView, SpanView) -> bool {
    |x: SpanView, y: SpanView| true
}

/// Whether a sequence of tokens is a program, and where a parse of it stops
/// if it is none, depends on the kinds of the tokens alone.
pub proof fn lemma_parse_depends_on_kinds(a: Seq<TokenView>, b: Seq<TokenView>)
    requires
        same_kinds(a, b),
    ensures
        agree(spec_program(a, 0), spec_program(b, 0)),
{
    assert(related(a, b, any_places()));
    lemma_program(a, b, any_places());
}

/// Whether a source text is a program: it scans, and its tokens parse.
pub open spec fn is_program(s: Seq<char>) -> bool {
    spec_lex(s, Seq::empty()) is Ok && spec_program(spec_lex(s, Seq::empty())->Ok_0, 0) is Ok
}

/// Scanning a source under any file label and parsing the tokens succeeds
/// if and only if the source text is a program.
pub proof fn lemma_programs_parse(s: Seq<char>, label: Seq<char>)
    ensures
        (spec_lex(s, label) is Ok && spec_program(spec_lex(s, label)->Ok_0, 0) is Ok)
            <==> is_program(s),
{
    lemma_label_marks_places_only(s, label, Seq::empty());
    if spec_lex(s, label) is Ok {
        let a = spec_lex(s, label)->Ok_0;
        let b = spec_lex(s, Seq::empty())->Ok_0;
        assert(related(a, b, any_places()));
        lemma_program(a, b, any_places());
    }
}

/// The relation of a place to the same place in a file labelled `label`:
/// the same line, column and offset, and that label.
pub open spec fn relabelled(label: Seq<char>) -> spec_fn(SpanView, SpanView) -> bool {
    |x: SpanView, y: SpanView|
        y.line == x.line && y.column == x.column && y.offset == x.offset && y.extra == label
}

/// The file label marks the places and nothing else: scanned under two
/// labels, a source parses under both or under neither; where it does not,
/// the two parses give up at the same token; where it does, the two trees are
/// alike in every form, name, operator and literal, and every node of the
/// second stands where its match in the first stands, but in the file with
/// the second label.
pub proof fn lemma_label_marks_tree_places_only(s: Seq<char>, first: Seq<char>, second: Seq<char>)
    requires
        spec_lex(s, first) is Ok,
    ensures
        spec_lex(s, second) is Ok,
        agree(
            spec_program(spec_lex(s, first)->Ok_0, 0),
            spec_program(spec_lex(s, second)->Ok_0, 0),
        ),
        spec_program(spec_lex(s, first)->Ok_0, 0) matches Ok((program, _)) ==> program_alike(
            program,
            spec_program(spec_lex(s, second)->Ok_0, 0)->Ok_0.0,
            relabelled(second),
        ),
{
    lemma_label_marks_places_only(s, first, second);
    let a = spec_lex(s, first)->Ok_0;
    let b = spec_lex(s, second)->Ok_0;
    assert(related(a, b, relabelled(second)));
    lemma_program(a, b, relabelled(second));
}

/// The relation of every place that is `good` to every place.
pub open spec fn first_is(good: spec_fn(SpanView) -> bool) -> spec_fn(SpanView, SpanView) -> bool {
    |x: SpanView, y: SpanView| good(x)
}

/// Whether a program is sound: it holds a class, every block holds an
/// expression and every case a branch, and the place of every node is
/// `good`. This is the program alike to itself, with every place `good`.
pub open spec fn program_sound(p: ProgramView, good: spec_fn(SpanView) -> bool) -> bool {
    program_alike(p, p, first_is(good))
}

/// The places whose line lies between 1 and `lines`.
pub open spec fn line_within(lines: nat) -> spec_fn(SpanView) -> bool {
    |l: SpanView| 1 <= l.line <= lines
}

/// The places of the tokens `ts`.
pub open spec fn place_of_token(ts: Seq<TokenView>) -> spec_fn(SpanView) -> bool {
    |l: SpanView| exists|i: int| 0 <= i < ts.len() && (#[trigger] ts[i]).location == l
}

/// The tree of a program is sound, and every node of it has the place of
/// one of the tokens.
pub proof fn lemma_node_places(ts: Seq<TokenView>)
    requires
        spec_program(ts, 0) is Ok,
    ensures
        program_sound(spec_program(ts, 0)->Ok_0.0, place_of_token(ts)),
{
    assert(related(ts, ts, first_is(place_of_token(ts))));
    lemma_program(ts, ts, first_is(place_of_token(ts)));
}

/// The tree of a scanned and parsed source is sound, and every node stands
/// on a line of the source: no line is 0 and none lies behind the last line.
pub proof fn lemma_node_lines(s: Seq<char>, label: Seq<char>)
    requires
        spec_lex(s, label) is Ok,
        spec_program(spec_lex(s, label)->Ok_0, 0) is Ok,
    ensures
        program_sound(
            spec_program(spec_lex(s, label)->Ok_0, 0)->Ok_0.0,
            line_within(line_count(s)),
        ),
{
    lemma_token_places(s, label);
    let a = spec_lex(s, label)->Ok_0;
    assert(related(a, a, first_is(line_within(line_count(s)))));
    lemma_program(a, a, first_is(line_within(line_count(s))));
}

/// An expression that is recognised is not empty and ends inside the
/// tokens: the bound that the grammar writes out with `checked` never changes
/// what the rule answers.
pub proof fn lemma_expression_advances(ts: Seq<TokenView>, p: int)
    ensures
        checked(spec_expression(ts, p), p, ts.len()) == spec_expression(ts, p),
{
    assert(related(ts, ts, any_places()));
    lemma_expression(ts, ts, p, any_places());
}

/// A feature that is recognised is not empty and ends inside the tokens.
pub proof fn lemma_feature_advances(ts: Seq<TokenView>, p: int)
    ensures
        checked(spec_feature(ts, p), p, ts.len()) == spec_feature(ts, p),
{
    assert(related(ts, ts, any_places()));
    lemma_feature(ts, ts, p, any_places());
}

/// A class and its semicolon, when recognised, are not empty and end inside
/// the tokens.
pub proof fn lemma_class_item_advances(ts: Seq<TokenView>, p: int)
    ensures
        checked(spec_class_item(ts, p), p, ts.len()) == spec_class_item(ts, p),
{
    assert(related(ts, ts, any_places()));
    lemma_class_item(ts, ts, p, any_places());
}

} // verus!
