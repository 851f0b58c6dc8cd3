//! The tree dump: a parse tree written out as indented text.
//!
//! Every node is written as a `#` line that holds its line number, a line
//! that holds its tag, and its children one level deeper. A level is two
//! blanks. Every expression closes with a `: _no_type` line, and a missing
//! initial value is written as a `_no_expr` node on line 0.

use super::{
    BinaryOperator, CaseBranch, CaseBranchView, Class, ClassView, Expression, ExpressionData,
    ExpressionDataView, ExpressionView, Feature, FeatureData, FeatureDataView, FeatureView, Formal,
    FormalView, Program, ProgramView, UnaryOperator,
};
use super::{branch_views, class_views, expression_views, feature_views, formal_views};
use crate::util::{decimal, decimal_int, escape, i32_text, lemma_concat_assoc, push_decimal, quoted};
use vstd::prelude::*;

verus! {

/// `n` blanks.
pub open spec fn spaces(n: nat) -> Seq<char> {
    Seq::new(n, |i: int| ' ')
}

/// The indentation one level deeper than `pad`.
pub open spec fn indented(pad: Seq<char>) -> Seq<char> {
    pad + seq![' ', ' ']
}

/// One line of the dump: indentation, text, line feed.
#[verifier::opaque]
pub open spec fn line(pad: Seq<char>, text: Seq<char>) -> Seq<char> {
    pad + text + seq!['\n']
}

/// The line that holds a node's line number.
pub open spec fn number_line(pad: Seq<char>, n: nat) -> Seq<char> {
    line(pad, seq!['#'] + decimal(n))
}

/// The line that closes every expression.
pub open spec fn no_type_line(pad: Seq<char>) -> Seq<char> {
    line(pad, ": _no_type"@)
}

/// The node written in place of a missing initial value.
#[verifier::opaque]
pub open spec fn no_expression_text(pad: Seq<char>) -> Seq<char> {
    line(pad, "#0"@) + line(pad, "_no_expr"@) + no_type_line(pad)
}

/// The tag of a prefix operator.
pub open spec fn unary_tag(op: UnaryOperator) -> Seq<char> {
    match op {
        UnaryOperator::Not => "_comp"@,
        UnaryOperator::Negative => "_neg"@,
        UnaryOperator::IsVoid => "_isvoid"@,
    }
}

/// The tag of an infix operator.
pub open spec fn binary_tag(op: BinaryOperator) -> Seq<char> {
    match op {
        BinaryOperator::Equals => "_eq"@,
        BinaryOperator::LessThanOrEquals => "_leq"@,
        BinaryOperator::LessThan => "_lt"@,
        BinaryOperator::Add => "_plus"@,
        BinaryOperator::Subtract => "_sub"@,
        BinaryOperator::Multiply => "_mul"@,
        BinaryOperator::Divide => "_divide"@,
    }
}

/// The dump of an expression at indentation `pad`.
pub open spec fn expression_text(e: ExpressionView, pad: Seq<char>) -> Seq<char>
    decreases e,
{
    number_line(pad, e.location.line) + expression_data_text(e.data, pad)
}

/// The dumps of a sequence of expressions, in order.
pub open spec fn expressions_text(es: Seq<ExpressionView>, pad: Seq<char>) -> Seq<char>
    decreases es,
{
    if es.len() == 0 {
        Seq::empty()
    } else {
        expressions_text(es.drop_last(), pad) + expression_text(es.last(), pad)
    }
}

/// The dump of a case branch at indentation `pad`.
pub open spec fn branch_text(b: CaseBranchView, pad: Seq<char>) -> Seq<char>
    decreases b,
{
    number_line(pad, b.location.line) + line(pad, "_branch"@) + line(indented(pad), b.ident) + line(
        indented(pad),
        b.type_id,
    ) + expression_text(b.expression, indented(pad))
}

/// The dumps of a sequence of case branches, in order.
pub open spec fn branches_text(bs: Seq<CaseBranchView>, pad: Seq<char>) -> Seq<char>
    decreases bs,
{
    if bs.len() == 0 {
        Seq::empty()
    } else {
        branches_text(bs.drop_last(), pad) + branch_text(bs.last(), pad)
    }
}

/// The dump of an expression without its line number: the tag, the children
/// one level deeper, the closing line.
pub open spec fn expression_data_text(d: ExpressionDataView, pad: Seq<char>) -> Seq<char>
    decreases d,
{
    let next = indented(pad);
    match d {
        ExpressionDataView::Block(body) => line(pad, "_block"@) + expressions_text(body, next)
            + no_type_line(pad),
        ExpressionDataView::Conditional(cond, then_branch, else_branch) => line(pad, "_cond"@)
            + expression_text(*cond, next) + expression_text(*then_branch, next) + expression_text(
            *else_branch,
            next,
        ) + no_type_line(pad),
        ExpressionDataView::Loop(cond, body) => line(pad, "_loop"@) + expression_text(*cond, next)
            + expression_text(*body, next) + no_type_line(pad),
        ExpressionDataView::Case(subject, branches) => line(pad, "_typcase"@) + expression_text(
            *subject,
            next,
        ) + branches_text(branches, next) + no_type_line(pad),
        ExpressionDataView::Let(name, type_id, init, body) => line(pad, "_let"@) + line(next, name)
            + line(next, type_id) + (match init {
            Some(e) => expression_text(*e, next),
            None => no_expression_text(next),
        }) + expression_text(*body, next) + no_type_line(pad),
        ExpressionDataView::Assign(name, value) => line(pad, "_assign"@) + line(next, name)
            + expression_text(*value, next) + no_type_line(pad),
        ExpressionDataView::New(type_id) => line(pad, "_new"@) + line(next, type_id) + no_type_line(
            pad,
        ),
        ExpressionDataView::UnaryOperation(op, operand) => line(pad, unary_tag(op))
            + expression_text(*operand, next) + no_type_line(pad),
        ExpressionDataView::BinaryOperation(op, left, right) => line(pad, binary_tag(op))
            + expression_text(*left, next) + expression_text(*right, next) + no_type_line(pad),
        ExpressionDataView::Object(name) => line(pad, "_object"@) + line(next, name) + no_type_line(
            pad,
        ),
        ExpressionDataView::MethodCall(receiver, static_type, name, args) => (match static_type {
            Some(type_id) => line(pad, "_static_dispatch"@) + expression_text(*receiver, next)
                + line(next, type_id),
            None => line(pad, "_dispatch"@) + expression_text(*receiver, next),
        }) + line(next, name) + line(next, "("@) + expressions_text(args, next) + line(next, ")"@)
            + no_type_line(pad),
        ExpressionDataView::IntLiteral(i) => line(pad, "_int"@) + line(next, decimal_int(i))
            + no_type_line(pad),
        ExpressionDataView::StrLiteral(s) => line(pad, "_string"@) + line(
            next,
            seq!['"'] + escape(s) + seq!['"'],
        ) + no_type_line(pad),
        ExpressionDataView::BoolLiteral(b) => line(pad, "_bool"@) + line(
            next,
            if b {
                "1"@
            } else {
                "0"@
            },
        ) + no_type_line(pad),
    }
}

/// The dump of a formal at indentation `pad`.
pub open spec fn formal_text(f: FormalView, pad: Seq<char>) -> Seq<char> {
    number_line(pad, f.location.line) + line(pad, "_formal"@) + line(indented(pad), f.name) + line(
        indented(pad),
        f.type_id,
    )
}

/// The dumps of a sequence of formals, in order.
pub open spec fn formals_text(fs: Seq<FormalView>, pad: Seq<char>) -> Seq<char>
    decreases fs.len(),
{
    if fs.len() == 0 {
        Seq::empty()
    } else {
        formals_text(fs.drop_last(), pad) + formal_text(fs.last(), pad)
    }
}

/// The dump of a feature without its line number.
pub open spec fn feature_data_text(d: FeatureDataView, pad: Seq<char>) -> Seq<char> {
    let next = indented(pad);
    match d {
        FeatureDataView::Attribute(name, type_id, init) => line(pad, "_attr"@) + line(next, name)
            + line(next, type_id) + (match init {
            Some(e) => expression_text(e, next),
            None => no_expression_text(next),
        }),
        FeatureDataView::Method(name, type_id, formals, body) => line(pad, "_method"@) + line(
            next,
            name,
        ) + formals_text(formals, next) + line(next, type_id) + expression_text(body, next),
    }
}

/// The dump of a feature at indentation `pad`.
pub open spec fn feature_text(f: FeatureView, pad: Seq<char>) -> Seq<char> {
    number_line(pad, f.location.line) + feature_data_text(f.data, pad)
}

/// The dumps of a sequence of features, in order.
pub open spec fn features_text(fs: Seq<FeatureView>, pad: Seq<char>) -> Seq<char>
    decreases fs.len(),
{
    if fs.len() == 0 {
        Seq::empty()
    } else {
        features_text(fs.drop_last(), pad) + feature_text(fs.last(), pad)
    }
}

/// The dump of a class at indentation `pad`, with `label` quoted as the label
/// of its file.
pub open spec fn labelled_class_text(c: ClassView, label: Seq<char>, pad: Seq<char>) -> Seq<char> {
    let next = indented(pad);
    number_line(pad, c.location.line) + line(pad, "_class"@) + line(next, c.name) + line(
        next,
        c.super_class_name,
    ) + line(next, seq!['"'] + label + seq!['"']) + line(next, "("@) + features_text(
        c.features,
        next,
    ) + line(next, ")"@)
}

/// The dump of a class at indentation `pad`. The quoted file label is that
/// of the class's own location.
pub open spec fn class_text(c: ClassView, pad: Seq<char>) -> Seq<char> {
    labelled_class_text(c, c.location.extra, pad)
}

/// The dumps of a sequence of classes, in order.
pub open spec fn classes_text(cs: Seq<ClassView>, pad: Seq<char>) -> Seq<char>
    decreases cs.len(),
{
    if cs.len() == 0 {
        Seq::empty()
    } else {
        classes_text(cs.drop_last(), pad) + class_text(cs.last(), pad)
    }
}

/// The line number that heads the dump of a program: that of its first
/// class, or 0 where it has none.
pub open spec fn program_line(p: ProgramView) -> nat {
    if p.classes.len() == 0 {
        0
    } else {
        p.classes[0].location.line
    }
}

/// The dump of a program: its line number and tag at the left margin, its
/// classes one level deeper.
pub open spec fn program_text(p: ProgramView) -> Seq<char> {
    number_line(Seq::empty(), program_line(p)) + line(Seq::empty(), "_program"@) + classes_text(
        p.classes,
        indented(Seq::empty()),
    )
}

/// Appends the indentation.
fn write_pad(out: &mut String, pad: &Vec<char>)
    ensures
        final(out)@ == old(out)@ + pad@,
{
    let mut i: usize = 0;
    while i < pad.len()
        invariant
            i <= pad.len(),
            out@ == old(out)@ + pad@.take(i as int),
        decreases pad.len() - i,
    {
        out.push(pad[i]);
        proof {
            assert(pad@.take(i + 1) == pad@.take(i as int).push(pad@[i as int]));
        }
        i += 1;
    }
    proof {
        assert(pad@.take(pad.len() as int) == pad@);
    }
}

/// Appends one line of the dump.
pub(crate) fn write_line(out: &mut String, pad: &Vec<char>, text: &str)
    ensures
        final(out)@ == old(out)@ + line(pad@, text@),
{
    reveal(line);
    write_pad(out, pad);
    out.append(text);
    out.push('\n');
}

/// Appends the line that holds a node's line number.
pub(crate) fn write_number_line(out: &mut String, pad: &Vec<char>, n: usize)
    ensures
        final(out)@ == old(out)@ + number_line(pad@, n as nat),
{
    reveal(line);
    write_pad(out, pad);
    out.push('#');
    push_decimal(out, n as u64);
    out.push('\n');
}

/// Appends the line that closes an expression.
fn write_no_type(out: &mut String, pad: &Vec<char>)
    ensures
        final(out)@ == old(out)@ + no_type_line(pad@),
{
    write_line(out, pad, ": _no_type");
}

/// Appends the node that stands for a missing initial value.
pub(crate) fn write_no_expression(out: &mut String, pad: &Vec<char>)
    ensures
        final(out)@ == old(out)@ + no_expression_text(pad@),
{
    reveal(no_expression_text);
    write_line(out, pad, "#0");
    write_line(out, pad, "_no_expr");
    write_no_type(out, pad);
}

/// Makes the indentation one level deeper.
pub(crate) fn indent(pad: &mut Vec<char>)
    ensures
        final(pad)@ == indented(old(pad)@),
{
    pad.push(' ');
    pad.push(' ');
}

/// Takes one level off the indentation.
pub(crate) fn dedent(pad: &mut Vec<char>)
    requires
        old(pad)@.len() >= 2,
    ensures
        final(pad)@ == old(pad)@.take(old(pad)@.len() - 2),
{
    pad.pop();
    pad.pop();
}

/// One level off the indentation one level deeper is the indentation.
pub(crate) proof fn lemma_dedent(base: Seq<char>)
    ensures
        indented(base).len() >= 2,
        indented(base).take(indented(base).len() - 2) == base,
{
}

/// Appends the dump of an expression.
#[verifier::loop_isolation(false)]
fn write_expression(e: &Expression, pad: &mut Vec<char>, out: &mut String)
    ensures
        final(pad)@ == old(pad)@,
        final(out)@ == old(out)@ + expression_text(e@, old(pad)@),
    decreases e,
{
    write_number_line(out, pad, e.location.line);
    write_expression_data(&e.data, pad, out);
}

/// Appends the dumps of expressions, in order.
#[verifier::loop_isolation(false)]
fn write_expressions(es: &Vec<Expression>, pad: &mut Vec<char>, out: &mut String)
    ensures
        final(pad)@ == old(pad)@,
        final(out)@ == old(out)@ + expressions_text(expression_views(es@), old(pad)@),
    decreases es,
{
    let ghost views = expression_views(es@);
    let mut i: usize = 0;
    while i < es.len()
        invariant
            i <= es.len(),
            pad@ == old(pad)@,
            out@ == old(out)@ + expressions_text(views.take(i as int), pad@),
        decreases es.len() - i,
    {
        proof {
            assert(views.take(i + 1).drop_last() == views.take(i as int));
            assert(views.take(i + 1).last() == es@[i as int]@);
        }
        write_expression(&es[i], pad, out);
        i += 1;
    }
    proof {
        assert(views.take(es.len() as int) == views);
    }
}

/// Appends the dump of a case branch.
#[verifier::loop_isolation(false)]
fn write_branch(b: &CaseBranch, pad: &mut Vec<char>, out: &mut String)
    ensures
        final(pad)@ == old(pad)@,
        final(out)@ == old(out)@ + branch_text(b@, old(pad)@),
    decreases b,
{
    broadcast use lemma_concat_assoc;

    write_number_line(out, pad, b.location.line);
    write_line(out, pad, "_branch");
    indent(pad);
    write_line(out, pad, b.ident.as_str());
    write_line(out, pad, b.type_id.as_str());
    write_expression(&b.expression, pad, out);
    proof {
        lemma_dedent(old(pad)@);
    }
    dedent(pad);
}

/// Appends the dumps of case branches, in order.
#[verifier::loop_isolation(false)]
fn write_branches(bs: &Vec<CaseBranch>, pad: &mut Vec<char>, out: &mut String)
    ensures
        final(pad)@ == old(pad)@,
        final(out)@ == old(out)@ + branches_text(branch_views(bs@), old(pad)@),
    decreases bs,
{
    let ghost views = branch_views(bs@);
    let mut i: usize = 0;
    while i < bs.len()
        invariant
            i <= bs.len(),
            pad@ == old(pad)@,
            out@ == old(out)@ + branches_text(views.take(i as int), pad@),
        decreases bs.len() - i,
    {
        proof {
            assert(views.take(i + 1).drop_last() == views.take(i as int));
            assert(views.take(i + 1).last() == bs@[i as int]@);
        }
        write_branch(&bs[i], pad, out);
        i += 1;
    }
    proof {
        assert(views.take(bs.len() as int) == views);
    }
}

/// Appends the dump of an expression without its line number.
#[verifier::loop_isolation(false)]
#[verifier::rlimit(60)]
fn write_expression_data(d: &ExpressionData, pad: &mut Vec<char>, out: &mut String)
    ensures
        final(pad)@ == old(pad)@,
        final(out)@ == old(out)@ + expression_data_text(d@, old(pad)@),
    decreases d,
{
    broadcast use lemma_concat_assoc;

    proof {
        lemma_dedent(old(pad)@);
    }
    match d {
        ExpressionData::New(type_id) => {
            write_line(out, pad, "_new");
            indent(pad);
            write_line(out, pad, type_id.as_str());
            dedent(pad);
            write_no_type(out, pad);
        },
        ExpressionData::Object(name) => {
            write_line(out, pad, "_object");
            indent(pad);
            write_line(out, pad, name.as_str());
            dedent(pad);
            write_no_type(out, pad);
        },
        ExpressionData::IntLiteral(i) => {
            write_line(out, pad, "_int");
            indent(pad);
            let text = i32_text(*i);
            write_line(out, pad, text.as_str());
            dedent(pad);
            write_no_type(out, pad);
        },
        ExpressionData::StrLiteral(s) => {
            write_line(out, pad, "_string");
            indent(pad);
            let text = quoted(s.as_str());
            write_line(out, pad, text.as_str());
            dedent(pad);
            write_no_type(out, pad);
        },
        ExpressionData::BoolLiteral(b) => {
            write_line(out, pad, "_bool");
            indent(pad);
            if *b {
                write_line(out, pad, "1");
            } else {
                write_line(out, pad, "0");
            }
            dedent(pad);
            write_no_type(out, pad);
        },
        ExpressionData::Assign(name, value) => {
            write_line(out, pad, "_assign");
            indent(pad);
            write_line(out, pad, name.as_str());
            write_expression(&**value, pad, out);
            dedent(pad);
            write_no_type(out, pad);
        },
        ExpressionData::UnaryOperation(op, operand) => {
            match op {
                UnaryOperator::Not => write_line(out, pad, "_comp"),
                UnaryOperator::Negative => write_line(out, pad, "_neg"),
                UnaryOperator::IsVoid => write_line(out, pad, "_isvoid"),
            }
            indent(pad);
            write_expression(&**operand, pad, out);
            dedent(pad);
            write_no_type(out, pad);
        },
        ExpressionData::BinaryOperation(op, left, right) => {
            match op {
                BinaryOperator::Equals => write_line(out, pad, "_eq"),
                BinaryOperator::LessThanOrEquals => write_line(out, pad, "_leq"),
                BinaryOperator::LessThan => write_line(out, pad, "_lt"),
                BinaryOperator::Add => write_line(out, pad, "_plus"),
                BinaryOperator::Subtract => write_line(out, pad, "_sub"),
                BinaryOperator::Multiply => write_line(out, pad, "_mul"),
                BinaryOperator::Divide => write_line(out, pad, "_divide"),
            }
            indent(pad);
            write_expression(&**left, pad, out);
            write_expression(&**right, pad, out);
            dedent(pad);
            write_no_type(out, pad);
        },
        ExpressionData::Conditional(cond, then_branch, else_branch) => {
            write_line(out, pad, "_cond");
            indent(pad);
            write_expression(&**cond, pad, out);
            write_expression(&**then_branch, pad, out);
            write_expression(&**else_branch, pad, out);
            dedent(pad);
            write_no_type(out, pad);
        },
        ExpressionData::Loop(cond, body) => {
            write_line(out, pad, "_loop");
            indent(pad);
            write_expression(&**cond, pad, out);
            write_expression(&**body, pad, out);
            dedent(pad);
            write_no_type(out, pad);
        },
        ExpressionData::Block(body) => {
            write_line(out, pad, "_block");
            indent(pad);
            write_expressions(body, pad, out);
            dedent(pad);
            write_no_type(out, pad);
        },
        ExpressionData::Case(subject, branches) => {
            write_line(out, pad, "_typcase");
            indent(pad);
            write_expression(&**subject, pad, out);
            write_branches(branches, pad, out);
            dedent(pad);
            write_no_type(out, pad);
        },
        ExpressionData::Let(name, type_id, init, body) => {
            write_line(out, pad, "_let");
            indent(pad);
            write_line(out, pad, name.as_str());
            write_line(out, pad, type_id.as_str());
            match &**init {
                Some(e) => {
                    write_expression(e, pad, out);
                },
                None => {
                    write_no_expression(out, pad);
                },
            }
            write_expression(&**body, pad, out);
            dedent(pad);
            write_no_type(out, pad);
        },
        ExpressionData::MethodCall(receiver, static_type, name, args) => {
            match static_type {
                Some(type_id) => {
                    write_line(out, pad, "_static_dispatch");
                    indent(pad);
                    write_expression(&**receiver, pad, out);
                    write_line(out, pad, type_id.as_str());
                },
                None => {
                    write_line(out, pad, "_dispatch");
                    indent(pad);
                    write_expression(&**receiver, pad, out);
                },
            }
            write_line(out, pad, name.as_str());
            write_line(out, pad, "(");
            write_expressions(args, pad, out);
            write_line(out, pad, ")");
            dedent(pad);
            write_no_type(out, pad);
        },
    }
}

/// Appends the dump of a formal.
fn write_formal(f: &Formal, pad: &mut Vec<char>, out: &mut String)
    ensures
        final(pad)@ == old(pad)@,
        final(out)@ == old(out)@ + formal_text(f@, old(pad)@),
{
    broadcast use lemma_concat_assoc;

    proof {
        lemma_dedent(old(pad)@);
    }
    write_number_line(out, pad, f.location.line);
    write_line(out, pad, "_formal");
    indent(pad);
    write_line(out, pad, f.name.as_str());
    write_line(out, pad, f.type_id.as_str());
    dedent(pad);
}

/// Appends the dumps of formals, in order.
fn write_formals(fs: &Vec<Formal>, pad: &mut Vec<char>, out: &mut String)
    ensures
        final(pad)@ == old(pad)@,
        final(out)@ == old(out)@ + formals_text(formal_views(fs@), old(pad)@),
{
    let ghost views = formal_views(fs@);
    let mut i: usize = 0;
    while i < fs.len()
        invariant
            i <= fs.len(),
            views == formal_views(fs@),
            pad@ == old(pad)@,
            out@ == old(out)@ + formals_text(views.take(i as int), pad@),
        decreases fs.len() - i,
    {
        proof {
            assert(views.take(i + 1).drop_last() == views.take(i as int));
            assert(views.take(i + 1).last() == fs@[i as int]@);
        }
        write_formal(&fs[i], pad, out);
        i += 1;
    }
    proof {
        assert(views.take(fs.len() as int) == views);
    }
}

/// Appends the dump of a feature without its line number.
fn write_feature_data(d: &FeatureData, pad: &mut Vec<char>, out: &mut String)
    ensures
        final(pad)@ == old(pad)@,
        final(out)@ == old(out)@ + feature_data_text(d@, old(pad)@),
{
    broadcast use lemma_concat_assoc;

    proof {
        lemma_dedent(old(pad)@);
    }
    match d {
        FeatureData::Attribute(name, type_id, init) => {
            write_line(out, pad, "_attr");
            indent(pad);
            write_line(out, pad, name.as_str());
            write_line(out, pad, type_id.as_str());
            match init {
                Some(e) => {
                    write_expression(e, pad, out);
                },
                None => {
                    write_no_expression(out, pad);
                },
            }
            dedent(pad);
        },
        FeatureData::Method(name, type_id, formals, body) => {
            write_line(out, pad, "_method");
            indent(pad);
            write_line(out, pad, name.as_str());
            write_formals(formals, pad, out);
            write_line(out, pad, type_id.as_str());
            write_expression(body, pad, out);
            dedent(pad);
        },
    }
}

/// Appends the dump of a feature.
pub(crate) fn write_feature(f: &Feature, pad: &mut Vec<char>, out: &mut String)
    ensures
        final(pad)@ == old(pad)@,
        final(out)@ == old(out)@ + feature_text(f@, old(pad)@),
{
    broadcast use lemma_concat_assoc;

    write_number_line(out, pad, f.location.line);
    write_feature_data(&f.data, pad, out);
}

/// Appends the dumps of features, in order.
fn write_features(fs: &Vec<Feature>, pad: &mut Vec<char>, out: &mut String)
    ensures
        final(pad)@ == old(pad)@,
        final(out)@ == old(out)@ + features_text(feature_views(fs@), old(pad)@),
{
    let ghost views = feature_views(fs@);
    let mut i: usize = 0;
    while i < fs.len()
        invariant
            i <= fs.len(),
            views == feature_views(fs@),
            pad@ == old(pad)@,
            out@ == old(out)@ + features_text(views.take(i as int), pad@),
        decreases fs.len() - i,
    {
        proof {
            assert(views.take(i + 1).drop_last() == views.take(i as int));
            assert(views.take(i + 1).last() == fs@[i as int]@);
        }
        write_feature(&fs[i], pad, out);
        i += 1;
    }
    proof {
        assert(views.take(fs.len() as int) == views);
    }
}

/// The text of `s` between double quotes, unchanged.
pub(crate) fn in_quotes(s: &str) -> (out: String)
    ensures
        out@ == seq!['"'] + s@ + seq!['"'],
{
    let mut out = String::new();
    out.push('"');
    out.append(s);
    out.push('"');
    out
}

/// Appends the dump of a class, with `label` quoted as the label of its
/// file.
pub(crate) fn write_labelled_class(c: &Class, label: &str, pad: &mut Vec<char>, out: &mut String)
    ensures
        final(pad)@ == old(pad)@,
        final(out)@ == old(out)@ + labelled_class_text(c@, label@, old(pad)@),
{
    broadcast use lemma_concat_assoc;

    proof {
        lemma_dedent(old(pad)@);
    }
    write_number_line(out, pad, c.location.line);
    write_line(out, pad, "_class");
    indent(pad);
    write_line(out, pad, c.name.as_str());
    write_line(out, pad, c.super_class_name.as_str());
    let quoted_label = in_quotes(label);
    write_line(out, pad, quoted_label.as_str());
    write_line(out, pad, "(");
    write_features(&c.features, pad, out);
    write_line(out, pad, ")");
    dedent(pad);
}

/// Appends the dump of a class.
fn write_class(c: &Class, pad: &mut Vec<char>, out: &mut String)
    ensures
        final(pad)@ == old(pad)@,
        final(out)@ == old(out)@ + class_text(c@, old(pad)@),
{
    write_labelled_class(c, c.location.extra, pad, out);
}

/// Appends the dumps of classes, in order.
fn write_classes(cs: &Vec<Class>, pad: &mut Vec<char>, out: &mut String)
    ensures
        final(pad)@ == old(pad)@,
        final(out)@ == old(out)@ + classes_text(class_views(cs@), old(pad)@),
{
    let ghost views = class_views(cs@);
    let mut i: usize = 0;
    while i < cs.len()
        invariant
            i <= cs.len(),
            views == class_views(cs@),
            pad@ == old(pad)@,
            out@ == old(out)@ + classes_text(views.take(i as int), pad@),
        decreases cs.len() - i,
    {
        proof {
            assert(views.take(i + 1).drop_last() == views.take(i as int));
            assert(views.take(i + 1).last() == cs@[i as int]@);
        }
        write_class(&cs[i], pad, out);
        i += 1;
    }
    proof {
        assert(views.take(cs.len() as int) == views);
    }
}

/// Appends the dump of a program.
fn write_program(p: &Program, out: &mut String)
    ensures
        final(out)@ == old(out)@ + program_text(p@),
{
    broadcast use lemma_concat_assoc;

    let mut pad: Vec<char> = Vec::new();
    let first_line = if p.classes.len() == 0 {
        0
    } else {
        p.classes[0].location.line
    };
    write_number_line(out, &pad, first_line);
    write_line(out, &pad, "_program");
    indent(&mut pad);
    write_classes(&p.classes, &mut pad, out);
}

/// An indentation of `n` blanks.
pub(crate) fn blank_pad(n: usize) -> (pad: Vec<char>)
    ensures
        pad@ == spaces(n as nat),
{
    let mut pad: Vec<char> = Vec::new();
    let mut i: usize = 0;
    while i < n
        invariant
            i <= n,
            pad@ == spaces(i as nat),
        decreases n - i,
    {
        pad.push(' ');
        i += 1;
    }
    pad
}

/// Writes the tree dump of a program.
pub fn print_program(program: &Program) -> (out: String)
    ensures
        out@ == program_text(program@),
{
    let mut out = String::new();
    write_program(program, &mut out);
    out
}

/// A program ready to be written as a tree dump.
pub struct ProgramFormatter<'a> {
    program: &'a Program<'a>,
}

impl<'a> ProgramFormatter<'a> {
    /// The program that is written.
    pub closed spec fn subject(&self) -> ProgramView {
        self.program@
    }

    /// A formatter for `program`.
    pub fn new(program: &'a Program<'a>) -> (f: Self)
        ensures
            f.subject() == program@,
    {
        Self { program }
    }

    /// Writes the tree dump of the program.
    pub fn to_string(&self) -> (out: String)
        ensures
            out@ == program_text(self.subject()),
    {
        print_program(self.program)
    }
}

/// A class ready to be written as a tree dump.
pub struct ClassFormatter<'a> {
    class: &'a Class<'a>,
    indent: usize,
}

impl<'a> ClassFormatter<'a> {
    /// The class that is written.
    pub closed spec fn subject(&self) -> ClassView {
        self.class@
    }

    /// The number of blanks before its first line.
    pub closed spec fn margin(&self) -> nat {
        self.indent as nat
    }

    /// A formatter for `class` behind `indent` blanks.
    pub fn new(class: &'a Class<'a>, indent: usize) -> (f: Self)
        ensures
            f.subject() == class@,
            f.margin() == indent,
    {
        Self { class, indent }
    }

    /// Writes the dump of the class.
    pub fn to_string(&self) -> (out: String)
        ensures
            out@ == class_text(self.subject(), spaces(self.margin())),
    {
        let mut out = String::new();
        let mut pad = blank_pad(self.indent);
        write_class(self.class, &mut pad, &mut out);
        out
    }
}

/// A feature ready to be written as a tree dump.
pub struct FeatureFormatter<'a> {
    feature: &'a Feature<'a>,
    indent: usize,
}

impl<'a> FeatureFormatter<'a> {
    /// The feature that is written.
    pub closed spec fn subject(&self) -> FeatureView {
        self.feature@
    }

    /// The number of blanks before its first line.
    pub closed spec fn margin(&self) -> nat {
        self.indent as nat
    }

    /// A formatter for `feature` behind `indent` blanks.
    pub fn new(feature: &'a Feature<'a>, indent: usize) -> (f: Self)
        ensures
            f.subject() == feature@,
            f.margin() == indent,
    {
        Self { feature, indent }
    }

    /// Writes the dump of the feature.
    pub fn to_string(&self) -> (out: String)
        ensures
            out@ == feature_text(self.subject(), spaces(self.margin())),
    {
        let mut out = String::new();
        let mut pad = blank_pad(self.indent);
        write_feature(self.feature, &mut pad, &mut out);
        out
    }
}

/// The body of a feature ready to be written as a tree dump.
pub struct FeatureDataFormatter<'a> {
    feature: &'a FeatureData<'a>,
    indent: usize,
}

impl<'a> FeatureDataFormatter<'a> {
    /// The feature body that is written.
    pub closed spec fn subject(&self) -> FeatureDataView {
        self.feature@
    }

    /// The number of blanks before its first line.
    pub closed spec fn margin(&self) -> nat {
        self.indent as nat
    }

    /// A formatter for the body `feature` behind `indent` blanks.
    pub fn new(feature: &'a FeatureData<'a>, indent: usize) -> (f: Self)
        ensures
            f.subject() == feature@,
            f.margin() == indent,
    {
        Self { feature, indent }
    }

    /// Writes the dump of the feature without its line number.
    pub fn to_string(&self) -> (out: String)
        ensures
            out@ == feature_data_text(self.subject(), spaces(self.margin())),
    {
        let mut out = String::new();
        let mut pad = blank_pad(self.indent);
        write_feature_data(self.feature, &mut pad, &mut out);
        out
    }
}

/// A formal ready to be written as a tree dump.
pub struct FormalFormatter<'a> {
    formal: &'a Formal<'a>,
    indent: usize,
}

impl<'a> FormalFormatter<'a> {
    /// The formal that is written.
    pub closed spec fn subject(&self) -> FormalView {
        self.formal@
    }

    /// The number of blanks before its first line.
    pub closed spec fn margin(&self) -> nat {
        self.indent as nat
    }

    /// A formatter for `formal` behind `indent` blanks.
    pub fn new(formal: &'a Formal<'a>, indent: usize) -> (f: Self)
        ensures
            f.subject() == formal@,
            f.margin() == indent,
    {
        Self { formal, indent }
    }

    /// Writes the dump of the formal.
    pub fn to_string(&self) -> (out: String)
        ensures
            out@ == formal_text(self.subject(), spaces(self.margin())),
    {
        let mut out = String::new();
        let mut pad = blank_pad(self.indent);
        write_formal(self.formal, &mut pad, &mut out);
        out
    }
}

/// An expression ready to be written as a tree dump.
pub struct ExpressionFormatter<'a> {
    expression: &'a Expression<'a>,
    indent: usize,
}

impl<'a> ExpressionFormatter<'a> {
    /// The expression that is written.
    pub closed spec fn subject(&self) -> ExpressionView {
        self.expression@
    }

    /// The number of blanks before its first line.
    pub closed spec fn margin(&self) -> nat {
        self.indent as nat
    }

    /// A formatter for `expression` behind `indent` blanks.
    pub fn new(expression: &'a Expression<'a>, indent: usize) -> (f: Self)
        ensures
            f.subject() == expression@,
            f.margin() == indent,
    {
        Self { expression, indent }
    }

    /// Writes the dump of the expression.
    pub fn to_string(&self) -> (out: String)
        ensures
            out@ == expression_text(self.subject(), spaces(self.margin())),
    {
        let mut out = String::new();
        let mut pad = blank_pad(self.indent);
        write_expression(self.expression, &mut pad, &mut out);
        out
    }
}

/// The body of an expression ready to be written as a tree dump.
pub struct ExpressionDataFormatter<'a> {
    expression: &'a ExpressionData<'a>,
    indent: usize,
}

impl<'a> ExpressionDataFormatter<'a> {
    /// The expression body that is written.
    pub closed spec fn subject(&self) -> ExpressionDataView {
        self.expression@
    }

    /// The number of blanks before its first line.
    pub closed spec fn margin(&self) -> nat {
        self.indent as nat
    }

    /// A formatter for the body `expression` behind `indent` blanks.
    pub fn new(expression: &'a ExpressionData<'a>, indent: usize) -> (f: Self)
        ensures
            f.subject() == expression@,
            f.margin() == indent,
    {
        Self { expression, indent }
    }

    /// Writes the dump of the expression without its line number.
    pub fn to_string(&self) -> (out: String)
        ensures
            out@ == expression_data_text(self.subject(), spaces(self.margin())),
    {
        let mut out = String::new();
        let mut pad = blank_pad(self.indent);
        write_expression_data(self.expression, &mut pad, &mut out);
        out
    }
}

/// A case branch ready to be written as a tree dump.
pub struct CaseBranchFormatter<'a> {
    branch: &'a CaseBranch<'a>,
    indent: usize,
}

impl<'a> CaseBranchFormatter<'a> {
    /// The branch that is written.
    pub closed spec fn subject(&self) -> CaseBranchView {
        self.branch@
    }

    /// The number of blanks before its first line.
    pub closed spec fn margin(&self) -> nat {
        self.indent as nat
    }

    /// A formatter for `branch` behind `indent` blanks.
    pub fn new(branch: &'a CaseBranch<'a>, indent: usize) -> (f: Self)
        ensures
            f.subject() == branch@,
            f.margin() == indent,
    {
        Self { branch, indent }
    }

    /// Writes the dump of the branch.
    pub fn to_string(&self) -> (out: String)
        ensures
            out@ == branch_text(self.subject(), spaces(self.margin())),
    {
        let mut out = String::new();
        let mut pad = blank_pad(self.indent);
        write_branch(self.branch, &mut pad, &mut out);
        out
    }
}

} // verus!
