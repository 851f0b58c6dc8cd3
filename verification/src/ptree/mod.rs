//! The parse tree of a Cool program.
//!
//! Every node carries the place of its first defining token: a binary
//! operation that of its operator, a dispatch that of its dot, a `let` that
//! of the bound name, any other node that of its first token.

use crate::tokens::{Ident, Span, SpanView, TypeId};
use vstd::prelude::*;

pub mod format;
pub mod printer;

verus! {

/// A prefix operator.
#[derive(Debug, Clone, Copy, PartialEq, Eq)]
pub enum UnaryOperator {
    Not,
    IsVoid,
    Negative,
}

/// An infix operator.
#[derive(Debug, Clone, Copy, PartialEq, Eq)]
pub enum BinaryOperator {
    Equals,
    LessThan,
    LessThanOrEquals,
    Add,
    Subtract,
    Multiply,
    Divide,
}

/// An expression and the place where it begins.
#[derive(Debug, PartialEq)]
pub struct Expression<'a> {
    pub data: ExpressionData<'a>,
    pub location: Span<'a>,
}

/// The forms of expression.
#[derive(Debug, PartialEq)]
pub enum ExpressionData<'a> {
    /// `name <- value`
    Assign(Ident, Box<Expression<'a>>),
    /// A prefix operator and its operand.
    UnaryOperation(UnaryOperator, Box<Expression<'a>>),
    /// An infix operator and its operands, left then right.
    BinaryOperation(BinaryOperator, Box<Expression<'a>>, Box<Expression<'a>>),
    /// A dispatch: receiver, the class named behind `@` if any, method name
    /// and arguments.
    MethodCall(Box<Expression<'a>>, Option<TypeId>, Ident, Vec<Expression<'a>>),
    /// `if` condition `then` branch `else` branch `fi`
    Conditional(Box<Expression<'a>>, Box<Expression<'a>>, Box<Expression<'a>>),
    /// `while` condition `loop` body `pool`
    Loop(Box<Expression<'a>>, Box<Expression<'a>>),
    /// `case` subject `of` branches `esac`
    Case(Box<Expression<'a>>, Vec<CaseBranch<'a>>),
    /// `{` expressions `}`
    Block(Vec<Expression<'a>>),
    /// One binding of a `let`: name, declared type, initial value if any,
    /// and the expression the binding holds in.
    Let(Ident, TypeId, Box<Option<Expression<'a>>>, Box<Expression<'a>>),
    /// `new` class
    New(TypeId),
    /// A name that stands for an object.
    Object(Ident),
    IntLiteral(i32),
    StrLiteral(String),
    BoolLiteral(bool),
}

/// One branch of a `case`: name `:` class `=>` expression.
#[derive(Debug, PartialEq)]
pub struct CaseBranch<'a> {
    pub ident: Ident,
    pub type_id: TypeId,
    pub expression: Expression<'a>,
    pub location: Span<'a>,
}

/// A parameter of a method.
#[derive(Debug, PartialEq)]
pub struct Formal<'a> {
    pub name: Ident,
    pub type_id: TypeId,
    pub location: Span<'a>,
}

/// The forms of feature.
#[derive(Debug, PartialEq)]
pub enum FeatureData<'a> {
    /// Name, declared type and initial value if any.
    Attribute(Ident, TypeId, Option<Expression<'a>>),
    /// Name, return type, formals and body.
    Method(Ident, TypeId, Vec<Formal<'a>>, Expression<'a>),
}

/// A member of a class and the place where it begins.
#[derive(Debug, PartialEq)]
pub struct Feature<'a> {
    pub data: FeatureData<'a>,
    pub location: Span<'a>,
}

/// A class.
#[derive(Debug, PartialEq)]
pub struct Class<'a> {
    pub name: TypeId,
    pub super_class_name: TypeId,
    pub features: Vec<Feature<'a>>,
    pub location: Span<'a>,
}

/// A program: its classes in source order.
#[derive(Debug, PartialEq)]
pub struct Program<'a> {
    pub classes: Vec<Class<'a>>,
}

/// The mathematical value of an [`Expression`].
pub struct ExpressionView {
    pub data: ExpressionDataView,
    pub location: SpanView,
}

/// The mathematical value of an [`ExpressionData`].
pub enum ExpressionDataView {
    Assign(Seq<char>, Box<ExpressionView>),
    UnaryOperation(UnaryOperator, Box<ExpressionView>),
    BinaryOperation(BinaryOperator, Box<ExpressionView>, Box<ExpressionView>),
    MethodCall(Box<ExpressionView>, Option<Seq<char>>, Seq<char>, Seq<ExpressionView>),
    Conditional(Box<ExpressionView>, Box<ExpressionView>, Box<ExpressionView>),
    Loop(Box<ExpressionView>, Box<ExpressionView>),
    Case(Box<ExpressionView>, Seq<CaseBranchView>),
    Block(Seq<ExpressionView>),
    Let(Seq<char>, Seq<char>, Option<Box<ExpressionView>>, Box<ExpressionView>),
    New(Seq<char>),
    Object(Seq<char>),
    IntLiteral(int),
    StrLiteral(Seq<char>),
    BoolLiteral(bool),
}

/// The mathematical value of a [`CaseBranch`].
pub struct CaseBranchView {
    pub ident: Seq<char>,
    pub type_id: Seq<char>,
    pub expression: ExpressionView,
    pub location: SpanView,
}

/// The mathematical value of a [`Formal`].
pub struct FormalView {
    pub name: Seq<char>,
    pub type_id: Seq<char>,
    pub location: SpanView,
}

/// The mathematical value of a [`FeatureData`].
pub enum FeatureDataView {
    Attribute(Seq<char>, Seq<char>, Option<ExpressionView>),
    Method(Seq<char>, Seq<char>, Seq<FormalView>, ExpressionView),
}

/// The mathematical value of a [`Feature`].
pub struct FeatureView {
    pub data: FeatureDataView,
    pub location: SpanView,
}

/// The mathematical value of a [`Class`].
pub struct ClassView {
    pub name: Seq<char>,
    pub super_class_name: Seq<char>,
    pub features: Seq<FeatureView>,
    pub location: SpanView,
}

/// The mathematical value of a [`Program`].
pub struct ProgramView {
    pub classes: Seq<ClassView>,
}

/// The values of a sequence of expressions.
pub open spec fn expression_views(es: Seq<Expression>) -> Seq<ExpressionView>
    decreases es,
{
    Seq::new(
        es.len(),
        |i: int|
            if 0 <= i < es.len() {
                expression_view(es[i])
            } else {
                arbitrary()
            },
    )
}

/// The values of a sequence of case branches.
pub open spec fn branch_views(bs: Seq<CaseBranch>) -> Seq<CaseBranchView>
    decreases bs,
{
    Seq::new(
        bs.len(),
        |i: int|
            if 0 <= i < bs.len() {
                branch_view(bs[i])
            } else {
                arbitrary()
            },
    )
}

/// The value of an expression.
pub open spec fn expression_view(e: Expression) -> ExpressionView
    decreases e,
{
    ExpressionView { data: expression_data_view(e.data), location: e.location@ }
}

/// The value of a case branch.
pub open spec fn branch_view(b: CaseBranch) -> CaseBranchView
    decreases b,
{
    CaseBranchView {
        ident: b.ident@,
        type_id: b.type_id@,
        expression: expression_view(b.expression),
        location: b.location@,
    }
}

/// The value of the body of an expression.
pub open spec fn expression_data_view(d: ExpressionData) -> ExpressionDataView
    decreases d,
{
    match d {
        ExpressionData::Assign(name, value) => ExpressionDataView::Assign(
            name@,
            Box::new(expression_view(*value)),
        ),
        ExpressionData::UnaryOperation(op, operand) => ExpressionDataView::UnaryOperation(
            op,
            Box::new(expression_view(*operand)),
        ),
        ExpressionData::BinaryOperation(op, left, right) => ExpressionDataView::BinaryOperation(
            op,
            Box::new(expression_view(*left)),
            Box::new(expression_view(*right)),
        ),
        ExpressionData::MethodCall(receiver, static_type, name, args) => {
            ExpressionDataView::MethodCall(
                Box::new(expression_view(*receiver)),
                match static_type {
                    Some(t) => Some(t@),
                    None => None,
                },
                name@,
                expression_views(args@),
            )
        },
        ExpressionData::Conditional(cond, then_branch, else_branch) => {
            ExpressionDataView::Conditional(
                Box::new(expression_view(*cond)),
                Box::new(expression_view(*then_branch)),
                Box::new(expression_view(*else_branch)),
            )
        },
        ExpressionData::Loop(cond, body) => ExpressionDataView::Loop(
            Box::new(expression_view(*cond)),
            Box::new(expression_view(*body)),
        ),
        ExpressionData::Case(subject, branches) => ExpressionDataView::Case(
            Box::new(expression_view(*subject)),
            branch_views(branches@),
        ),
        ExpressionData::Block(body) => ExpressionDataView::Block(expression_views(body@)),
        ExpressionData::Let(name, type_id, init, body) => ExpressionDataView::Let(
            name@,
            type_id@,
            match *init {
                Some(e) => Some(Box::new(expression_view(e))),
                None => None,
            },
            Box::new(expression_view(*body)),
        ),
        ExpressionData::New(type_id) => ExpressionDataView::New(type_id@),
        ExpressionData::Object(name) => ExpressionDataView::Object(name@),
        ExpressionData::IntLiteral(i) => ExpressionDataView::IntLiteral(i as int),
        ExpressionData::StrLiteral(s) => ExpressionDataView::StrLiteral(s@),
        ExpressionData::BoolLiteral(b) => ExpressionDataView::BoolLiteral(b),
    }
}

impl<'a> View for Expression<'a> {
    type V = ExpressionView;

    open spec fn view(&self) -> ExpressionView {
        expression_view(*self)
    }
}

impl<'a> View for ExpressionData<'a> {
    type V = ExpressionDataView;

    open spec fn view(&self) -> ExpressionDataView {
        expression_data_view(*self)
    }
}

impl<'a> View for CaseBranch<'a> {
    type V = CaseBranchView;

    open spec fn view(&self) -> CaseBranchView {
        branch_view(*self)
    }
}

impl<'a> View for Formal<'a> {
    type V = FormalView;

    open spec fn view(&self) -> FormalView {
        FormalView { name: self.name@, type_id: self.type_id@, location: self.location@ }
    }
}

/// The values of a sequence of formals.
pub open spec fn formal_views(fs: Seq<Formal>) -> Seq<FormalView> {
    Seq::new(fs.len(), |i: int| fs[i]@)
}

impl<'a> View for FeatureData<'a> {
    type V = FeatureDataView;

    open spec fn view(&self) -> FeatureDataView {
        match self {
            FeatureData::Attribute(name, type_id, init) => FeatureDataView::Attribute(
                name@,
                type_id@,
                match init {
                    Some(e) => Some(e@),
                    None => None,
                },
            ),
            FeatureData::Method(name, type_id, formals, body) => FeatureDataView::Method(
                name@,
                type_id@,
                formal_views(formals@),
                body@,
            ),
        }
    }
}

impl<'a> View for Feature<'a> {
    type V = FeatureView;

    open spec fn view(&self) -> FeatureView {
        FeatureView { data: self.data@, location: self.location@ }
    }
}

/// The values of a sequence of features.
pub open spec fn feature_views(fs: Seq<Feature>) -> Seq<FeatureView> {
    Seq::new(fs.len(), |i: int| fs[i]@)
}

impl<'a> View for Class<'a> {
    type V = ClassView;

    open spec fn view(&self) -> ClassView {
        ClassView {
            name: self.name@,
            super_class_name: self.super_class_name@,
            features: feature_views(self.features@),
            location: self.location@,
        }
    }
}

/// The values of a sequence of classes.
pub open spec fn class_views(cs: Seq<Class>) -> Seq<ClassView> {
    Seq::new(cs.len(), |i: int| cs[i]@)
}

impl<'a> View for Program<'a> {
    type V = ProgramView;

    open spec fn view(&self) -> ProgramView {
        ProgramView { classes: class_views(self.classes@) }
    }
}

/// The views of a vector of expressions with one more pushed are the views
/// of the vector with the view of that one pushed.
pub proof fn lemma_expression_views_push(es: Seq<Expression>, e: Expression)
    ensures
        expression_views(es.push(e)) == expression_views(es).push(e@),
{
    assert(expression_views(es.push(e)) =~= expression_views(es).push(e@));
}

/// The same for case branches.
pub proof fn lemma_branch_views_push(bs: Seq<CaseBranch>, b: CaseBranch)
    ensures
        branch_views(bs.push(b)) == branch_views(bs).push(b@),
{
    assert(branch_views(bs.push(b)) =~= branch_views(bs).push(b@));
}

/// The same for formals.
pub proof fn lemma_formal_views_push(fs: Seq<Formal>, f: Formal)
    ensures
        formal_views(fs.push(f)) == formal_views(fs).push(f@),
{
    assert(formal_views(fs.push(f)) =~= formal_views(fs).push(f@));
}

/// The same for features.
pub proof fn lemma_feature_views_push(fs: Seq<Feature>, f: Feature)
    ensures
        feature_views(fs.push(f)) == feature_views(fs).push(f@),
{
    assert(feature_views(fs.push(f)) =~= feature_views(fs).push(f@));
}

/// The same for classes.
pub proof fn lemma_class_views_push(cs: Seq<Class>, c: Class)
    ensures
        class_views(cs.push(c)) == class_views(cs).push(c@),
{
    assert(class_views(cs.push(c)) =~= class_views(cs).push(c@));
}

impl<'a> Expression<'a> {
    /// An expression with the given body that begins at the given place.
    pub fn new(data: ExpressionData<'a>, location: Span<'a>) -> (e: Self)
        ensures
            e.data == data,
            e.location == location,
    {
        Self { data, location }
    }
}

impl<'a> CaseBranch<'a> {
    /// A branch for objects of class `type_id`, bound to `ident`.
    pub fn new(ident: Ident, type_id: TypeId, expression: Expression<'a>, location: Span<'a>) -> (b:
        Self)
        ensures
            b.ident == ident,
            b.type_id == type_id,
            b.expression == expression,
            b.location == location,
    {
        Self { ident, type_id, expression, location }
    }
}

impl<'a> Formal<'a> {
    /// A formal of the given name and class.
    pub fn new(name: Ident, type_id: TypeId, location: Span<'a>) -> (f: Self)
        ensures
            f.name == name,
            f.type_id == type_id,
            f.location == location,
    {
        Self { name, type_id, location }
    }
}

impl<'a> Feature<'a> {
    /// A feature with the given body that begins at the given place.
    pub fn new(data: FeatureData<'a>, location: Span<'a>) -> (f: Self)
        ensures
            f.data == data,
            f.location == location,
    {
        Self { data, location }
    }
}

impl<'a> Class<'a> {
    /// A class; where no superclass is named it inherits from `Object`.
    pub fn new(
        name: TypeId,
        super_name: Option<TypeId>,
        features: Vec<Feature<'a>>,
        location: Span<'a>,
    ) -> (c: Self)
        ensures
            c.name == name,
            c.super_class_name@ == (match super_name {
                Some(n) => n@,
                None => "Object"@,
            }),
            c.features == features,
            c.location == location,
    {
        let super_class_name = match super_name {
            Some(n) => n,
            None => String::from_str("Object"),
        };
        Self { name, super_class_name, features, location }
    }
}

impl<'a> Program<'a> {
    /// A program of the given classes.
    pub fn new(classes: Vec<Class<'a>>) -> (p: Self)
        ensures
            p.classes == classes,
    {
        Self { classes }
    }
}

impl<'a> Program<'a> {
    /// The program, ready to be written as a tree dump.
    pub fn format(&'a self) -> (f: format::ProgramFormatter<'a>)
        ensures
            f.subject() == self@,
    {
        format::ProgramFormatter::new(self)
    }

    /// The program, ready to be written as a tree dump of the file labelled
    /// `filename`.
    pub fn print(&'a self, filename: &'a str) -> (p: printer::ProgramPrinter<'a>)
        ensures
            p.subject() == self@,
            p.label() == filename@,
    {
        printer::ProgramPrinter::new(self, filename)
    }
}

impl<'a> Class<'a> {
    /// The class, ready to be written as a tree dump behind `indent` blanks.
    pub fn format(&'a self, indent: usize) -> (f: format::ClassFormatter<'a>)
        ensures
            f.subject() == self@,
            f.margin() == indent,
    {
        format::ClassFormatter::new(self, indent)
    }

    /// The class, ready to be written as a tree dump of the file labelled
    /// `filename`, behind `indent` blanks.
    pub fn print(&'a self, filename: &'a str, indent: usize) -> (p: printer::ClassPrinter<'a>)
        ensures
            p.subject() == self@,
            p.label() == filename@,
            p.margin() == indent,
    {
        printer::ClassPrinter::new(self, filename, indent)
    }
}

impl<'a> Feature<'a> {
    /// The feature, ready to be written as a tree dump behind `indent`
    /// blanks.
    pub fn format(&'a self, indent: usize) -> (f: format::FeatureFormatter<'a>)
        ensures
            f.subject() == self@,
            f.margin() == indent,
    {
        format::FeatureFormatter::new(self, indent)
    }

    /// The feature, ready to be written as a tree dump behind `indent`
    /// blanks.
    pub fn print(&'a self, indent: usize) -> (p: printer::FeaturePrinter<'a>)
        ensures
            p.subject() == self@,
            p.margin() == indent,
    {
        printer::FeaturePrinter::new(self, indent)
    }
}

impl<'a> FeatureData<'a> {
    /// The body of the feature, ready to be written as a tree dump behind
    /// `indent` blanks.
    pub fn format(&'a self, indent: usize) -> (f: format::FeatureDataFormatter<'a>)
        ensures
            f.subject() == self@,
            f.margin() == indent,
    {
        format::FeatureDataFormatter::new(self, indent)
    }
}

impl<'a> Formal<'a> {
    /// The formal, ready to be written as a tree dump behind `indent` blanks.
    pub fn format(&'a self, indent: usize) -> (f: format::FormalFormatter<'a>)
        ensures
            f.subject() == self@,
            f.margin() == indent,
    {
        format::FormalFormatter::new(self, indent)
    }
}

impl<'a> Expression<'a> {
    /// The expression, ready to be written as a tree dump behind `indent`
    /// blanks.
    pub fn format(&'a self, indent: usize) -> (f: format::ExpressionFormatter<'a>)
        ensures
            f.subject() == self@,
            f.margin() == indent,
    {
        format::ExpressionFormatter::new(self, indent)
    }
}

impl<'a> ExpressionData<'a> {
    /// The body of the expression, ready to be written as a tree dump behind
    /// `indent` blanks.
    pub fn format(&'a self, indent: usize) -> (f: format::ExpressionDataFormatter<'a>)
        ensures
            f.subject() == self@,
            f.margin() == indent,
    {
        format::ExpressionDataFormatter::new(self, indent)
    }
}

impl<'a> CaseBranch<'a> {
    /// The branch, ready to be written as a tree dump behind `indent` blanks.
    pub fn format(&'a self, indent: usize) -> (f: format::CaseBranchFormatter<'a>)
        ensures
            f.subject() == self@,
            f.margin() == indent,
    {
        format::CaseBranchFormatter::new(self, indent)
    }
}

} // verus!
