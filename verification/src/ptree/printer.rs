//! The tree dump of a program under a file label of the caller's choice.
//!
//! The dump is that of [`super::format`]: every node with its line number,
//! its tag and its children one level deeper. The only difference is the file
//! label that a class quotes: here it is the label handed to the printer,
//! there the label of the class's own place.

use super::format::{
    blank_pad, feature_text, indent, indented, labelled_class_text, line, number_line,
    program_line, program_text, spaces, write_feature, write_labelled_class, write_line,
    write_number_line,
};
use super::{class_views, Class, ClassView, Feature, FeatureView, Program, ProgramView};
use crate::util::lemma_concat_assoc;
use vstd::prelude::*;

verus! {

/// The dumps of a sequence of classes, in order, each with `filename` quoted
/// as the label of its file.
pub open spec fn labelled_classes_text(cs: Seq<ClassView>, filename: Seq<char>, pad: Seq<char>) -> Seq<
    char,
>
    decreases cs.len(),
{
    if cs.len() == 0 {
        Seq::empty()
    } else {
        labelled_classes_text(cs.drop_last(), filename, pad) + labelled_class_text(
            cs.last(),
            filename,
            pad,
        )
    }
}

/// The dump of a program of the file labelled `filename`: the line number
/// of its first class, or 0 where it has none, and its tag at the left margin,
/// its classes one level deeper.
pub open spec fn labelled_program_text(p: ProgramView, filename: Seq<char>) -> Seq<char> {
    number_line(Seq::empty(), program_line(p)) + line(Seq::empty(), "_program"@)
        + labelled_classes_text(p.classes, filename, indented(Seq::empty()))
}

/// Where every class of a program stands in the file labelled `filename`,
/// the dump under that label is the dump of the program.
pub proof fn lemma_own_label(p: ProgramView, filename: Seq<char>)
    requires
        forall|i: int| 0 <= i < p.classes.len() ==> (#[trigger] p.classes[i]).location.extra
            == filename,
    ensures
        labelled_program_text(p, filename) == program_text(p),
{
    lemma_own_labels(p.classes, filename, indented(Seq::empty()));
}

/// The same for a sequence of classes.
pub proof fn lemma_own_labels(cs: Seq<ClassView>, filename: Seq<char>, pad: Seq<char>)
    requires
        forall|i: int| 0 <= i < cs.len() ==> (#[trigger] cs[i]).location.extra == filename,
    ensures
        labelled_classes_text(cs, filename, pad) == super::format::classes_text(cs, pad),
    decreases cs.len(),
{
    if cs.len() > 0 {
        assert forall|i: int| 0 <= i < cs.drop_last().len() implies (#[trigger] cs.drop_last()[i]).location.extra
            == filename by {
            assert(cs.drop_last()[i] == cs[i]);
        }
        lemma_own_labels(cs.drop_last(), filename, pad);
        assert(cs.last() == cs[cs.len() - 1]);
    }
}

/// Appends the dumps of classes, in order, under the label `filename`.
fn put_classes(cs: &Vec<Class>, filename: &str, pad: &mut Vec<char>, out: &mut String)
    ensures
        final(pad)@ == old(pad)@,
        final(out)@ == old(out)@ + labelled_classes_text(class_views(cs@), filename@, old(pad)@),
{
    let ghost views = class_views(cs@);
    let mut i: usize = 0;
    while i < cs.len()
        invariant
            i <= cs.len(),
            views == class_views(cs@),
            pad@ == old(pad)@,
            out@ == old(out)@ + labelled_classes_text(views.take(i as int), filename@, pad@),
        decreases cs.len() - i,
    {
        proof {
            assert(views.take(i + 1).drop_last() == views.take(i as int));
            assert(views.take(i + 1).last() == cs@[i as int]@);
        }
        write_labelled_class(&cs[i], filename, pad, out);
        i += 1;
    }
    proof {
        assert(views.take(cs.len() as int) == views);
    }
}

/// A program ready to be written as a tree dump under a file label.
pub struct ProgramPrinter<'a> {
    program: &'a Program<'a>,
    filename: &'a str,
}

impl<'a> ProgramPrinter<'a> {
    /// The program that is written.
    pub closed spec fn subject(&self) -> ProgramView {
        self.program@
    }

    /// The label of its source file.
    pub closed spec fn label(&self) -> Seq<char> {
        self.filename@
    }

    /// A printer for `program` of the file labelled `filename`.
    pub fn new(program: &'a Program<'a>, filename: &'a str) -> (p: Self)
        ensures
            p.subject() == program@,
            p.label() == filename@,
    {
        Self { program, filename }
    }

    /// Writes the tree dump of the program.
    pub fn to_string(&self) -> (out: String)
        ensures
            out@ == labelled_program_text(self.subject(), self.label()),
    {
        broadcast use lemma_concat_assoc;

        let mut out = String::new();
        let mut pad: Vec<char> = Vec::new();
        let first_line = if self.program.classes.len() == 0 {
            0
        } else {
            self.program.classes[0].location.line
        };
        write_number_line(&mut out, &pad, first_line);
        write_line(&mut out, &pad, "_program");
        indent(&mut pad);
        put_classes(&self.program.classes, self.filename, &mut pad, &mut out);
        out
    }
}

/// A class ready to be written as a tree dump under a file label.
pub struct ClassPrinter<'a> {
    class: &'a Class<'a>,
    filename: &'a str,
    indent: usize,
}

impl<'a> ClassPrinter<'a> {
    /// The class that is written.
    pub closed spec fn subject(&self) -> ClassView {
        self.class@
    }

    /// The label of its source file.
    pub closed spec fn label(&self) -> Seq<char> {
        self.filename@
    }

    /// The number of blanks before its first line.
    pub closed spec fn margin(&self) -> nat {
        self.indent as nat
    }

    /// A printer for `class` of the file labelled `filename`, behind
    /// `indent` blanks.
    pub fn new(class: &'a Class<'a>, filename: &'a str, indent: usize) -> (p: Self)
        ensures
            p.subject() == class@,
            p.label() == filename@,
            p.margin() == indent,
    {
        Self { class, filename, indent }
    }

    /// Writes the dump of the class.
    pub fn to_string(&self) -> (out: String)
        ensures
            out@ == labelled_class_text(self.subject(), self.label(), spaces(self.margin())),
    {
        let mut out = String::new();
        let mut pad = blank_pad(self.indent);
        write_labelled_class(self.class, self.filename, &mut pad, &mut out);
        out
    }
}

/// A feature ready to be written as a tree dump.
pub struct FeaturePrinter<'a> {
    feature: &'a Feature<'a>,
    indent: usize,
}

impl<'a> FeaturePrinter<'a> {
    /// The feature that is written.
    pub closed spec fn subject(&self) -> FeatureView {
        self.feature@
    }

    /// The number of blanks before its first line.
    pub closed spec fn margin(&self) -> nat {
        self.indent as nat
    }

    /// A printer for `feature` behind `indent` blanks.
    pub fn new(feature: &'a Feature<'a>, indent: usize) -> (p: Self)
        ensures
            p.subject() == feature@,
            p.margin() == indent,
    {
        Self { feature, indent }
    }

    /// Writes the dump of the feature: its line number, then an attribute
    /// with its initial value or the placeholder for a missing one, or a
    /// method with its formals, return type and body.
    pub fn to_string(&self) -> (out: String)
        ensures
            out@ == feature_text(self.subject(), spaces(self.margin())),
    {
        let mut out = String::new();
        let mut pad = blank_pad(self.indent);
        write_feature(self.feature, &mut pad, &mut out);
        out
    }
}

} // verus!
