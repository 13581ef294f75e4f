//! The errors that declaring and instantiating a template can report.
use vstd::prelude::*;

verus! {

/// What went wrong.
#[derive(Clone, Copy, Debug, PartialEq, Eq, Structural)]
pub enum ErrorKind {
    /// The registry, or a marker of the template, does not follow its grammar.
    DeclarationParse,
    /// The definitions of an instantiation do not follow their grammar.
    DefinitionParse,
    /// A name is declared or defined twice within one block.
    DuplicateName,
    /// A name is used that the registry does not declare.
    UnknownTargetName,
    /// A declared name has no definition.
    MissingTargetName,
    /// A rewrite's target is not a function with a parameter list and a body.
    StructuralShape,
}

/// The block that a diagnostic is about.
#[derive(Clone, Copy, Debug, PartialEq, Eq, Structural)]
pub enum Block {
    Constructions,
    Substitutions,
    General,
}

/// One error, anchored to the name or the text that caused it.
#[derive(Debug, PartialEq, Eq)]
pub struct Diagnostic {
    pub kind: ErrorKind,
    pub block: Block,
    pub subject: String,
}

/// The value of a [`Diagnostic`].
pub struct DiagnosticView {
    pub kind: ErrorKind,
    pub block: Block,
    pub subject: Seq<char>,
}

impl Diagnostic {
    pub open spec fn view(self) -> DiagnosticView {
        DiagnosticView { kind: self.kind, block: self.block, subject: self.subject@ }
    }

    pub fn new(kind: ErrorKind, block: Block, subject: String) -> (r: Diagnostic)
        ensures
            r@ == (DiagnosticView { kind, block, subject: subject@ }),
    {
        Diagnostic { kind, block, subject }
    }
}

pub open spec fn diagnostics_view(s: Seq<Diagnostic>) -> Seq<DiagnosticView> {
    Seq::new(s.len(), |i: int| s[i]@)
}

/// A list of one diagnostic.
pub fn one_error(e: Diagnostic) -> (r: Vec<Diagnostic>)
    ensures
        diagnostics_view(r@) == seq![e@],
{
    let mut v: Vec<Diagnostic> = Vec::new();
    v.push(e);
    assert(diagnostics_view(v@) =~= seq![e@]);
    v
}

} // verus!
