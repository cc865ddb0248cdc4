//! The renderer's target vocabulary: a fully resolved tree in which every
//! construct kind is a distinct case, so each one has exactly one
//! emission policy, together with the signature-member vocabulary of
//! module declarations.  Every node can carry the comment group attached
//! to it and the source span it came from.

use vstd::prelude::*;
use crate::cst::Span;

verus! {

/// One bullet of an itemization, with its sub-bullets.
#[derive(Debug, Eq, PartialEq)]
pub struct Itemize {
    pub text: String,
    pub children: Vec<Itemize>,
}

/// A type parameter of a signature's type member.
#[derive(Debug, Clone, Eq, PartialEq)]
pub struct TypeArgument {
    pub name: String,
}

/// A type expression as the author wrote it.
#[derive(Debug, Clone, Eq, PartialEq)]
pub struct ManualType {
    pub text: String,
}

/// The constraints attached to a signature member.
#[derive(Debug, Clone, Eq, PartialEq)]
pub struct Constraints {
    pub entries: Vec<(String, ManualType)>,
}

/// The construct kinds the renderer distinguishes.
#[derive(Debug, Eq, PartialEq)]
pub enum AbstractTreeKind {
    UnitConstant,
    KeyWord(String),
    Value(String),
    List(Vec<AbstractTree>),
    Record(Vec<(String, AbstractTree)>),
    Tuple(Vec<AbstractTree>),
    IfThenElse(Box<AbstractTree>, Box<AbstractTree>, Box<AbstractTree>),
    Lambda(Vec<String>, Box<AbstractTree>),
    LetNonRec(String, Vec<String>, Box<AbstractTree>),
    LetRec(String, Vec<String>, Box<AbstractTree>),
    Itemize(Itemize),
    LetMutable(String, Box<AbstractTree>),
    Overwrite(String, Box<AbstractTree>),
    Open(String),
    OpenIn(String, Box<AbstractTree>),
    ModuleSig(String, Vec<Sigunature>, Vec<AbstractTree>),
    Module(String, Vec<AbstractTree>),
}

/// One fully resolved construct, with its attached comments and span.
#[derive(Debug, Eq, PartialEq)]
pub struct AbstractTree {
    comments: Vec<String>,
    kind: AbstractTreeKind,
    span: Span,
}

/// The member kinds of a module signature.
#[derive(Debug, Clone, Eq, PartialEq)]
pub enum SigunatureKind {
    SigType(String, Vec<TypeArgument>),
    SigValue(String, ManualType, Constraints),
    SigDirect(String, ManualType, Constraints),
}

/// One signature member, with its attached comments and span.
#[derive(Debug, Clone, Eq, PartialEq)]
pub struct Sigunature {
    comments: Vec<String>,
    kind: SigunatureKind,
    span: Span,
}

} // verus!
