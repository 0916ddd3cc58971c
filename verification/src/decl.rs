//! The declarations that a scan produces, and their mathematical views.

use vstd::prelude::*;
use crate::pattern::{opt_text, texts};

verus! {

/// Why a scan was abandoned.
#[derive(Clone, Copy, Debug, PartialEq, Eq, Structural)]
pub enum ParseError {
    /// The word stream ended where a construct still needed a word.
    TruncatedInput,
    /// A search pattern was rejected by the pattern engine.
    Pattern,
}

/// A field of a class.
#[derive(Clone, Debug, PartialEq, Eq)]
pub struct Property {
    pub access_modifier: Option<String>,
    pub data_type: Option<String>,
    pub name: Option<String>,
}

/// A function header.
#[derive(Clone, Debug, PartialEq, Eq)]
pub struct Function {
    pub access_modifier: Option<String>,
    pub return_type: Option<String>,
    pub name: Option<String>,
    pub parameters: Vec<String>,
}

/// A class with the properties and functions declared inside it.
#[derive(Clone, Debug, PartialEq, Eq)]
pub struct Class {
    pub access_modifier: Option<String>,
    pub name: Option<String>,
    pub properties: Vec<Property>,
    pub functions: Vec<Function>,
}

/// A finished top-level declaration.
#[derive(Clone, Debug, PartialEq, Eq)]
pub enum Declaration {
    Class(Class),
    Property(Property),
    Function(Function),
}

/// A recoverable irregularity met during a scan.
#[derive(Clone, Debug, PartialEq, Eq)]
pub enum Diagnostic {
    /// A closing brace was met while no class was open.
    StructuralUnderflow,
    /// The lookahead word `token` fits no known construct; `remaining` holds
    /// the words that were still unread when it was met.
    UnrecognizedConstruct { token: String, remaining: Vec<String> },
}

pub struct PropertyView {
    pub access_modifier: Option<Seq<char>>,
    pub data_type: Option<Seq<char>>,
    pub name: Option<Seq<char>>,
}

pub struct FunctionView {
    pub access_modifier: Option<Seq<char>>,
    pub return_type: Option<Seq<char>>,
    pub name: Option<Seq<char>>,
    pub parameters: Seq<Seq<char>>,
}

pub struct ClassView {
    pub access_modifier: Option<Seq<char>>,
    pub name: Option<Seq<char>>,
    pub properties: Seq<PropertyView>,
    pub functions: Seq<FunctionView>,
}

pub enum DeclarationView {
    Class(ClassView),
    Property(PropertyView),
    Function(FunctionView),
}

pub enum DiagnosticView {
    StructuralUnderflow,
    UnrecognizedConstruct { token: Seq<char>, remaining: Seq<Seq<char>> },
}

impl View for Property {
    type V = PropertyView;

    open spec fn view(&self) -> PropertyView {
        PropertyView {
            access_modifier: opt_text(self.access_modifier),
            data_type: opt_text(self.data_type),
            name: opt_text(self.name),
        }
    }
}

impl View for Function {
    type V = FunctionView;

    open spec fn view(&self) -> FunctionView {
        FunctionView {
            access_modifier: opt_text(self.access_modifier),
            return_type: opt_text(self.return_type),
            name: opt_text(self.name),
            parameters: texts(self.parameters@),
        }
    }
}

impl View for Class {
    type V = ClassView;

    open spec fn view(&self) -> ClassView {
        ClassView {
            access_modifier: opt_text(self.access_modifier),
            name: opt_text(self.name),
            properties: self.properties@.map_values(|p: Property| p@),
            functions: self.functions@.map_values(|f: Function| f@),
        }
    }
}

impl View for Declaration {
    type V = DeclarationView;

    open spec fn view(&self) -> DeclarationView {
        match self {
            Declaration::Class(c) => DeclarationView::Class(c@),
            Declaration::Property(p) => DeclarationView::Property(p@),
            Declaration::Function(f) => DeclarationView::Function(f@),
        }
    }
}

impl View for Diagnostic {
    type V = DiagnosticView;

    open spec fn view(&self) -> DiagnosticView {
        match self {
            Diagnostic::StructuralUnderflow => DiagnosticView::StructuralUnderflow,
            Diagnostic::UnrecognizedConstruct { token, remaining } => DiagnosticView::UnrecognizedConstruct {
                token: token@,
                remaining: texts(remaining@),
            },
        }
    }
}

/// The views of a sequence of classes.
pub open spec fn class_views(v: Seq<Class>) -> Seq<ClassView> {
    v.map_values(|c: Class| c@)
}

/// The views of a sequence of declarations.
pub open spec fn declaration_views(v: Seq<Declaration>) -> Seq<DeclarationView> {
    v.map_values(|d: Declaration| d@)
}

/// The views of a sequence of diagnostics.
pub open spec fn diagnostic_views(v: Seq<Diagnostic>) -> Seq<DiagnosticView> {
    v.map_values(|d: Diagnostic| d@)
}

} // verus!
