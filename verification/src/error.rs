//! The ways in which a compilation can fail. Every failure is final: a
//! call that fails yields no output at all.

use crate::span::Span;
use crate::text::{append_all, append_str, decimal, decimal_chars, string_of};
use vstd::prelude::*;

verus! {

/// What the parser could not accept.
#[derive(Clone, Copy, Debug, PartialEq, Eq, Structural)]
pub enum ParseErrorKind {
    /// A string literal that reaches a line break or the end of the text.
    UnterminatedString,
    /// A block comment without its closing `*/`.
    UnterminatedComment,
    /// A regular-expression literal that reaches a line break or the end
    /// of the text.
    UnterminatedRegex,
    /// A template literal whose closing backtick is missing.
    UnterminatedTemplate,
    /// An element of markup whose closing tag is missing, or a tag that is
    /// not ended.
    UnterminatedElement,
    /// An import declaration that names no source.
    MalformedImport,
    /// An export declaration that announces a source and names none.
    MalformedExport,
    /// One of `const`, `let` and `var` with nothing to declare after it.
    MissingBinding,
    /// A closing bracket that does not match the innermost open one.
    UnexpectedClose,
    /// An opening bracket that is never closed.
    UnclosedDelimiter,
}

/// The source text does not belong to the supported syntax; the position
/// is that of the construct at fault. Offset, line and column are counted
/// from zero, in characters.
#[derive(Clone, Copy, Debug, PartialEq, Eq, Structural)]
pub struct ParseError {
    pub kind: ParseErrorKind,
    pub offset: usize,
    pub line: usize,
    pub column: usize,
}

/// What the walker could not rewrite.
#[derive(Clone, Copy, Debug, PartialEq, Eq, Structural)]
pub enum TranspileErrorKind {
    /// A style template to be lifted whose interpolation holds brackets
    /// or a nested template.
    UnsupportedInterpolation,
    /// A style template to be lifted with a word right after its closing
    /// backtick: the identifier put in its place would run into the word.
    TemplateRunsIntoWord,
}

/// A construct that the walker does not support, with its span.
#[derive(Clone, Copy, Debug, PartialEq, Eq, Structural)]
pub struct TranspileError {
    pub kind: TranspileErrorKind,
    pub span: Span,
}

/// The options that a configuration payload may name.
#[derive(Clone, Copy, Debug, PartialEq, Eq, Structural)]
pub enum OptionField {
    ProduceSourceMap,
    ModuleOutputFormat,
    CssExtractionMode,
    RewriteSpecifiers,
}

/// A configuration payload that cannot be turned into options.
#[derive(Clone, Copy, Debug, PartialEq, Eq, Structural)]
pub enum ConfigurationError {
    /// A required option is absent.
    Missing(OptionField),
    /// An option holds a value of the wrong type or outside its range.
    Invalid(OptionField),
    /// The entry at this index of the payload names no known option.
    Unknown(usize),
}

/// Why a compilation produced no output.
#[derive(Clone, Copy, Debug, PartialEq, Eq, Structural)]
pub enum TransformError {
    Configuration(ConfigurationError),
    Parse(ParseError),
    Transpile(TranspileError),
}

impl OptionField {
    /// The name under which a payload carries this option.
    pub open spec fn name(self) -> Seq<char> {
        match self {
            OptionField::ProduceSourceMap => "produceSourceMap"@,
            OptionField::ModuleOutputFormat => "moduleOutputFormat"@,
            OptionField::CssExtractionMode => "cssExtractionMode"@,
            OptionField::RewriteSpecifiers => "rewriteSpecifiers"@,
        }
    }

    /// The name under which a payload carries this option.
    pub fn name_text(self) -> (s: &'static str)
        ensures
            s@ == self.name(),
    {
        match self {
            OptionField::ProduceSourceMap => "produceSourceMap",
            OptionField::ModuleOutputFormat => "moduleOutputFormat",
            OptionField::CssExtractionMode => "cssExtractionMode",
            OptionField::RewriteSpecifiers => "rewriteSpecifiers",
        }
    }
}

impl ConfigurationError {
    /// The sentence that describes this error.
    pub open spec fn describe(self) -> Seq<char> {
        match self {
            ConfigurationError::Missing(field) => "missing option "@ + field.name(),
            ConfigurationError::Invalid(field) => "invalid value of option "@ + field.name(),
            ConfigurationError::Unknown(index) => "unknown option at index "@ + decimal(
                index as nat,
            ),
        }
    }

    /// A description for people.
    pub fn message(&self) -> (s: String)
        ensures
            s@ == self.describe(),
    {
        let mut out: Vec<char> = Vec::new();
        match self {
            ConfigurationError::Missing(field) => {
                append_str(&mut out, "missing option ");
                append_str(&mut out, field.name_text());
            },
            ConfigurationError::Invalid(field) => {
                append_str(&mut out, "invalid value of option ");
                append_str(&mut out, field.name_text());
            },
            ConfigurationError::Unknown(index) => {
                append_str(&mut out, "unknown option at index ");
                let digits = decimal_chars(*index as u128);
                append_all(&mut out, &digits);
            },
        }
        assert(out@ =~= self.describe());
        string_of(&out)
    }
}

impl ParseErrorKind {
    /// The sentence that describes this kind of error.
    pub open spec fn describe(self) -> Seq<char> {
        match self {
            ParseErrorKind::UnterminatedString => "unterminated string literal"@,
            ParseErrorKind::UnterminatedComment => "unterminated block comment"@,
            ParseErrorKind::UnterminatedRegex => "unterminated regular expression"@,
            ParseErrorKind::UnterminatedTemplate => "unterminated template literal"@,
            ParseErrorKind::UnterminatedElement => "unterminated element"@,
            ParseErrorKind::MalformedImport => "import without a module source"@,
            ParseErrorKind::MalformedExport => "export without a module source"@,
            ParseErrorKind::MissingBinding => "declaration without a binding"@,
            ParseErrorKind::UnexpectedClose => "unexpected closing bracket"@,
            ParseErrorKind::UnclosedDelimiter => "bracket is never closed"@,
        }
    }

    fn description(self) -> (s: &'static str)
        ensures
            s@ == self.describe(),
    {
        match self {
            ParseErrorKind::UnterminatedString => "unterminated string literal",
            ParseErrorKind::UnterminatedComment => "unterminated block comment",
            ParseErrorKind::UnterminatedRegex => "unterminated regular expression",
            ParseErrorKind::UnterminatedTemplate => "unterminated template literal",
            ParseErrorKind::UnterminatedElement => "unterminated element",
            ParseErrorKind::MalformedImport => "import without a module source",
            ParseErrorKind::MalformedExport => "export without a module source",
            ParseErrorKind::MissingBinding => "declaration without a binding",
            ParseErrorKind::UnexpectedClose => "unexpected closing bracket",
            ParseErrorKind::UnclosedDelimiter => "bracket is never closed",
        }
    }
}

impl TranspileErrorKind {
    /// The sentence that describes this kind of error.
    pub open spec fn describe(self) -> Seq<char> {
        match self {
            TranspileErrorKind::UnsupportedInterpolation =>
                "interpolation cannot be lifted out of the style template"@,
            TranspileErrorKind::TemplateRunsIntoWord => "style template runs into the word after it"@,
        }
    }

    fn description(self) -> (s: &'static str)
        ensures
            s@ == self.describe(),
    {
        match self {
            TranspileErrorKind::UnsupportedInterpolation =>
                "interpolation cannot be lifted out of the style template",
            TranspileErrorKind::TemplateRunsIntoWord => "style template runs into the word after it",
        }
    }
}

/// The text `<what> at line <l>, column <c>`, with line and column counted
/// from one.
pub open spec fn located(what: Seq<char>, line: usize, column: usize) -> Seq<char> {
    what + " at line "@ + decimal((line + 1) as nat) + ", column "@ + decimal((column + 1) as nat)
}

fn locate(what: &str, line: usize, column: usize) -> (s: String)
    ensures
        s@ == located(what@, line, column),
{
    let mut out: Vec<char> = Vec::new();
    append_str(&mut out, what);
    append_str(&mut out, " at line ");
    let l = decimal_chars(line as u128 + 1);
    append_all(&mut out, &l);
    append_str(&mut out, ", column ");
    let c = decimal_chars(column as u128 + 1);
    append_all(&mut out, &c);
    assert(out@ =~= located(what@, line, column));
    string_of(&out)
}

impl ParseError {
    /// A description for people, naming the position from line one,
    /// column one.
    pub fn message(&self) -> (s: String)
        ensures
            s@ == located(self.kind.describe(), self.line, self.column),
    {
        locate(self.kind.description(), self.line, self.column)
    }
}

impl TranspileError {
    /// A description for people, naming the position from line one,
    /// column one.
    pub fn message(&self) -> (s: String)
        ensures
            s@ == located(self.kind.describe(), self.span.line, self.span.column),
    {
        locate(self.kind.description(), self.span.line, self.span.column)
    }
}

impl TransformError {
    /// The description of the error inside.
    pub open spec fn describe(self) -> Seq<char> {
        match self {
            TransformError::Configuration(e) => e.describe(),
            TransformError::Parse(e) => located(e.kind.describe(), e.line, e.column),
            TransformError::Transpile(e) => located(e.kind.describe(), e.span.line, e.span.column),
        }
    }

    /// A description for people.
    pub fn message(&self) -> (s: String)
        ensures
            s@ == self.describe(),
    {
        match self {
            TransformError::Configuration(e) => e.message(),
            TransformError::Parse(e) => e.message(),
            TransformError::Transpile(e) => e.message(),
        }
    }
}

} // verus!
