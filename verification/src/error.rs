//! Failure taxonomy of the generator.
//!
//! Every failure aborts the whole generation with a descriptive message;
//! no partial output is ever produced.

use vstd::prelude::*;
use vstd::string::StringExecFns;

verus! {

/// What went wrong.  Lexical shape errors, structural errors and resolution
/// errors, as one flat enumeration.
#[derive(Clone, Copy, Debug, PartialEq, Eq, Structural)]
pub enum ErrorKind {
    /// A string literal is not closed before the end of the input.
    UnterminatedLiteral,
    /// A delimiter is not matched by one of the same kind.
    UnmatchedDelimiter,
    /// Groups are nested deeper than the lexer's bound.
    TooDeep,
    /// A qualified name was expected and no tokens were given.
    ExpectedName,
    /// An identifier was expected.
    ExpectedIdent,
    /// A dot separating two name segments was expected.
    ExpectedDot,
    /// A declaration starts with something other than `class` or `interface`.
    ExpectedKind,
    /// The metadata block is not a brace-delimited group.
    ExpectedBraces,
    /// A declaration header is not followed by a brace-delimited body.
    ExpectedBody,
    /// An `extends` or `implements` clause appears twice in one header.
    DuplicateClause,
    /// A method's argument list is not a parenthesized group.
    ExpectedArguments,
    /// The last token of an argument is not the argument's name.
    ExpectedArgumentName,
    /// The token before an argument list is not a method name.
    ExpectedMethodName,
    /// A name in an `extends` or `implements` clause matches no local
    /// declaration and no metadata stub.
    UnresolvedName,
    /// The interface extension graph has a cycle.
    CyclicInterface,
    /// The class extension chain does not terminate.
    CyclicClass,
}

/// A generation failure: a kind and free-text detail naming the offender.
#[derive(Debug)]
pub struct GenError {
    pub kind: ErrorKind,
    pub detail: String,
}

impl GenError {
    /// A human-readable description of the failure.
    pub fn message(&self) -> String {
        let phrase: &str = match self.kind {
            ErrorKind::UnterminatedLiteral => "Unterminated string literal",
            ErrorKind::UnmatchedDelimiter => "Unmatched delimiter",
            ErrorKind::TooDeep => "Groups are nested too deeply",
            ErrorKind::ExpectedName => "Expected a Java name, got no tokens",
            ErrorKind::ExpectedIdent => "Expected an identifier",
            ErrorKind::ExpectedDot => "Expected a dot",
            ErrorKind::ExpectedKind => "Expected \"class\" or \"interface\"",
            ErrorKind::ExpectedBraces => "Expected braces",
            ErrorKind::ExpectedBody => "Expected a brace-delimited body",
            ErrorKind::DuplicateClause => "Expected each inheritance clause at most once",
            ErrorKind::ExpectedArguments => "Expected method arguments in parenthesis",
            ErrorKind::ExpectedArgumentName => "Expected argument name",
            ErrorKind::ExpectedMethodName => "Expected method name",
            ErrorKind::UnresolvedName => "Unresolved name",
            ErrorKind::CyclicInterface => "Cyclic interface extension",
            ErrorKind::CyclicClass => "Cyclic class extension",
        };
        let mut text = phrase.to_owned();
        if self.detail.as_str().unicode_len() != 0 {
            text.append(", got ");
            text.append(self.detail.as_str());
        }
        text.append(".");
        text
    }
}

/// Build an error of the given kind with free-text detail.
pub fn err(kind: ErrorKind, detail: &str) -> (r: GenError)
    ensures
        r.kind == kind,
{
    GenError { kind, detail: detail.to_owned() }
}

} // verus!
