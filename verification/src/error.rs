//! Why a directive, or a stream of directives, is refused.

use crate::source::Token;
use vstd::prelude::*;

verus! {

/// A refusal together with the token it was met at: the file and the line
/// of the token, and its text.
#[derive(Debug, PartialEq, Eq)]
pub struct Failure {
    pub error: ParseError,
    pub file: Option<String>,
    pub line: u32,
    pub contents: String,
}

impl Failure {
    /// The refusal `error`, met at `token`.
    pub fn at(token: &Token, error: ParseError) -> (failure: Failure)
        ensures
            failure.error == error,
            failure.file.deep_view() == token.file.deep_view(),
            failure.line == token.line,
            failure.contents@ == token.spelling@,
    {
        let file = match &token.file {
            Some(file) => Some(file.clone()),
            None => None,
        };
        Failure { error, file, line: token.line, contents: token.spelling.clone() }
    }
}

/// The ways in which a directive or a stream of directives is refused.
#[derive(Clone, Copy, Debug, PartialEq, Eq, Structural)]
pub enum ParseError {
    /// What stands before the first colon is not the magic prefix.
    BadMagic,
    /// No keyword follows the magic prefix.
    MissingDirective,
    /// The keyword is none of the five.
    UnknownDirective,
    /// `Alias-of` names no type.
    MissingAliasTypename,
    /// `Based-on` names no file.
    MissingBasedOnFile,
    /// `Based-on` does not name a file, a comma and a commit.
    ExpectedFilenameAndCommit,
    /// `Defined-in` or `Defined-in-start` names no file.
    MissingDefinedInFilename,
    /// No record is declared on the line after `Alias-of`.
    ExpectedStructDeclaration,
    /// No function is declared on the line after `Defined-in`.
    ExpectedFunctionDeclaration,
    /// No `Defined-in-end` follows a `Defined-in-start`.
    UnmatchedDefinedInStart,
    /// A `Defined-in-end` closes nothing.
    UnmatchedDefinedInEnd,
    /// A `Defined-in-start` stands inside another.
    NestedDefinedInStart,
    /// The stream ends inside a `Defined-in-start`.
    UnclosedDefinedInStart,
}

impl ParseError {
    /// The wording of the error.
    pub open spec fn spec_message(self) -> Seq<char> {
        match self {
            ParseError::BadMagic => "missing magic"@,
            ParseError::MissingDirective => "missing directive"@,
            ParseError::UnknownDirective => "unknown directive"@,
            ParseError::MissingAliasTypename => "missing alias typename"@,
            ParseError::MissingBasedOnFile => "missing based on file"@,
            ParseError::ExpectedFilenameAndCommit => "expected (<filename>, <commit_sha>)"@,
            ParseError::MissingDefinedInFilename => "missing defined in filename"@,
            ParseError::ExpectedStructDeclaration => "expected struct declaration"@,
            ParseError::ExpectedFunctionDeclaration => "expected function declaration"@,
            ParseError::UnmatchedDefinedInStart => "unmatched Defined-in-start"@,
            ParseError::UnmatchedDefinedInEnd => "unmatched Defined-in-end"@,
            ParseError::NestedDefinedInStart => "nesting Defined-in-start is not allowed"@,
            ParseError::UnclosedDefinedInStart => "unclosed Defined-in-start"@,
        }
    }

    /// The wording of the error.
    pub fn message(&self) -> (text: &'static str)
        ensures
            text@ == self.spec_message(),
    {
        match self {
            ParseError::BadMagic => "missing magic",
            ParseError::MissingDirective => "missing directive",
            ParseError::UnknownDirective => "unknown directive",
            ParseError::MissingAliasTypename => "missing alias typename",
            ParseError::MissingBasedOnFile => "missing based on file",
            ParseError::ExpectedFilenameAndCommit => "expected (<filename>, <commit_sha>)",
            ParseError::MissingDefinedInFilename => "missing defined in filename",
            ParseError::ExpectedStructDeclaration => "expected struct declaration",
            ParseError::ExpectedFunctionDeclaration => "expected function declaration",
            ParseError::UnmatchedDefinedInStart => "unmatched Defined-in-start",
            ParseError::UnmatchedDefinedInEnd => "unmatched Defined-in-end",
            ParseError::NestedDefinedInStart => "nesting Defined-in-start is not allowed",
            ParseError::UnclosedDefinedInStart => "unclosed Defined-in-start",
        }
    }
}

} // verus!
