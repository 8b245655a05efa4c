//! Error kinds shared by compilation and per-row evaluation.

use vstd::prelude::*;

verus! {

/// Where a piece of template source stood; carried for diagnostics only.
#[derive(Clone, Copy, Debug, PartialEq, Eq, Structural)]
pub struct Span {
    /// Byte offset of the first character.
    pub start: u32,
    /// Byte offset one past the last character.
    pub end: u32,
}

impl Span {
    /// A span that points at nothing, for values that have no source.
    pub fn empty() -> (r: Self)
        ensures
            r == (Span { start: 0, end: 0 }),
    {
        Span { start: 0, end: 0 }
    }
}

/// A payload together with the source span it came from.
#[derive(Clone, Copy, Debug, PartialEq, Eq, Structural)]
pub struct Spanned<T> {
    /// The source location.
    pub span: Span,
    /// The payload.
    pub inner: T,
}

/// The failure modes of compiling a template and of evaluating a row.
///
/// The kinds are compact and carry no text; callers that print diagnostics
/// combine [`Error::describe`] with the span of the expression that failed.
#[derive(Clone, Copy, Debug, PartialEq, Eq, Structural)]
pub enum Error {
    /// The template source could not be parsed.
    ParseTemplate,
    /// A function name did not resolve.
    UnknownFunction,
    /// Integer arithmetic left the representable range.
    IntegerOverflow,
    /// A function was given fewer arguments than it needs.
    NotEnoughArguments,
    /// A regular expression argument was malformed.
    InvalidRegex,
    /// A regular expression flag was not recognised.
    UnknownRegexFlag,
    /// A hex or base64 payload could not be decoded.
    DecodeError,
    /// Arguments had types or counts on which the operation is undefined.
    InvalidArguments,
    /// A timestamp literal was not of the form `YYYY-MM-DD HH:MM:SS[.frac]`
    /// or lies outside the supported calendar range.
    InvalidTimestampString,
    /// A `FOR EACH ROW OF` directive names a table that was never defined.
    UnknownParentTable,
    /// A derived table's name disagrees with its directive.
    DerivedTableNameMismatch,
    /// A value could not be converted to the type an argument needs.
    UnexpectedValueType,
    /// Reading the template or writing the output failed.
    Io,
    /// A single table name was forced onto a template with several tables.
    CannotUseTableNameForMultipleTables,
    /// A command-line parameter had an unsupported value.
    UnsupportedCliParameter,
    /// A template asked to abort via the `panic` function family.
    Panic,
}

impl Error {
    /// A one-line description, for callers that print diagnostics.
    pub fn describe(&self) -> &'static str {
        match self {
            Error::ParseTemplate => "failed to parse template",
            Error::UnknownFunction => "unknown function",
            Error::IntegerOverflow => "integer arithmetic overflow",
            Error::NotEnoughArguments => "not enough arguments",
            Error::InvalidRegex => "invalid regex",
            Error::UnknownRegexFlag => "unknown regex flag",
            Error::DecodeError => "decode error",
            Error::InvalidArguments => "invalid arguments",
            Error::InvalidTimestampString => "invalid timestamp",
            Error::UnknownParentTable => "cannot find parent table to generate derived rows",
            Error::DerivedTableNameMismatch => {
                "derived table name does not match the FOR EACH ROW directive"
            },
            Error::UnexpectedValueType => "cannot convert value into the expected type",
            Error::Io => "input or output failed",
            Error::CannotUseTableNameForMultipleTables => {
                "cannot use --table-name when the template contains multiple tables"
            },
            Error::UnsupportedCliParameter => "unsupported command-line parameter",
            Error::Panic => "runtime panic",
        }
    }

    /// Attaches a source span, for error paths that report positions.
    pub fn at(self, span: Span) -> (r: Spanned<Error>)
        ensures
            r == (Spanned { span, inner: self }),
    {
        Spanned { span, inner: self }
    }
}

} // verus!
