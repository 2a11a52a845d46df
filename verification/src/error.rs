//! The ways the store refuses a request.

use vstd::prelude::*;

verus! {

/// Why the store refused a request. Each variant corresponds to a refusal
/// of the database: a broken key or reference constraint, or a counter that
/// would leave the range of a 64-bit integer.
#[derive(Clone, Copy, Debug, PartialEq, Eq, Structural)]
pub enum DbError {
    /// A quote with this id already exists (primary key of `quotes`).
    DuplicateQuoteId,
    /// Two memo rows share an id (primary key of `memo_versions`).
    DuplicateMemoId,
    /// An asset with this hash already exists (primary key of `assets`).
    DuplicateAssetHash,
    /// No quote has this id (the memo's reference to `quotes`).
    UnknownQuote,
    /// The next memo version number would not fit in an `i64`.
    VersionOverflow,
    /// The next memo row id would not fit in an `i64`.
    MemoIdOverflow,
}

/// Why input from a user was refused before it reached the store.
#[derive(Clone, Copy, Debug, PartialEq, Eq, Structural)]
pub enum InputError {
    /// The quote text is empty once white space is trimmed.
    EmptyQuote,
    /// The tag is empty once white space is trimmed.
    EmptyTag,
}

} // verus!
