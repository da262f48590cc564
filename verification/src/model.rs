//! The mapping model: table and column mappings, static-column assignments
//! and update rules, each parsed from its compact textual form, and the
//! errors a transfer can fail with.
use vstd::prelude::*;
use crate::text::split_char;
use crate::text::split2;

verus! {

/// A `source:dest` pair: a table mapping or a column mapping.
#[derive(Debug, Clone)]
pub struct StringPair {
    pub source: String,
    pub dest: String,
}

/// The whole declarative configuration of one transfer.
#[derive(Debug, Clone)]
pub struct Opt {
    /// Source database connection string.
    pub from: String,
    /// Destination database connection string.
    pub to: String,
    /// `source_table:dest_table`.
    pub table: StringPair,
    /// `source_col:dest_col` mappings, in order.
    pub columns: Vec<StringPair>,
    /// `column_name=literal` static insertions.
    pub static_cols: Option<Vec<(String, String)>>,
    /// `source_column=match:dest_column=replacement` rules, in order.
    pub updates: Option<Vec<(String, String, String, String)>>,
}

/// Why a transfer cannot proceed.
#[derive(Debug, Clone, PartialEq, Eq)]
pub enum TransferError {
    /// A `source:dest` or `key=value` form with the wrong segment count, or a
    /// cross-table reference whose join segment names no column.
    MalformedMapping,
    /// An update rule that is not `source_column=value:dest_column=value`.
    MalformedUpdateRule,
    /// No supported interpretation fits the named column's cells.
    CoercionFailure { column: String },
}

impl TransferError {
    /// The error's description, naming the expected form or the offending
    /// column.
    pub fn describe(&self) -> (r: String)
        ensures
            *self is MalformedMapping ==> r@ == "Invalid mapping, expected 'source:destination' or 'key=value'"@,
            *self is MalformedUpdateRule ==> r@
                == "Invalid update mapping, expected 'source_column=value:dest_column=value'"@,
            self matches TransferError::CoercionFailure { column } ==> r@
                == "could not convert the value in column '"@ + column@ + "'"@,
    {
        match self {
            TransferError::MalformedMapping => String::from_str(
                "Invalid mapping, expected 'source:destination' or 'key=value'",
            ),
            TransferError::MalformedUpdateRule => String::from_str(
                "Invalid update mapping, expected 'source_column=value:dest_column=value'",
            ),
            TransferError::CoercionFailure { column } => {
                let mut r = String::from_str("could not convert the value in column '");
                r.append(column.as_str());
                r.append("'");
                r
            },
        }
    }
}

impl StringPair {
    /// Parses `source:dest`; exactly one `:` separator is accepted.
    pub fn from_str(s: &str) -> (r: Result<StringPair, TransferError>)
        ensures
            (r is Ok) <==> split_char(s@, ':').len() == 2,
            r matches Ok(p) ==> p.source@ == split_char(s@, ':')[0] && p.dest@ == split_char(
                s@,
                ':',
            )[1],
            r matches Err(e) ==> e == TransferError::MalformedMapping,
    {
        match split2(s, ':') {
            Some((source, dest)) => Ok(StringPair { source, dest }),
            None => Err(TransferError::MalformedMapping),
        }
    }
}

/// Parses a `key=value` static-column assignment; exactly one `=` is accepted.
pub fn parse_kv(s: &str) -> (r: Result<(String, String), TransferError>)
    ensures
        (r is Ok) <==> split_char(s@, '=').len() == 2,
        r matches Ok(p) ==> p.0@ == split_char(s@, '=')[0] && p.1@ == split_char(s@, '=')[1],
        r matches Err(e) ==> e == TransferError::MalformedMapping,
{
    match split2(s, '=') {
        Some(p) => Ok(p),
        None => Err(TransferError::MalformedMapping),
    }
}

/// Parses an update rule `source_column=match:dest_column=replacement`: one
/// `:` splits the halves, one `=` splits each half.
pub fn parse_update(s: &str) -> (r: Result<(String, String, String, String), TransferError>)
    ensures
        (r is Ok) <==> (split_char(s@, ':').len() == 2 && split_char(
            split_char(s@, ':')[0],
            '=',
        ).len() == 2 && split_char(split_char(s@, ':')[1], '=').len() == 2),
        r matches Ok(q) ==> q.0@ == split_char(split_char(s@, ':')[0], '=')[0] && q.1@
            == split_char(split_char(s@, ':')[0], '=')[1] && q.2@ == split_char(
            split_char(s@, ':')[1],
            '=',
        )[0] && q.3@ == split_char(split_char(s@, ':')[1], '=')[1],
        r matches Err(e) ==> e == TransferError::MalformedUpdateRule,
{
    let halves = match split2(s, ':') {
        Some(p) => p,
        None => {
            return Err(TransferError::MalformedUpdateRule);
        },
    };
    let src = match split2(halves.0.as_str(), '=') {
        Some(p) => p,
        None => {
            return Err(TransferError::MalformedUpdateRule);
        },
    };
    let dst = match split2(halves.1.as_str(), '=') {
        Some(p) => p,
        None => {
            return Err(TransferError::MalformedUpdateRule);
        },
    };
    Ok((src.0, src.1, dst.0, dst.1))
}

} // verus!
