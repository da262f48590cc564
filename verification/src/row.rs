//! Fetched rows as the library sees them: each cell carries the canonical
//! text of every interpretation of its value that succeeded, and coercion
//! picks the first success in a fixed priority order.
use vstd::prelude::*;
use crate::model::TransferError;

verus! {

/// The outcome of each attempted interpretation of one fetched cell, as its
/// canonical text. The driver-side decoding fills these in; the priority
/// among them is decided here.
#[derive(Debug, Clone)]
pub struct CellInterps {
    /// The cell read as text.
    pub text: Option<String>,
    /// The cell read as a 32-bit integer, in decimal.
    pub int32: Option<String>,
    /// The cell read as a 32-bit floating-point number.
    pub float32: Option<String>,
    /// The cell read as a UUID, in hyphenated form.
    pub uuid: Option<String>,
    /// The cell read as a timestamp without time zone, rendered as UTC.
    pub timestamp: Option<String>,
    /// The cell read as a timestamp with time zone.
    pub timestamptz: Option<String>,
}

/// One named cell of a fetched row.
#[derive(Debug, Clone)]
pub struct Cell {
    pub name: String,
    pub value: CellInterps,
}

/// One row of the materialized result set, in the result's column order.
#[derive(Debug, Clone)]
pub struct FetchedRow {
    pub cells: Vec<Cell>,
}

/// The canonical text of a cell: the first interpretation, in priority order
/// text, 32-bit integer, 32-bit float, UUID, timestamp, timestamp with time
/// zone, that succeeded; `None` when none did.
pub open spec fn coerced_text(v: CellInterps) -> Option<Seq<char>> {
    match v.text {
        Some(s) => Some(s@),
        None => match v.int32 {
            Some(s) => Some(s@),
            None => match v.float32 {
                Some(s) => Some(s@),
                None => match v.uuid {
                    Some(s) => Some(s@),
                    None => match v.timestamp {
                        Some(s) => Some(s@),
                        None => match v.timestamptz {
                            Some(s) => Some(s@),
                            None => None,
                        },
                    },
                },
            },
        },
    }
}

/// Coerces a cell to its canonical text, or fails naming the column when no
/// interpretation succeeded; that failure aborts the whole transfer.
pub fn coerce_to_text(cell: &Cell) -> (r: Result<String, TransferError>)
    ensures
        (r is Ok) <==> (coerced_text(cell.value) is Some),
        r matches Ok(s) ==> coerced_text(cell.value) == Some(s@),
        r matches Err(e) ==> (e == TransferError::CoercionFailure { column: cell.name }),
{
    if let Some(s) = &cell.value.text {
        Ok(s.clone())
    } else if let Some(s) = &cell.value.int32 {
        Ok(s.clone())
    } else if let Some(s) = &cell.value.float32 {
        Ok(s.clone())
    } else if let Some(s) = &cell.value.uuid {
        Ok(s.clone())
    } else if let Some(s) = &cell.value.timestamp {
        Ok(s.clone())
    } else if let Some(s) = &cell.value.timestamptz {
        Ok(s.clone())
    } else {
        Err(TransferError::CoercionFailure { column: cell.name.clone() })
    }
}

/// The rules of `updates` as a sequence, empty when absent.
pub open spec fn rules_seq(updates: Option<Vec<(String, String, String, String)>>) -> Seq<
    (String, String, String, String),
> {
    match updates {
        Some(v) => v@,
        None => Seq::empty(),
    }
}

/// The coerced value of the cell named `name` after update rewriting: the
/// first rule whose source column is `name` and whose match value equals the
/// coerced text substitutes its replacement; later rules are not consulted.
pub open spec fn rewritten(
    rules: Seq<(String, String, String, String)>,
    name: Seq<char>,
    value: Seq<char>,
) -> Seq<char>
    decreases rules.len(),
{
    if rules.len() == 0 {
        value
    } else if rules[0].0@ == name && rules[0].1@ == value {
        rules[0].3@
    } else {
        rewritten(rules.drop_first(), name, value)
    }
}

/// Applies the first matching update rule, if any, to a coerced cell value.
pub fn apply_rules(
    updates: &Option<Vec<(String, String, String, String)>>,
    name: &String,
    value: String,
) -> (r: String)
    ensures
        r@ == rewritten(rules_seq(*updates), name@, value@),
{
    let rules = match updates {
        Some(v) => v,
        None => {
            return value;
        },
    };
    proof {
        assert(rules_seq(*updates) == rules@);
        assert(rules@.skip(0) =~= rules@);
    }
    let mut i: usize = 0;
    while i < rules.len()
        invariant
            i <= rules.len(),
            rules_seq(*updates) == rules@,
            rewritten(rules@, name@, value@) == rewritten(rules@.skip(i as int), name@, value@),
        decreases rules.len() - i,
    {
        proof {
            crate::text::lemma_skip_succ(rules@, i as int);
        }
        if rules[i].0 == *name && rules[i].1 == value {
            assert(rewritten(rules@.skip(i as int), name@, value@) == rules@[i as int].3@);
            assert(rules_seq(*updates) == rules@);
            return rules[i].3.clone();
        }
        i = i + 1;
    }
    proof {
        assert(rules@.skip(rules@.len() as int) =~= Seq::<(String, String, String, String)>::empty());
    }
    value
}

} // verus!
