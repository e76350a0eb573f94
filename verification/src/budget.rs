//! Byte accounting for intermediate and final results.

use vstd::prelude::*;
use crate::text::{byte_len, utf8_len};
use crate::types::{plain, Datum, Error, Fault, Value};

verus! {

/// Bytes accounted for one value without its text.
pub const VALUE_BYTES: usize = 24;

/// Bytes accounted for one grouping key without its text.
pub const KEY_BYTES: usize = 24;

/// Bytes accounted for an empty list.
pub const LIST_BYTES: usize = 24;

/// Bytes accounted for a column name without its text.
pub const NAME_BYTES: usize = 24;

/// Bytes accounted for a row number.
pub const INDEX_BYTES: usize = 8;

/// Bytes accounted for an empty table of keys.
pub const KEY_TABLE_BYTES: usize = 48;

/// Bytes accounted for a floating-point number.
pub const FLOAT_BYTES: usize = 8;

/// Bytes accounted for a projected row without its contents.
pub const PROJECTED_ROW_BYTES: usize = 72;

/// Bytes accounted for the result of a command.
pub const COMMAND_BYTES: usize = 48;

/// The sum, held at the largest machine integer.
pub open spec fn sat_sum(a: usize, b: usize) -> usize {
    if a + b > usize::MAX {
        usize::MAX
    } else {
        (a + b) as usize
    }
}

/// The product, held at the largest machine integer.
pub open spec fn sat_product(a: usize, b: usize) -> usize {
    if a * b > usize::MAX {
        usize::MAX
    } else {
        (a * b) as usize
    }
}

/// Adds, held at the largest machine integer.
pub fn sat_add(a: usize, b: usize) -> (r: usize)
    ensures
        r == sat_sum(a, b),
{
    match a.checked_add(b) {
        Some(n) => n,
        None => usize::MAX,
    }
}

/// Multiplies, held at the largest machine integer.
pub fn sat_mul(a: usize, b: usize) -> (r: usize)
    ensures
        r == sat_product(a, b),
{
    match a.checked_mul(b) {
        Some(n) => n,
        None => usize::MAX,
    }
}

/// Bytes accounted for the text of a datum.
pub open spec fn text_bytes(d: Datum) -> usize {
    match d {
        Datum::Text(s) => utf8_len(s) as usize,
        _ => 0,
    }
}

/// Bytes accounted for a datum.
pub open spec fn datum_bytes(d: Datum) -> usize {
    sat_sum(VALUE_BYTES, text_bytes(d))
}

/// Bytes accounted for the first `n` data of a row, from `start`.
pub open spec fn data_bytes(start: usize, data: Seq<Datum>, n: int) -> usize
    decreases n,
{
    if n <= 0 {
        start
    } else {
        sat_sum(data_bytes(start, data, n - 1), datum_bytes(data[n - 1]))
    }
}

/// Returns the bytes accounted for a value.
pub fn value_bytes(value: &Value) -> (n: usize)
    ensures
        n == datum_bytes(value@),
{
    match value {
        Value::String(s) => sat_add(VALUE_BYTES, byte_len(s.as_str())),
        _ => sat_add(VALUE_BYTES, 0),
    }
}

/// Returns the bytes accounted for a row of values.
pub fn values_bytes(values: &Vec<Value>) -> (n: usize)
    ensures
        n == data_bytes(0, crate::types::data_of(values@), values.len() as int),
{
    let mut n: usize = 0;
    let mut i: usize = 0;
    while i < values.len()
        invariant
            i <= values.len(),
            n == data_bytes(0, crate::types::data_of(values@), i as int),
        decreases values.len() - i,
    {
        n = sat_add(n, value_bytes(&values[i]));
        i += 1;
    }
    n
}

/// An allowance of bytes and how much of it is taken.
#[derive(Clone, Copy, Debug, PartialEq, Eq)]
pub struct Budget {
    pub limit: usize,
    pub used: usize,
}

impl Budget {
    /// The allowance after taking `bytes` more, or the error when it does not suffice.
    pub open spec fn taken(self, bytes: usize) -> Result<Budget, Fault> {
        let actual = sat_sum(self.used, bytes);
        if actual > self.limit {
            Err(
                Fault::ResourceLimit {
                    resource: "intermediate result bytes"@,
                    limit: self.limit,
                    actual,
                },
            )
        } else {
            Ok(Budget { limit: self.limit, used: actual })
        }
    }

    /// The allowance after `bytes` more were found to fit.
    pub open spec fn plus(self, bytes: usize) -> Budget {
        Budget { limit: self.limit, used: sat_sum(self.used, bytes) }
    }

    /// Counts `bytes` more that were found to fit.
    pub fn and(self, bytes: usize) -> (b: Budget)
        ensures
            b == self.plus(bytes),
    {
        Budget { limit: self.limit, used: sat_add(self.used, bytes) }
    }

    /// An allowance of which nothing is taken.
    pub fn new(limit: usize) -> (b: Budget)
        ensures
            b == (Budget { limit, used: 0 }),
    {
        Budget { limit, used: 0 }
    }

    /// Takes `bytes` more.
    pub fn reserve(self, bytes: usize) -> (r: Result<Budget, Error>)
        ensures
            plain(r) == self.taken(bytes),
    {
        let actual = sat_add(self.used, bytes);
        if actual > self.limit {
            Err(
                Error::ResourceLimit {
                    resource: "intermediate result bytes",
                    limit: self.limit,
                    actual,
                },
            )
        } else {
            Ok(Budget { limit: self.limit, used: actual })
        }
    }
}

/// Whether `bytes` more would fit; without an allowance everything does.
pub open spec fn fits(memory: Option<Budget>, bytes: usize) -> Result<(), Fault> {
    match memory {
        None => Ok(()),
        Some(budget) => match budget.taken(bytes) {
            Ok(_) => Ok(()),
            Err(fault) => Err(fault),
        },
    }
}

/// Checks that `bytes` more would fit for the time of one operation.
pub fn check_fits(memory: Option<Budget>, bytes: usize) -> (r: Result<(), Error>)
    ensures
        plain(r) == fits(memory, bytes),
{
    match memory {
        None => Ok(()),
        Some(budget) => {
            let taken = budget.reserve(bytes)?;
            Ok(())
        },
    }
}

} // verus!
