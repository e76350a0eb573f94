//! Reading of SQL batches.

use vstd::prelude::*;
use vstd::utf8::{decode_utf8, valid_utf8};
use crate::bytes::{copy_range, text_from_utf8};
use crate::text::{concat2, concat3, int_text, usize_text};

verus! {

/// Maximum size of a SQL batch in bytes.
pub const MAX_SQL_INPUT_BYTES: usize = 1_048_576;

/// A failure of reading a SQL batch.
#[derive(Debug)]
pub enum InputError {
    /// The source fails.
    Io(String),
    /// The batch is too large.
    TooLarge { maximum: usize },
    /// The batch is not UTF-8.
    InvalidUtf8,
}

impl InputError {
    /// Describes the failure.
    pub fn message(&self) -> (s: String)
        ensures
            s@ == match *self {
                InputError::Io(e) => "failed to read SQL input: "@ + e@,
                InputError::TooLarge { maximum } => "SQL input exceeds the maximum size of "@
                    + int_text(maximum as int) + " bytes"@,
                InputError::InvalidUtf8 => "SQL input is not valid UTF-8"@,
            },
    {
        match self {
            InputError::Io(e) => concat2("failed to read SQL input: ", e.as_str()),
            InputError::TooLarge { maximum } => concat3(
                "SQL input exceeds the maximum size of ",
                usize_text(*maximum).as_str(),
                " bytes",
            ),
            InputError::InvalidUtf8 => "SQL input is not valid UTF-8".to_owned(),
        }
    }
}

/// What is read of a source of bytes: no more than one byte beyond the maximum.
pub open spec fn first_bytes(source: Seq<u8>) -> Seq<u8> {
    if source.len() > MAX_SQL_INPUT_BYTES + 1 {
        source.take(MAX_SQL_INPUT_BYTES + 1)
    } else {
        source
    }
}

/// The bytes of a batch while they are read.
#[derive(Debug)]
pub struct SqlInput {
    bytes: Vec<u8>,
}

impl SqlInput {
    /// The bytes that were read.
    pub closed spec fn content(&self) -> Seq<u8> {
        self.bytes@
    }

    /// Makes an input of which nothing was read.
    pub fn new() -> (input: SqlInput)
        ensures
            input.content() == Seq::<u8>::empty(),
    {
        SqlInput { bytes: Vec::new() }
    }

    /// How many more bytes to read. With none wanted, reading is over.
    pub fn wanted(&self) -> (n: usize)
        requires
            self.content().len() <= MAX_SQL_INPUT_BYTES + 1,
        ensures
            n == MAX_SQL_INPUT_BYTES + 1 - self.content().len(),
    {
        MAX_SQL_INPUT_BYTES + 1 - self.bytes.len()
    }

    /// Takes the next bytes of the source, as many as are wanted.
    pub fn push(&mut self, chunk: &Vec<u8>)
        requires
            old(self).content().len() <= MAX_SQL_INPUT_BYTES + 1,
        ensures
            final(self).content() == first_bytes(old(self).content() + chunk@),
            final(self).content().len() <= MAX_SQL_INPUT_BYTES + 1,
    {
        let ghost start = self.bytes@;
        let wanted = self.wanted();
        let end = if chunk.len() < wanted {
            chunk.len()
        } else {
            wanted
        };
        let mut part = copy_range(chunk, 0, end);
        self.bytes.append(&mut part);
        assert(self.bytes@ =~= first_bytes(start + chunk@));
    }

    /// The batch that was read.
    pub fn finish(self) -> (r: Result<String, InputError>)
        ensures
            batch_of(r, self.content()),
    {
        if self.bytes.len() > MAX_SQL_INPUT_BYTES {
            return Err(InputError::TooLarge { maximum: MAX_SQL_INPUT_BYTES });
        }
        match text_from_utf8(self.bytes) {
            Some(text) => Ok(text),
            None => Err(InputError::InvalidUtf8),
        }
    }
}

/// Whether a result is that of reading some bytes.
pub open spec fn batch_of(r: Result<String, InputError>, bytes: Seq<u8>) -> bool {
    if bytes.len() > MAX_SQL_INPUT_BYTES {
        r matches Err(InputError::TooLarge { maximum }) && maximum == MAX_SQL_INPUT_BYTES
    } else {
        match r {
            Ok(text) => valid_utf8(bytes) && text@ == decode_utf8(bytes),
            Err(e) => e is InvalidUtf8 && !valid_utf8(bytes),
        }
    }
}

/// Reads a batch from bytes, through the first one beyond the maximum.
pub fn read_sql_input(source: &Vec<u8>) -> (r: Result<String, InputError>)
    ensures
        batch_of(r, first_bytes(source@)),
{
    let mut input = SqlInput::new();
    assert(Seq::<u8>::empty() + source@ =~= source@);
    input.push(source);
    input.finish()
}

/// Reading in two steps reads what reading in one does.
pub proof fn chunks_add_up(a: Seq<u8>, b: Seq<u8>)
    ensures
        first_bytes(first_bytes(a) + b) == first_bytes(a + b),
{
    assert(first_bytes(first_bytes(a) + b) =~= first_bytes(a + b));
}

} // verus!
