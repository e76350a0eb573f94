//! Bounded SQL input.

use rusthouse::input::{read_sql_input, InputError, SqlInput, MAX_SQL_INPUT_BYTES};
use std::io::{self, Cursor, Read};

struct CountingReader {
    inner: Cursor<Vec<u8>>,
    bytes_read: usize,
}

impl Read for CountingReader {
    fn read(&mut self, buffer: &mut [u8]) -> io::Result<usize> {
        let read = self.inner.read(buffer)?;
        self.bytes_read += read;
        Ok(read)
    }
}

#[test]
fn reads_input_at_the_limit() {
    let input = " ".repeat(MAX_SQL_INPUT_BYTES);
    assert_eq!(read_sql_input(&input.as_bytes().to_vec()).unwrap().len(), input.len());
}

#[test]
fn stops_after_the_first_excess_byte() {
    let bytes = vec![b'x'; MAX_SQL_INPUT_BYTES + 17_000];
    let mut reader = CountingReader { inner: Cursor::new(bytes), bytes_read: 0 };

    let mut input = SqlInput::new();
    while input.wanted() > 0 {
        let mut chunk = vec![0; input.wanted().min(8 * 1024)];
        let read = reader.read(&mut chunk).unwrap();
        if read == 0 {
            break;
        }
        chunk.truncate(read);
        input.push(&chunk);
    }
    let error = input.finish().unwrap_err();

    assert!(matches!(error, InputError::TooLarge { .. }));
    assert_eq!(reader.bytes_read, MAX_SQL_INPUT_BYTES + 1);
}

#[test]
fn rejects_bytes_that_are_no_text() {
    assert!(matches!(read_sql_input(&vec![b'a', 0xff]), Err(InputError::InvalidUtf8)));
    assert_eq!(read_sql_input(&vec![0xc3, 0xa9]).unwrap(), "é");
}

#[test]
fn chunks_make_the_same_text_as_the_whole() {
    let mut input = SqlInput::new();
    input.push(&b"SELECT ".to_vec());
    input.push(&b"1".to_vec());
    assert_eq!(input.finish().unwrap(), read_sql_input(&b"SELECT 1".to_vec()).unwrap());
}
