//! Sequences of bytes.

use vstd::prelude::*;
use vstd::utf8::{decode_utf8, encode_utf8, is_ascii_chars, is_ascii_chars_encode_utf8, valid_utf8};

verus! {

/// The bytes of a text in UTF-8.
pub open spec fn utf8(text: Seq<char>) -> Seq<u8> {
    encode_utf8(text)
}

/// The bytes of two texts are those of the first and of the second.
pub proof fn utf8_concat(a: Seq<char>, b: Seq<char>)
    ensures
        utf8(a + b) == utf8(a) + utf8(b),
    decreases a.len(),
{
    if a.len() == 0 {
        assert(a + b =~= b);
        assert(utf8(a) + utf8(b) =~= utf8(b));
    } else {
        utf8_concat(a.drop_first(), b);
        assert((a + b).drop_first() =~= a.drop_first() + b);
        assert((a + b)[0] == a[0]);
        assert(utf8(a + b) =~= utf8(a) + utf8(b));
    }
}

/// The bytes of one ASCII character.
pub proof fn utf8_ascii(c: char)
    requires
        (c as u32) < 128,
    ensures
        utf8(seq![c]) == seq![c as u8],
{
    let s = seq![c];
    assert(is_ascii_chars(s));
    is_ascii_chars_encode_utf8(s);
    assert(utf8(s) =~= seq![c as u8]);
}

/// Returns the bytes of a text.
pub fn text_bytes(text: &str) -> (bytes: Vec<u8>)
    ensures
        bytes@ == utf8(text@),
{
    let slice = text.as_bytes();
    let mut bytes: Vec<u8> = Vec::new();
    let mut i: usize = 0;
    while i < slice.len()
        invariant
            i <= slice.len(),
            bytes@ == slice@.take(i as int),
        decreases slice.len() - i,
    {
        bytes.push(slice[i]);
        assert(bytes@ =~= slice@.take(i + 1));
        i = i + 1;
    }
    assert(slice@.take(i as int) =~= slice@);
    bytes
}

/// Calls `String::from_utf8`, which makes a string of the decoded bytes when they are
/// valid UTF-8 and fails otherwise.
#[verifier::external_body]
pub(crate) fn text_from_utf8(bytes: Vec<u8>) -> (r: Option<String>)
    ensures
        r is Some == valid_utf8(bytes@),
        r matches Some(s) ==> s@ == decode_utf8(bytes@),
{
    String::from_utf8(bytes).ok()
}

/// The text that the failure of `str::from_utf8` displays.
pub uninterp spec fn utf8_failure(bytes: Seq<u8>) -> Seq<char>;

/// Calls `str::from_utf8`, which gives the text that valid bytes encode, and fails on other
/// bytes; what the failure displays is not stated, only that the bytes alone decide.
#[verifier::external_body]
pub(crate) fn decode_text(bytes: &Vec<u8>) -> (r: Result<String, String>)
    ensures
        r is Ok == valid_utf8(bytes@),
        r matches Ok(s) ==> s@ == decode_utf8(bytes@),
        r matches Err(e) ==> e@ == utf8_failure(bytes@),
{
    std::str::from_utf8(bytes).map(|text| text.to_owned()).map_err(|error| error.to_string())
}

/// Copies the bytes from `from` up to `to`.
pub fn copy_range(bytes: &Vec<u8>, from: usize, to: usize) -> (copy: Vec<u8>)
    requires
        from <= to <= bytes.len(),
    ensures
        copy@ == bytes@.subrange(from as int, to as int),
{
    let mut copy: Vec<u8> = Vec::new();
    let mut i: usize = from;
    while i < to
        invariant
            from <= i <= to <= bytes.len(),
            copy@ == bytes@.subrange(from as int, i as int),
        decreases to - i,
    {
        copy.push(bytes[i]);
        assert(copy@ =~= bytes@.subrange(from as int, i + 1));
        i = i + 1;
    }
    copy
}

/// Copies bytes.
pub fn copy_bytes(bytes: &Vec<u8>) -> (copy: Vec<u8>)
    ensures
        copy@ == bytes@,
{
    assert(bytes@.subrange(0, bytes.len() as int) =~= bytes@);
    copy_range(bytes, 0, bytes.len())
}

/// Appends bytes.
pub fn append_bytes(target: &mut Vec<u8>, bytes: &Vec<u8>)
    ensures
        final(target)@ == old(target)@ + bytes@,
{
    let ghost before = target@;
    let mut i: usize = 0;
    while i < bytes.len()
        invariant
            i <= bytes.len(),
            target@ == before + bytes@.take(i as int),
        decreases bytes.len() - i,
    {
        target.push(bytes[i]);
        assert(target@ =~= before + bytes@.take(i + 1));
        i = i + 1;
    }
    assert(bytes@.take(i as int) =~= bytes@);
}

/// Appends the bytes of a text.
pub fn append_text(target: &mut Vec<u8>, text: &str)
    ensures
        final(target)@ == old(target)@ + utf8(text@),
{
    let bytes = text_bytes(text);
    append_bytes(target, &bytes);
}

/// Decides whether bytes are the same.
pub fn same_bytes(a: &Vec<u8>, b: &Vec<u8>) -> (same: bool)
    ensures
        same == (a@ == b@),
{
    if a.len() != b.len() {
        return false;
    }
    let mut i: usize = 0;
    while i < a.len()
        invariant
            i <= a.len(),
            a.len() == b.len(),
            forall|k: int| 0 <= k < i ==> a[k] == b[k],
        decreases a.len() - i,
    {
        if a[i] != b[i] {
            return false;
        }
        i = i + 1;
    }
    assert(a@ =~= b@);
    true
}

/// Decides whether bytes are those of a text.
pub fn bytes_are(bytes: &Vec<u8>, text: &str) -> (same: bool)
    ensures
        same == (bytes@ == utf8(text@)),
{
    same_bytes(bytes, &text_bytes(text))
}

/// Whether bytes begin with others.
pub open spec fn begins_with(bytes: Seq<u8>, prefix: Seq<u8>) -> bool {
    prefix.len() <= bytes.len() && bytes.take(prefix.len() as int) == prefix
}

/// Decides whether bytes begin with those of a text.
pub fn starts_with(bytes: &Vec<u8>, prefix: &str) -> (r: bool)
    ensures
        r == begins_with(bytes@, utf8(prefix@)),
{
    let prefix = text_bytes(prefix);
    if prefix.len() > bytes.len() {
        return false;
    }
    let head = copy_range(bytes, 0, prefix.len());
    assert(head@ == bytes@.take(prefix.len() as int));
    same_bytes(&head, &prefix)
}

/// A byte with an ASCII uppercase letter folded to lowercase.
pub open spec fn lower_byte(b: u8) -> u8 {
    if 65 <= b <= 90 {
        (b + 32) as u8
    } else {
        b
    }
}

/// Bytes with ASCII uppercase letters folded to lowercase.
pub open spec fn lower_bytes(bytes: Seq<u8>) -> Seq<u8> {
    Seq::new(bytes.len(), |i: int| lower_byte(bytes[i]))
}

/// Folds ASCII uppercase letters to lowercase.
pub fn to_lower_bytes(bytes: &Vec<u8>) -> (r: Vec<u8>)
    ensures
        r@ == lower_bytes(bytes@),
{
    let mut r: Vec<u8> = Vec::new();
    let mut i: usize = 0;
    while i < bytes.len()
        invariant
            i <= bytes.len(),
            r.len() == i,
            forall|k: int| 0 <= k < i ==> r[k] == lower_byte(bytes[k]),
        decreases bytes.len() - i,
    {
        let b = bytes[i];
        if b >= 65 && b <= 90 {
            r.push(b + 32);
        } else {
            r.push(b);
        }
        i = i + 1;
    }
    assert(r@ =~= lower_bytes(bytes@));
    r
}

/// Decides whether bytes are those of a lowercase text, case aside.
pub fn bytes_fold_to(bytes: &Vec<u8>, lowercase: &str) -> (r: bool)
    ensures
        r == (lower_bytes(bytes@) == utf8(lowercase@)),
{
    bytes_are(&to_lower_bytes(bytes), lowercase)
}

/// The first position from `i` on that holds a byte.
pub open spec fn byte_from(bytes: Seq<u8>, needle: u8, i: int) -> Option<int>
    decreases bytes.len() - i,
{
    if i < 0 || i >= bytes.len() {
        None
    } else if bytes[i] == needle {
        Some(i)
    } else {
        byte_from(bytes, needle, i + 1)
    }
}

/// Finds the first position that holds a byte.
pub fn find_byte(bytes: &Vec<u8>, needle: u8) -> (r: Option<usize>)
    ensures
        match r {
            Some(k) => k < bytes.len() && byte_from(bytes@, needle, 0) == Some(k as int),
            None => byte_from(bytes@, needle, 0) is None,
        },
{
    let mut i: usize = 0;
    while i < bytes.len()
        invariant
            i <= bytes.len(),
            byte_from(bytes@, needle, 0) == byte_from(bytes@, needle, i as int),
        decreases bytes.len() - i,
    {
        if bytes[i] == needle {
            return Some(i);
        }
        i = i + 1;
    }
    None
}

/// The parts between separators: the part that began at `start` goes on at `i`, behind the
/// parts already found.
pub open spec fn parts_from(
    bytes: Seq<u8>,
    separator: u8,
    start: int,
    i: int,
    found: Seq<Seq<u8>>,
) -> Seq<Seq<u8>>
    decreases bytes.len() - i,
{
    if i < 0 || i >= bytes.len() {
        found.push(bytes.subrange(start, bytes.len() as int))
    } else if bytes[i] == separator {
        parts_from(bytes, separator, i + 1, i + 1, found.push(bytes.subrange(start, i)))
    } else {
        parts_from(bytes, separator, start, i + 1, found)
    }
}

/// The parts between separators; there is at least one.
pub open spec fn parts(bytes: Seq<u8>, separator: u8) -> Seq<Seq<u8>> {
    parts_from(bytes, separator, 0, 0, Seq::empty())
}

/// The bytes of each part.
pub open spec fn byte_lists(list: Seq<Vec<u8>>) -> Seq<Seq<u8>> {
    Seq::new(list.len(), |i: int| list[i]@)
}

/// Splits bytes at separators.
pub fn split(bytes: &Vec<u8>, separator: u8) -> (list: Vec<Vec<u8>>)
    ensures
        byte_lists(list@) == parts(bytes@, separator),
        list.len() > 0,
{
    let mut list: Vec<Vec<u8>> = Vec::new();
    assert(byte_lists(list@) =~= Seq::<Seq<u8>>::empty());
    let mut start: usize = 0;
    let mut i: usize = 0;
    while i < bytes.len()
        invariant
            start <= i <= bytes.len(),
            parts(bytes@, separator) == parts_from(
                bytes@,
                separator,
                start as int,
                i as int,
                byte_lists(list@),
            ),
        decreases bytes.len() - i,
    {
        if bytes[i] == separator {
            let part = copy_range(bytes, start, i);
            let ghost before = list@;
            list.push(part);
            assert(byte_lists(list@) =~= byte_lists(before).push(part@));
            start = i + 1;
        }
        i = i + 1;
    }
    let part = copy_range(bytes, start, bytes.len());
    let ghost before = list@;
    list.push(part);
    assert(byte_lists(list@) =~= byte_lists(before).push(part@));
    list
}

} // verus!
