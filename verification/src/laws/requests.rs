//! What reading parameters and headers of requests is for.

use vstd::prelude::*;
use vstd::utf8::{is_ascii_chars, is_ascii_chars_encode_utf8};
use crate::bytes::{byte_from, parts, parts_from, utf8};
use crate::http::headers::{are_digits, bearer_token, blank_end, blank_start, declared_length, granted, is_blank, length_value, present, without_blanks, Fields, HttpAccess, Required};
use crate::http::parameters::{decimal_value, form_byte, form_decoded, hex_value, query_parameters, readonly_value, with_parameter, with_parameters, no_parameters, ParameterizedWorkloadLimits, Parameters, WorkloadLimit};
use crate::http::request::{ParameterizedQueryMethod, Refusal};
use crate::text::{all_digits, digits, digits_round_trip, digits_value, int_text, is_digit};

verus! {

/// A hexadecimal digit.
pub open spec fn hex_byte(n: int) -> u8 {
    if n < 10 {
        (48 + n) as u8
    } else {
        (55 + n) as u8
    }
}

/// Bytes as percent escapes.
pub open spec fn percent_encoded(bytes: Seq<u8>) -> Seq<u8> {
    Seq::new(
        bytes.len() * 3,
        |i: int|
            if i % 3 == 0 {
                37
            } else if i % 3 == 1 {
                hex_byte(bytes[i / 3] as int / 16)
            } else {
                hex_byte(bytes[i / 3] as int % 16)
            },
    )
}

proof fn escapes_are_decoded(bytes: Seq<u8>, k: int, found: Seq<u8>, limit: Option<usize>)
    requires
        0 <= k <= bytes.len(),
        found == bytes.take(k),
        limit matches Some(n) ==> bytes.len() <= n,
    ensures
        form_decoded(percent_encoded(bytes), 3 * k, found, limit) == Ok::<Seq<u8>, Refusal>(bytes),
    decreases bytes.len() - k,
{
    let encoded = percent_encoded(bytes);
    if k < bytes.len() {
        let b = bytes[k] as int;
        assert(encoded[3 * k] == 37);
        assert(encoded[3 * k + 1] == hex_byte(b / 16));
        assert(encoded[3 * k + 2] == hex_byte(b % 16));
        assert(hex_value(encoded[3 * k + 1]) == Some((b / 16) as u8));
        assert(hex_value(encoded[3 * k + 2]) == Some((b % 16) as u8));
        assert((b / 16) * 16 + b % 16 == b);
        assert(bytes.take(k + 1) =~= bytes.take(k).push(bytes[k]));
        escapes_are_decoded(bytes, k + 1, found.push(bytes[k]), limit);
    } else {
        assert(bytes.take(k) =~= bytes);
    }
}

/// Whatever bytes stand as percent escapes are decoded to themselves, up to the allowed length.
pub proof fn escaped_bytes_are_read_back(bytes: Seq<u8>, limit: Option<usize>)
    requires
        limit matches Some(n) ==> bytes.len() <= n,
    ensures
        form_decoded(percent_encoded(bytes), 0, Seq::empty(), limit) == Ok::<Seq<u8>, Refusal>(bytes),
{
    assert(bytes.take(0) =~= Seq::<u8>::empty());
    escapes_are_decoded(bytes, 0, Seq::empty(), limit);
}

/// Without escapes a plus sign stands for a space, and any other byte for itself.
pub open spec fn spaces_read(bytes: Seq<u8>) -> Seq<u8> {
    bytes.map_values(|b: u8| if b == 43 { 32u8 } else { b })
}

proof fn plain_bytes_are_decoded(encoded: Seq<u8>, i: int, found: Seq<u8>)
    requires
        0 <= i <= encoded.len(),
        !encoded.contains(37),
        found == spaces_read(encoded).take(i),
    ensures
        form_decoded(encoded, i, found, None) == Ok::<Seq<u8>, Refusal>(spaces_read(encoded)),
    decreases encoded.len() - i,
{
    let whole = spaces_read(encoded);
    if i < encoded.len() {
        assert(encoded.contains(encoded[i]));
        assert(whole.take(i + 1) =~= whole.take(i).push(whole[i]));
        plain_bytes_are_decoded(encoded, i + 1, found.push(whole[i]));
    } else {
        assert(whole.take(i) =~= whole);
    }
}

/// Text without percent signs is read as it stands, but for plus signs, which are spaces.
pub proof fn plain_text_is_read(encoded: Seq<u8>)
    requires
        !encoded.contains(37),
    ensures
        form_decoded(encoded, 0, Seq::empty(), None) == Ok::<Seq<u8>, Refusal>(spaces_read(encoded)),
{
    assert(spaces_read(encoded).take(0) =~= Seq::<u8>::empty());
    plain_bytes_are_decoded(encoded, 0, Seq::empty());
}

/// What is decoded is no longer than allowed.
pub proof fn decoding_keeps_its_limit(encoded: Seq<u8>, i: int, found: Seq<u8>, limit: usize)
    requires
        found.len() <= limit,
    ensures
        form_decoded(encoded, i, found, Some(limit)) matches Ok(decoded) ==> decoded.len() <= limit,
    decreases encoded.len() - i,
{
    if 0 <= i < encoded.len() {
        if let Ok((b, next)) = form_byte(encoded, i) {
            if found.len() < limit && next > i {
                decoding_keeps_its_limit(encoded, next, found.push(b), limit);
            }
        }
    }
}

/// The number that decimal digits stand for.
pub open spec fn number(value: Seq<u8>) -> int
    decreases value.len(),
{
    if value.len() == 0 {
        0
    } else {
        number(value.drop_last()) * 10 + (value.last() - 48)
    }
}

proof fn number_grows(value: Seq<u8>, i: int)
    requires
        0 <= i < value.len(),
    ensures
        number(value.take(i + 1)) == number(value.take(i)) * 10 + (value[i] - 48),
{
    assert(value.take(i + 1).drop_last() =~= value.take(i));
}

proof fn numbers_are_no_less(value: Seq<u8>, i: int)
    requires
        0 <= i <= value.len(),
        are_digits(value),
    ensures
        0 <= number(value.take(i)) <= number(value),
    decreases value.len() - i,
{
    if i < value.len() {
        number_grows(value, i);
        assert(48 <= value[i] <= 57);
        prefixes_are_numbers(value, i);
        numbers_are_no_less(value, i + 1);
    } else {
        assert(value.take(i) =~= value);
        prefixes_are_numbers(value, i);
    }
}

proof fn prefixes_are_numbers(value: Seq<u8>, i: int)
    requires
        0 <= i <= value.len(),
        are_digits(value),
    ensures
        0 <= number(value.take(i)),
    decreases i,
{
    if i > 0 {
        prefixes_are_numbers(value, i - 1);
        number_grows(value, i - 1);
        assert(48 <= value[i - 1] <= 57);
    }
}

proof fn decimals_are_read(
    value: Seq<u8>,
    i: int,
    found: usize,
    malformed: Seq<char>,
    overflow: Seq<char>,
)
    requires
        0 <= i <= value.len(),
        found == number(value.take(i)),
    ensures
        decimal_value(value, i, found, malformed, overflow) matches Ok(n) ==> n == number(value)
            && forall|k: int| i <= k < value.len() ==> 48 <= #[trigger] value[k] <= 57,
        are_digits(value) && number(value) <= usize::MAX ==> decimal_value(
            value,
            i,
            found,
            malformed,
            overflow,
        ) is Ok,
    decreases value.len() - i,
{
    if i < value.len() {
        number_grows(value, i);
        if are_digits(value) {
            numbers_are_no_less(value, i + 1);
            assert(48 <= value[i] <= 57);
        }
        if 48 <= value[i] <= 57 {
            let next = found * 10 + (value[i] - 48);
            if next <= usize::MAX {
                decimals_are_read(value, i + 1, next as usize, malformed, overflow);
            }
        }
    } else {
        assert(value.take(i) =~= value);
    }
}

/// A decimal parameter is accepted exactly if it is made of digits and in range, and is then the
/// number that they stand for.
pub proof fn decimal_parameters_are_numbers(
    value: Seq<u8>,
    malformed: Seq<char>,
    overflow: Seq<char>,
)
    ensures
        decimal_value(value, 0, 0, malformed, overflow) is Ok <==> are_digits(value) && number(value)
            <= usize::MAX,
        decimal_value(value, 0, 0, malformed, overflow) matches Ok(n) ==> n == number(value),
{
    assert(value.take(0) =~= Seq::<u8>::empty());
    decimals_are_read(value, 0, 0, malformed, overflow);
}

proof fn lengths_are_read(value: Seq<u8>, i: int, found: usize)
    requires
        0 <= i <= value.len(),
        found == number(value.take(i)),
        are_digits(value),
    ensures
        length_value(value, i, found) matches Ok(n) ==> n == number(value),
        number(value) <= usize::MAX ==> length_value(value, i, found) is Ok,
    decreases value.len() - i,
{
    if i < value.len() {
        number_grows(value, i);
        numbers_are_no_less(value, i + 1);
        assert(48 <= value[i] <= 57);
        let next = found * 10 + (value[i] - 48);
        if next <= usize::MAX {
            lengths_are_read(value, i + 1, next as usize);
        }
    } else {
        assert(value.take(i) =~= value);
    }
}

/// A declared length is the number that its digits stand for.
pub proof fn declared_lengths_are_numbers(value: Seq<u8>)
    ensures
        declared_length(value) is Ok <==> value.len() > 0 && are_digits(value) && number(value)
            <= usize::MAX,
        declared_length(value) matches Ok(n) ==> n == number(value),
{
    if value.len() > 0 && are_digits(value) {
        assert(value.take(0) =~= Seq::<u8>::empty());
        lengths_are_read(value, 0, 0);
        if number(value) > usize::MAX {
            if let Ok(n) = declared_length(value) {
                assert(n == number(value));
            }
        }
    }
}

/// A request is read-only where it says one and not where it says zero; nothing else is taken.
pub proof fn readonly_is_zero_or_one(value: Seq<u8>)
    ensures
        readonly_value(value) matches Ok(readonly) ==> are_digits(value) && number(value) == (
        if readonly {
            1int
        } else {
            0
        }),
        are_digits(value) && (number(value) == 0 || number(value) == 1) ==> readonly_value(value) is Ok,
{
    decimal_parameters_are_numbers(
        value,
        "readonly parameter must be a decimal integer"@,
        "readonly parameter must be 0 or 1"@,
    );
}

/// Asking to be read-only takes the right to write away, and nothing else changes access.
pub proof fn access_is_only_tightened(access: HttpAccess, readonly: Option<bool>)
    ensures
        access.tightened(readonly) is ReadWrite <==> access is ReadWrite && readonly != Some(true),
{
}

/// A limit that was set is read back, and the others stay as they were.
pub proof fn limits_are_read_back(
    limits: ParameterizedWorkloadLimits,
    limit: WorkloadLimit,
    other: WorkloadLimit,
    n: usize,
)
    ensures
        limits.with(limit, n).of(limit) == Some(n),
        other != limit ==> limits.with(limit, n).of(other) == limits.of(other),
        ParameterizedWorkloadLimits::unset().of(limit) is None,
{
}

/// Parts with a separator between them.
pub open spec fn joined(list: Seq<Seq<u8>>, separator: u8) -> Seq<u8>
    decreases list.len(),
{
    if list.len() == 0 {
        Seq::empty()
    } else if list.len() == 1 {
        list[0]
    } else {
        joined(list.drop_last(), separator).push(separator) + list.last()
    }
}

proof fn joining_goes_on(list: Seq<Seq<u8>>, part: Seq<u8>, separator: u8)
    ensures
        list.len() > 0 ==> joined(list.push(part), separator) == joined(list, separator).push(
            separator,
        ) + part,
        list.len() == 0 ==> joined(list.push(part), separator) == part,
{
    assert(list.push(part).drop_last() =~= list);
}

proof fn parts_are_split(
    bytes: Seq<u8>,
    separator: u8,
    start: int,
    i: int,
    found: Seq<Seq<u8>>,
)
    requires
        0 <= start <= i <= bytes.len(),
        found.len() == 0 ==> start == 0,
        found.len() > 0 ==> start > 0 && bytes[start - 1] == separator && joined(found, separator)
            == bytes.take(start - 1),
        forall|k: int| 0 <= k < found.len() ==> !(#[trigger] found[k]).contains(separator),
        forall|k: int| start <= k < i ==> #[trigger] bytes[k] != separator,
    ensures
        ({
            let all = parts_from(bytes, separator, start, i, found);
            &&& all.len() > found.len()
            &&& joined(all, separator) == bytes
            &&& forall|k: int| 0 <= k < all.len() ==> !(#[trigger] all[k]).contains(separator)
        }),
    decreases bytes.len() - i,
{
    let end = if i >= bytes.len() {
        bytes.len() as int
    } else {
        i
    };
    let part = bytes.subrange(start, end);
    if i >= bytes.len() || bytes[i] == separator {
        assert(!part.contains(separator)) by {
            if part.contains(separator) {
                let k = choose|k: int| 0 <= k < part.len() && part[k] == separator;
                assert(bytes[start + k] == separator);
            }
        }
        joining_goes_on(found, part, separator);
        assert(joined(found.push(part), separator) =~= bytes.take(end));
    }
    if i >= bytes.len() {
        assert(bytes.take(end) =~= bytes);
    } else if bytes[i] == separator {
        parts_are_split(bytes, separator, i + 1, i + 1, found.push(part));
    } else {
        parts_are_split(bytes, separator, start, i + 1, found);
    }
}

/// Splitting at a separator leaves parts without it that, with it between them, are the whole.
pub proof fn parts_make_the_whole(bytes: Seq<u8>, separator: u8)
    ensures
        parts(bytes, separator).len() > 0,
        joined(parts(bytes, separator), separator) == bytes,
        forall|k: int|
            0 <= k < parts(bytes, separator).len() ==> !(#[trigger] parts(bytes, separator)[k]).contains(
                separator,
            ),
{
    parts_are_split(bytes, separator, 0, 0, Seq::empty());
}

/// Credentials are taken exactly if they are those that are required and came once; and they give
/// no more access than there is.
pub proof fn access_is_granted_to_credentials(required: Required, fields: Fields, access: HttpAccess)
    ensures
        match required {
            Required::Nothing => granted(required, fields, access) == Ok::<HttpAccess, Refusal>(access),
            Required::Bearer(token) => {
                &&& granted(required, fields, access) is Ok <==> !fields.authorization.again
                    && fields.authorization.value is Some && bearer_token(
                    fields.authorization.value->Some_0,
                ) == Some(utf8(token))
                &&& granted(required, fields, access) matches Ok(a) ==> a == access
            },
            Required::Key(key) => {
                &&& granted(required, fields, access) is Ok <==> !fields.key.again
                    && fields.key.value == Some(utf8(key)) && utf8(key).len() > 0
                &&& granted(required, fields, access) matches Ok(a) ==> a == access
            },
            Required::User { user, key } => {
                &&& granted(required, fields, access) is Ok <==> !fields.user.again
                    && !fields.key.again && present(fields.user) == utf8(user) && present(fields.key)
                    == utf8(key)
                &&& granted(required, fields, access) matches Ok(a) ==> a == access
            },
            Required::Users(list) => granted(required, fields, access) matches Ok(a) ==> !fields.user.again
                && !fields.key.again && exists|k: int|
                0 <= k < list.len() && utf8((#[trigger] list[k]).user) == present(fields.user) && utf8(
                    list[k].key,
                ) == present(fields.key) && (a is ReadWrite <==> list[k].role
                    is ReadWrite),
        },
{
}

proof fn blanks_end(value: Seq<u8>, i: int)
    requires
        0 <= i <= value.len(),
    ensures
        i <= blank_end(value, i) <= value.len(),
        forall|k: int| i <= k < blank_end(value, i) ==> is_blank(#[trigger] value[k]),
        blank_end(value, i) < value.len() ==> !is_blank(value[blank_end(value, i)]),
    decreases value.len() - i,
{
    if i < value.len() && is_blank(value[i]) {
        blanks_end(value, i + 1);
    }
}

proof fn blanks_start(value: Seq<u8>, from: int, n: int)
    requires
        0 <= from <= n <= value.len(),
    ensures
        from <= blank_start(value, from, n) <= n,
        forall|k: int| blank_start(value, from, n) <= k < n ==> is_blank(#[trigger] value[k]),
        blank_start(value, from, n) > from ==> !is_blank(value[blank_start(value, from, n) - 1]),
    decreases n,
{
    if from < n && is_blank(value[n - 1]) {
        blanks_start(value, from, n - 1);
    }
}

/// A header value is stripped of spaces and tabs at its ends and of nothing else.
pub proof fn only_blanks_are_stripped(value: Seq<u8>) -> (cut: (int, int))
    ensures
        0 <= cut.0 <= cut.1 <= value.len(),
        without_blanks(value) == value.subrange(cut.0, cut.1),
        forall|k: int| 0 <= k < cut.0 ==> (#[trigger] value[k] == 32 || value[k] == 9),
        forall|k: int| cut.1 <= k < value.len() ==> (#[trigger] value[k] == 32 || value[k] == 9),
        cut.0 < cut.1 ==> value[cut.0] != 32 && value[cut.0] != 9 && value[cut.1 - 1] != 32
            && value[cut.1 - 1] != 9,
{
    blanks_end(value, 0);
    let from = blank_end(value, 0);
    blanks_start(value, from, value.len() as int);
    (from, blank_start(value, from, value.len() as int))
}

proof fn whole_is_one_part(bytes: Seq<u8>, separator: u8, i: int)
    requires
        0 <= i <= bytes.len(),
        forall|k: int| 0 <= k < bytes.len() ==> #[trigger] bytes[k] != separator,
    ensures
        parts_from(bytes, separator, 0, i, Seq::empty()) == seq![bytes],
    decreases bytes.len() - i,
{
    if i < bytes.len() {
        whole_is_one_part(bytes, separator, i + 1);
    } else {
        assert(bytes.subrange(0, bytes.len() as int) =~= bytes);
        assert(Seq::<Seq<u8>>::empty().push(bytes) =~= seq![bytes]);
    }
}

proof fn byte_is_found(bytes: Seq<u8>, needle: u8, i: int, k: int)
    requires
        0 <= i <= k < bytes.len(),
        bytes[k] == needle,
        forall|j: int| i <= j < k ==> #[trigger] bytes[j] != needle,
    ensures
        byte_from(bytes, needle, i) == Some(k),
    decreases k - i,
{
    if i < k {
        byte_is_found(bytes, needle, i + 1, k);
    }
}

proof fn query_is_spelled()
    ensures
        utf8("query"@) == seq![113u8, 117, 101, 114, 121],
{
    reveal_strlit("query");
    assert(is_ascii_chars("query"@));
    is_ascii_chars_encode_utf8("query"@);
    assert(utf8("query"@) =~= seq![113u8, 117, 101, 114, 121]);
}

/// A statement that stands as percent escapes behind `query=` is the query, and nothing else is
/// set.
pub proof fn query_parameter_is_read_back(
    sql: Seq<u8>,
    method: ParameterizedQueryMethod,
    max_sql_bytes: usize,
)
    requires
        0 < sql.len() <= max_sql_bytes,
    ensures
        query_parameters(utf8("query"@) + seq![61u8] + percent_encoded(sql), method, max_sql_bytes)
            matches Ok(p) && p.query == Some(sql) && !p.database && p.format is None && p.readonly
            is None,
{
    let name = utf8("query"@);
    let value = percent_encoded(sql);
    let whole = name + seq![61u8] + value;
    query_is_spelled();
    assert forall|k: int| 0 <= k < whole.len() implies #[trigger] whole[k] != 38 by {
        if k >= 6 {
            let j = k - 6;
            assert(whole[k] == value[j]);
            assert(0 <= j / 3 < sql.len());
            let b = sql[j / 3] as int;
            assert(0 <= b / 16 < 16 && 0 <= b % 16 < 16);
        } else if k == 5 {
            assert(whole[k] == 61);
        } else {
            assert(whole[k] == name[k]);
        }
    }
    whole_is_one_part(whole, 38, 0);
    assert(whole[5] == 61);
    assert forall|j: int| 0 <= j < 5 implies #[trigger] whole[j] != 61 by {
        assert(whole[j] == name[j]);
    }
    byte_is_found(whole, 61, 0, 5);
    assert(whole.take(5) =~= name);
    assert(whole.skip(6) =~= value);
    assert(value.len() > 0);
    plain_text_is_read(name);
    assert(spaces_read(name) =~= name);
    escaped_bytes_are_read_back(sql, Some(max_sql_bytes));
    let list = seq![whole];
    assert(list.len() == 1 && list[0] == whole);
    let next = Parameters { query: Some(sql), ..no_parameters() };
    assert(with_parameter(no_parameters(), name, value, method, max_sql_bytes) == Ok::<
        Parameters,
        Refusal,
    >(next));
    assert(with_parameters(next, list, 1, method, max_sql_bytes) == Ok::<Parameters, Refusal>(next));
    assert(with_parameters(no_parameters(), list, 0, method, max_sql_bytes) == Ok::<
        Parameters,
        Refusal,
    >(next));
}

proof fn digits_are_bytes(s: Seq<char>)
    requires
        all_digits(s),
    ensures
        utf8(s).len() == s.len(),
        are_digits(utf8(s)),
        number(utf8(s)) == digits_value(s),
    decreases s.len(),
{
    assert forall|i: int| 0 <= i < s.len() implies (#[trigger] s[i] as u32) < 128 by {
        assert(is_digit(s[i]));
    }
    assert(is_ascii_chars(s));
    is_ascii_chars_encode_utf8(s);
    assert forall|i: int| 0 <= i < s.len() implies 48 <= #[trigger] utf8(s)[i] <= 57 by {
        assert(is_digit(s[i]));
    }
    if s.len() > 0 {
        let front = s.drop_last();
        assert forall|i: int| 0 <= i < front.len() implies is_digit(#[trigger] front[i]) by {
            assert(front[i] == s[i]);
        }
        digits_are_bytes(front);
        assert forall|i: int| 0 <= i < front.len() implies (#[trigger] front[i] as u32) < 128 by {
            assert(is_digit(front[i]));
        }
        assert(is_ascii_chars(front));
        is_ascii_chars_encode_utf8(front);
        assert(utf8(s).drop_last() =~= utf8(front));
        assert(is_digit(s.last()));
    }
}

/// A length that is written in decimal is read back.
pub proof fn written_lengths_are_read_back(n: usize)
    ensures
        declared_length(utf8(int_text(n as int))) == Ok::<usize, Refusal>(n),
{
    digits_round_trip(n as nat);
    digits_are_bytes(digits(n as nat));
    declared_lengths_are_numbers(utf8(digits(n as nat)));
}

} // verus!
