//! Header blocks and authentication.

use vstd::prelude::*;
use crate::bytes::{byte_from, byte_lists, bytes_are, bytes_fold_to, copy_range, find_byte, lower_bytes, parts, same_bytes, split, text_bytes, utf8};
use crate::http::parameters::{find_format, format_named};
use crate::http::request::{bad, bad_request, bytes_judged, failure, failure_with, judged, line_asks, parse_request_line, refused, unknown_target, Asked, QueryResponseFormat, Refusal, RequestFailure, RequestKind, TableInsertFormat};
use crate::http::response::{ExtraHeader, Status};

verus! {

/// Access granted to a principal.
#[derive(Clone, Copy, Debug, PartialEq, Eq, Structural)]
pub enum ClickHousePrincipalRole {
    /// Allows queries and operational routes, but never ingestion.
    ReadOnly,
    /// Allows queries, operational routes, and ingestion.
    ReadWrite,
}

/// One exact user/key pair and its access role.
#[derive(Clone, Copy, PartialEq, Eq)]
pub struct ClickHousePrincipal<'a> {
    /// Exact, case-sensitive value required in `X-ClickHouse-User`.
    pub user: &'a str,
    /// Exact, case-sensitive value required in `X-ClickHouse-Key`.
    pub key: &'a str,
    /// Access granted after both values match.
    pub role: ClickHousePrincipalRole,
}

impl<'a> ClickHousePrincipal<'a> {
    /// Makes one named principal.
    pub fn new(user: &'a str, key: &'a str, role: ClickHousePrincipalRole) -> (p: ClickHousePrincipal<'a>)
        ensures
            p.user == user,
            p.key == key,
            p.role == role,
    {
        ClickHousePrincipal { user, key, role }
    }
}

/// The mathematical content of a principal.
pub struct Principal {
    pub user: Seq<char>,
    pub key: Seq<char>,
    pub role: ClickHousePrincipalRole,
}

impl<'a> View for ClickHousePrincipal<'a> {
    type V = Principal;

    open spec fn view(&self) -> Principal {
        Principal { user: self.user@, key: self.key@, role: self.role }
    }
}

/// The content of principals.
pub open spec fn principals_of(list: Seq<ClickHousePrincipal>) -> Seq<Principal> {
    Seq::new(list.len(), |i: int| list[i]@)
}

/// What a handler lets requests do.
#[derive(Clone, Copy, Debug, PartialEq, Eq, Structural)]
pub enum HttpAccess {
    ReadOnly,
    ReadWrite,
}

impl HttpAccess {
    /// Whether rows may be inserted.
    pub fn allows_insert(self) -> (r: bool)
        ensures
            r == (self == HttpAccess::ReadWrite),
    {
        matches!(self, HttpAccess::ReadWrite)
    }

    /// The access that is left when the request asks to be read-only.
    pub open spec fn tightened(self, readonly: Option<bool>) -> HttpAccess {
        if readonly == Some(true) {
            HttpAccess::ReadOnly
        } else {
            self
        }
    }

    /// Tightens the access when the request asks to be read-only.
    pub fn tighten_for_request(self, readonly: Option<bool>) -> (r: HttpAccess)
        ensures
            r == self.tightened(readonly),
    {
        match readonly {
            Some(true) => HttpAccess::ReadOnly,
            _ => self,
        }
    }
}

/// What a request must present.
pub enum Authentication<'a> {
    Nothing,
    Bearer(&'a str),
    ClickHouseKey(&'a str),
    ClickHousePrincipal { user: &'a str, key: &'a str },
    ClickHousePrincipalSet(&'a Vec<ClickHousePrincipal<'a>>),
}

/// The mathematical content of what a request must present.
pub enum Required {
    Nothing,
    Bearer(Seq<char>),
    Key(Seq<char>),
    User { user: Seq<char>, key: Seq<char> },
    Users(Seq<Principal>),
}

impl<'a> View for Authentication<'a> {
    type V = Required;

    open spec fn view(&self) -> Required {
        match self {
            Authentication::Nothing => Required::Nothing,
            Authentication::Bearer(token) => Required::Bearer(token@),
            Authentication::ClickHouseKey(key) => Required::Key(key@),
            Authentication::ClickHousePrincipal { user, key } => Required::User {
                user: user@,
                key: key@,
            },
            Authentication::ClickHousePrincipalSet(list) => Required::Users(
                principals_of((**list)@),
            ),
        }
    }
}

/// Whether responses are kept out of shared caches.
pub open spec fn is_private(required: Required) -> bool {
    required is Key || required is User || required is Users
}

impl<'a> Authentication<'a> {
    /// Whether a request must present anything.
    pub fn is_configured(&self) -> (r: bool)
        ensures
            r == !(self@ is Nothing),
    {
        !matches!(self, Authentication::Nothing)
    }

    /// Whether responses are kept out of shared caches.
    pub fn private(&self) -> (r: bool)
        ensures
            r == is_private(self@),
    {
        match self {
            Authentication::Nothing => false,
            Authentication::Bearer(_) => false,
            _ => true,
        }
    }
}

/// Whether a byte is a space or a tab.
pub open spec fn is_blank(b: u8) -> bool {
    b == 32 || b == 9
}

/// The position from `i` on of the first byte that is not blank.
pub open spec fn blank_end(value: Seq<u8>, i: int) -> int
    decreases value.len() - i,
{
    if 0 <= i < value.len() && is_blank(value[i]) {
        blank_end(value, i + 1)
    } else {
        i
    }
}

/// The position behind the last byte below `n` and at or above `from` that is not blank.
pub open spec fn blank_start(value: Seq<u8>, from: int, n: int) -> int
    decreases n,
{
    if from < n <= value.len() && 0 <= from && is_blank(value[n - 1]) {
        blank_start(value, from, n - 1)
    } else {
        n
    }
}

/// A header value without blanks at its ends.
pub open spec fn without_blanks(value: Seq<u8>) -> Seq<u8> {
    let from = blank_end(value, 0);
    value.subrange(from, blank_start(value, from, value.len() as int))
}

/// Removes blanks at the ends of a header value.
pub fn trim_optional_whitespace(value: &Vec<u8>) -> (r: Vec<u8>)
    ensures
        r@ == without_blanks(value@),
{
    let mut from: usize = 0;
    while from < value.len() && (value[from] == 32 || value[from] == 9)
        invariant
            from <= value.len(),
            blank_end(value@, 0) == blank_end(value@, from as int),
        decreases value.len() - from,
    {
        from = from + 1;
    }
    let mut to: usize = value.len();
    while to > from && (value[to - 1] == 32 || value[to - 1] == 9)
        invariant
            from <= to <= value.len(),
            blank_start(value@, from as int, value.len() as int) == blank_start(
                value@,
                from as int,
                to as int,
            ),
        decreases to,
    {
        to = to - 1;
    }
    copy_range(value, from, to)
}

/// Whether a byte is an ASCII letter or digit.
pub open spec fn is_alphanumeric(b: u8) -> bool {
    48 <= b <= 57 || 65 <= b <= 90 || 97 <= b <= 122
}

/// Whether a byte may stand in a header name.
pub open spec fn in_header_name(b: u8) -> bool {
    ||| is_alphanumeric(b)
    ||| b == 33
    ||| 35 <= b <= 39
    ||| b == 42
    ||| b == 43
    ||| b == 45
    ||| b == 46
    ||| 94 <= b <= 96
    ||| b == 124
    ||| b == 126
}

/// Decides whether a byte may stand in a header name.
pub fn is_header_name_byte(b: u8) -> (r: bool)
    ensures
        r == in_header_name(b),
{
    (48 <= b && b <= 57) || (65 <= b && b <= 90) || (97 <= b && b <= 122) || b == 33 || (35 <= b
        && b <= 39) || b == 42 || b == 43 || b == 45 || b == 46 || (94 <= b && b <= 96) || b == 124
        || b == 126
}

/// Whether a byte may stand in a header value.
pub open spec fn in_header_value(b: u8) -> bool {
    b == 9 || 32 <= b <= 126
}

/// Decides whether a byte may stand in a header value.
pub fn is_header_value_byte(b: u8) -> (r: bool)
    ensures
        r == in_header_value(b),
{
    b == 9 || (32 <= b && b <= 126)
}

fn all_name_bytes(bytes: &Vec<u8>) -> (r: bool)
    ensures
        r == (forall|i: int| 0 <= i < bytes.len() ==> in_header_name(#[trigger] bytes[i])),
{
    let mut i: usize = 0;
    while i < bytes.len()
        invariant
            i <= bytes.len(),
            forall|k: int| 0 <= k < i ==> in_header_name(#[trigger] bytes[k]),
        decreases bytes.len() - i,
    {
        if !is_header_name_byte(bytes[i]) {
            return false;
        }
        i = i + 1;
    }
    true
}

/// Whether all bytes may stand in a header value.
pub open spec fn is_header_value(bytes: Seq<u8>) -> bool {
    forall|i: int| 0 <= i < bytes.len() ==> in_header_value(#[trigger] bytes[i])
}

fn all_value_bytes(bytes: &Vec<u8>) -> (r: bool)
    ensures
        r == is_header_value(bytes@),
{
    let mut i: usize = 0;
    while i < bytes.len()
        invariant
            i <= bytes.len(),
            forall|k: int| 0 <= k < i ==> in_header_value(#[trigger] bytes@[k]),
        decreases bytes.len() - i,
    {
        if !is_header_value_byte(bytes[i]) {
            assert(!in_header_value(bytes@[i as int]));
            return false;
        }
        i = i + 1;
    }
    true
}

/// Whether a byte may stand in a bearer token before its padding.
pub open spec fn in_token(b: u8) -> bool {
    is_alphanumeric(b) || b == 45 || b == 46 || b == 95 || b == 126 || b == 43 || b == 47
}

/// Decides whether a byte may stand in a bearer token before its padding.
pub fn is_bearer_token_byte(b: u8) -> (r: bool)
    ensures
        r == in_token(b),
{
    (48 <= b && b <= 57) || (65 <= b && b <= 90) || (97 <= b && b <= 122) || b == 45 || b == 46 || b
        == 95 || b == 126 || b == 43 || b == 47
}

/// Whether bytes are a bearer token: token bytes, then equals signs as padding.
pub open spec fn is_token(token: Seq<u8>) -> bool {
    exists|n: int| #[trigger] padded_token(token, n)
}

/// Whether bytes are a bearer token whose padding begins at `n`.
pub open spec fn padded_token(token: Seq<u8>, n: int) -> bool {
    &&& 0 < n <= token.len()
    &&& forall|i: int| 0 <= i < n ==> in_token(#[trigger] token[i])
    &&& forall|i: int| n <= i < token.len() ==> #[trigger] token[i] == 61
}

/// Decides whether bytes are a bearer token.
pub fn is_valid_bearer_token(token: &Vec<u8>) -> (r: bool)
    ensures
        r == is_token(token@),
{
    let mut n: usize = 0;
    while n < token.len() && is_bearer_token_byte(token[n])
        invariant
            n <= token.len(),
            forall|i: int| 0 <= i < n ==> in_token(#[trigger] token@[i]),
        decreases token.len() - n,
    {
        n = n + 1;
    }
    if n == 0 {
        proof {
            if is_token(token@) {
                let k = choose|k: int| #[trigger] padded_token(token@, k);
                assert(in_token(token@[0]));
            }
        }
        return false;
    }
    let mut j: usize = n;
    while j < token.len()
        invariant
            0 < n <= j <= token.len(),
            n < token.len() ==> !in_token(token@[n as int]),
            forall|i: int| 0 <= i < n ==> in_token(#[trigger] token@[i]),
            forall|i: int| n <= i < j ==> #[trigger] token@[i] == 61,
        decreases token.len() - j,
    {
        if token[j] != 61 {
            proof {
                if is_token(token@) {
                    let k = choose|k: int| #[trigger] padded_token(token@, k);
                    if k > n {
                        assert(in_token(token@[n as int]));
                    } else {
                        assert(token@[j as int] == 61);
                    }
                }
            }
            return false;
        }
        j = j + 1;
    }
    assert(padded_token(token@, n as int));
    true
}

/// The number of spaces from `i` on, plus `i`.
pub open spec fn spaces_end(value: Seq<u8>, i: int) -> int
    decreases value.len() - i,
{
    if 0 <= i < value.len() && value[i] == 32 {
        spaces_end(value, i + 1)
    } else {
        i
    }
}

/// The token in the value of an `Authorization` header.
pub open spec fn bearer_token(value: Seq<u8>) -> Option<Seq<u8>> {
    if value.len() <= 6 || lower_bytes(value.take(6)) != utf8("bearer"@) {
        None
    } else {
        let from = spaces_end(value, 6);
        if from == 6 || !is_token(value.skip(from)) {
            None
        } else {
            Some(value.skip(from))
        }
    }
}

/// Finds the token in the value of an `Authorization` header.
pub fn parse_bearer_token(value: &Vec<u8>) -> (r: Option<Vec<u8>>)
    ensures
        match r {
            Some(token) => bearer_token(value@) == Some(token@),
            None => bearer_token(value@) is None,
        },
{
    if value.len() <= 6 {
        return None;
    }
    let scheme = copy_range(value, 0, 6);
    assert(scheme@ =~= value@.take(6));
    if !bytes_fold_to(&scheme, "bearer") {
        return None;
    }
    let mut from: usize = 6;
    while from < value.len() && value[from] == 32
        invariant
            6 <= from <= value.len(),
            spaces_end(value@, 6) == spaces_end(value@, from as int),
        decreases value.len() - from,
    {
        from = from + 1;
    }
    if from == 6 {
        return None;
    }
    let token = copy_range(value, from, value.len());
    assert(token@ =~= value@.skip(from as int));
    if is_valid_bearer_token(&token) {
        Some(token)
    } else {
        None
    }
}

proof fn xor_or(a: usize, b: usize, c: usize)
    by (bit_vector)
    ensures
        (a | b == 0usize) == (a == 0usize && b == 0usize),
        (a ^ c == 0usize) == (a == c),
{
}

proof fn xor_byte(a: u8, b: u8)
    by (bit_vector)
    ensures
        (a ^ b == 0u8) == (a == b),
{
}

/// Decides whether bytes are the same, in as many steps for any bytes of the same lengths.
pub fn constant_work_eq(left: &Vec<u8>, right: &Vec<u8>) -> (same: bool)
    ensures
        same == (left@ == right@),
{
    let compared = if left.len() > right.len() {
        left.len()
    } else {
        right.len()
    };
    let mut difference: usize = left.len() ^ right.len();
    proof {
        xor_or(left.len(), 0, right.len());
    }
    let mut i: usize = 0;
    while i < compared
        invariant
            i <= compared,
            compared == if left.len() > right.len() { left.len() } else { right.len() },
            (difference == 0) == (left.len() == right.len() && (forall|k: int|
                0 <= k < i ==> left@[k] == right@[k])),
        decreases compared - i,
    {
        let a: u8 = if i < left.len() {
            left[i]
        } else {
            0
        };
        let b: u8 = if i < right.len() {
            right[i]
        } else {
            0
        };
        let bits = (a ^ b) as usize;
        let ghost before = difference;
        difference = difference | bits;
        proof {
            xor_byte(a, b);
            xor_or(before, bits, 0);
        }
        i = i + 1;
    }
    if difference == 0 {
        assert(left@ =~= right@);
    }
    difference == 0
}

/// Whether a credential may stand in a header: nonempty, without blanks at its ends.
pub open spec fn is_credential(credential: Seq<u8>) -> bool {
    credential.len() > 0 && without_blanks(credential) == credential && is_header_value(credential)
}

/// Decides whether a credential may stand in a header.
pub fn is_valid_clickhouse_credential(credential: &Vec<u8>) -> (r: bool)
    ensures
        r == is_credential(credential@),
{
    credential.len() > 0 && same_bytes(&trim_optional_whitespace(credential), credential)
        && all_value_bytes(credential)
}

/// Why a user and a key cannot be required, if they cannot.
pub open spec fn principal_fault(user: Seq<char>, key: Seq<char>) -> Option<Seq<char>> {
    if user.len() == 0 {
        Some("configured ClickHouse user must not be empty"@)
    } else if !is_credential(utf8(user)) {
        Some("configured ClickHouse user is not a valid HTTP header value"@)
    } else if key.len() == 0 {
        Some("configured ClickHouse key must not be empty"@)
    } else if !is_credential(utf8(key)) {
        Some("configured ClickHouse key is not a valid HTTP header value"@)
    } else {
        None
    }
}

/// The message of a configuration error, if there is one.
pub open spec fn fault_text(r: Result<(), &'static str>) -> Option<Seq<char>> {
    match r {
        Ok(()) => None,
        Err(message) => Some(message@),
    }
}

/// Checks a user and a key that are to be required.
pub fn validate_clickhouse_principal_configuration(user: &str, key: &str) -> (r: Result<
    (),
    &'static str,
>)
    ensures
        fault_text(r) == principal_fault(user@, key@),
{
    if user.is_empty() {
        return Err("configured ClickHouse user must not be empty");
    }
    if !is_valid_clickhouse_credential(&text_bytes(user)) {
        return Err("configured ClickHouse user is not a valid HTTP header value");
    }
    if key.is_empty() {
        return Err("configured ClickHouse key must not be empty");
    }
    if !is_valid_clickhouse_credential(&text_bytes(key)) {
        return Err("configured ClickHouse key is not a valid HTTP header value");
    }
    Ok(())
}

/// The largest number of principals in a set.
pub const MAX_HTTP_NAMED_PRINCIPALS: usize = 64;

/// Whether one of the first `n` principals has a user and a key.
pub open spec fn pair_before(list: Seq<Principal>, user: Seq<char>, key: Seq<char>, n: int) -> bool {
    exists|i: int| 0 <= i < n && (#[trigger] list[i]).user == user && list[i].key == key
}

/// Why the principals from `i` on cannot be required, if they cannot.
pub open spec fn principals_fault(list: Seq<Principal>, i: int) -> Option<Seq<char>>
    decreases list.len() - i,
{
    if i < 0 || i >= list.len() {
        None
    } else {
        match principal_fault(list[i].user, list[i].key) {
            Some(message) => Some(message),
            None => if pair_before(list, list[i].user, list[i].key, i) {
                Some("configured ClickHouse principal set contains a duplicate user/key pair"@)
            } else {
                principals_fault(list, i + 1)
            },
        }
    }
}

/// Why a set of principals cannot be required, if it cannot.
pub open spec fn principal_set_fault(list: Seq<Principal>) -> Option<Seq<char>> {
    if list.len() == 0 {
        Some("configured ClickHouse principal set must not be empty"@)
    } else if list.len() > MAX_HTTP_NAMED_PRINCIPALS {
        Some("configured ClickHouse principal set exceeds the principal limit"@)
    } else {
        principals_fault(list, 0)
    }
}

/// Checks a set of principals that are to be required.
#[verifier::loop_isolation(false)]
pub fn validate_clickhouse_principal_set_configuration(
    principals: &Vec<ClickHousePrincipal<'_>>,
) -> (r: Result<(), &'static str>)
    ensures
        fault_text(r) == principal_set_fault(principals_of(principals@)),
{
    let ghost list = principals_of(principals@);
    if principals.len() == 0 {
        return Err("configured ClickHouse principal set must not be empty");
    }
    if principals.len() > MAX_HTTP_NAMED_PRINCIPALS {
        return Err("configured ClickHouse principal set exceeds the principal limit");
    }
    let mut i: usize = 0;
    while i < principals.len()
        invariant
            i <= principals.len(),
            principals_fault(list, 0) == principals_fault(list, i as int),
        decreases principals.len() - i,
    {
        assert(list[i as int] == principals[i as int]@);
        let user = principals[i].user;
        let key = principals[i].key;
        validate_clickhouse_principal_configuration(user, key)?;
        let mut k: usize = 0;
        while k < i
            invariant
                k <= i < principals.len(),
                forall|j: int| 0 <= j < k ==> !((#[trigger] list[j]).user == user@ && list[j].key == key@),
            decreases i - k,
        {
            assert(list[k as int] == principals[k as int]@);
            if crate::text::same_text(principals[k].user, user) && crate::text::same_text(
                principals[k].key,
                key,
            ) {
                return Err(
                    "configured ClickHouse principal set contains a duplicate user/key pair",
                );
            }
            k = k + 1;
        }
        i = i + 1;
    }
    Ok(())
}

/// The number that digits from `i` on add to `found`.
pub open spec fn length_value(value: Seq<u8>, i: int, found: usize) -> Result<usize, Refusal>
    decreases value.len() - i,
{
    if i < 0 || i >= value.len() {
        Ok(found)
    } else {
        let next = found * 10 + (value[i] - 48);
        if next > usize::MAX {
            Err(
                refused(Status::PayloadTooLarge, "request body exceeds configured byte limit"@),
            )
        } else {
            length_value(value, i + 1, next as usize)
        }
    }
}

/// Whether bytes are decimal digits.
pub open spec fn are_digits(value: Seq<u8>) -> bool {
    forall|i: int| 0 <= i < value.len() ==> 48 <= #[trigger] value[i] <= 57
}

/// The length that a `Content-Length` header declares.
pub open spec fn declared_length(value: Seq<u8>) -> Result<usize, Refusal> {
    if value.len() == 0 || !are_digits(value) {
        Err(bad("invalid Content-Length header"@))
    } else {
        length_value(value, 0, 0)
    }
}

/// Reads a `Content-Length` header.
pub fn parse_content_length(value: &Vec<u8>) -> (r: Result<usize, RequestFailure>)
    ensures
        judged(r) == declared_length(value@),
{
    if value.len() == 0 {
        return Err(bad_request("invalid Content-Length header"));
    }
    let mut i: usize = 0;
    while i < value.len()
        invariant
            i <= value.len(),
            forall|k: int| 0 <= k < i ==> 48 <= #[trigger] value@[k] <= 57,
        decreases value.len() - i,
    {
        if value[i] < 48 || value[i] > 57 {
            assert(!are_digits(value@));
            return Err(bad_request("invalid Content-Length header"));
        }
        i = i + 1;
    }
    let mut length: usize = 0;
    let mut j: usize = 0;
    while j < value.len()
        invariant
            j <= value.len(),
            are_digits(value@),
            length_value(value@, 0, 0) == length_value(value@, j as int, length),
        decreases value.len() - j,
    {
        let b = value[j];
        assert(48 <= value@[j as int] <= 57);
        let next = match length.checked_mul(10) {
            Some(tens) => tens.checked_add((b - 48) as usize),
            None => None,
        };
        match next {
            Some(n) => length = n,
            None => return Err(
                failure(Status::PayloadTooLarge, "request body exceeds configured byte limit"),
            ),
        }
        j = j + 1;
    }
    Ok(length)
}

/// The line without its carriage return, which must stand there exactly when a line feed
/// follows.
pub open spec fn header_line(line: Seq<u8>, followed: bool) -> Result<Seq<u8>, Refusal> {
    if followed {
        if line.len() > 0 && line.last() == 13 {
            Ok(line.drop_last())
        } else {
            Err(bad("HTTP headers require CRLF framing"@))
        }
    } else if byte_from(line, 13, 0) is Some {
        Err(bad("malformed HTTP header"@))
    } else {
        Ok(line)
    }
}

/// Removes the carriage return of a line.
pub fn strict_header_line(line: &Vec<u8>, followed: bool) -> (r: Result<Vec<u8>, RequestFailure>)
    ensures
        bytes_judged(r) == header_line(line@, followed),
{
    if followed {
        if line.len() > 0 && line[line.len() - 1] == 13 {
            let rest = copy_range(line, 0, line.len() - 1);
            assert(rest@ =~= line@.drop_last());
            Ok(rest)
        } else {
            Err(bad_request("HTTP headers require CRLF framing"))
        }
    } else if find_byte(line, 13).is_some() {
        Err(bad_request("malformed HTTP header"))
    } else {
        let whole = copy_range(line, 0, line.len());
        assert(whole@ =~= line@);
        Ok(whole)
    }
}

/// A header that should come once: its last value, and whether it came again.
pub struct Single {
    pub value: Option<Seq<u8>>,
    pub again: bool,
}

impl Single {
    /// The header after one more value.
    pub open spec fn seen(self, value: Seq<u8>) -> Single {
        Single { value: Some(value), again: self.again || self.value is Some }
    }
}

/// The headers that requests are judged by.
pub struct Fields {
    pub content_length: Option<usize>,
    pub host: bool,
    pub transfer_encoding: bool,
    pub expect: bool,
    pub authorization: Single,
    pub user: Single,
    pub key: Single,
    pub format: Single,
    pub database: Single,
}

/// Headers after one more.
pub open spec fn with_field(fields: Fields, name: Seq<u8>, value: Seq<u8>, required: Required) -> Result<
    Fields,
    Refusal,
> {
    let name = lower_bytes(name);
    if name == utf8("content-length"@) {
        if fields.content_length is Some {
            Err(bad("duplicate Content-Length header"@))
        } else {
            match declared_length(value) {
                Err(refusal) => Err(refusal),
                Ok(n) => Ok(Fields { content_length: Some(n), ..fields }),
            }
        }
    } else if name == utf8("transfer-encoding"@) {
        Ok(Fields { transfer_encoding: true, ..fields })
    } else if name == utf8("expect"@) {
        Ok(Fields { expect: true, ..fields })
    } else if name == utf8("host"@) {
        if fields.host || value.len() == 0 {
            Err(bad("invalid Host header"@))
        } else {
            Ok(Fields { host: true, ..fields })
        }
    } else if required is Bearer && name == utf8("authorization"@) {
        Ok(Fields { authorization: fields.authorization.seen(value), ..fields })
    } else if (required is User || required is Users) && name == utf8("x-clickhouse-user"@) {
        Ok(Fields { user: fields.user.seen(value), ..fields })
    } else if is_private(required) && name == utf8("x-clickhouse-key"@) {
        Ok(Fields { key: fields.key.seen(value), ..fields })
    } else if name == utf8("x-clickhouse-format"@) {
        Ok(Fields { format: fields.format.seen(value), ..fields })
    } else if name == utf8("x-clickhouse-database"@) {
        Ok(Fields { database: fields.database.seen(value), ..fields })
    } else {
        Ok(fields)
    }
}

/// Headers after the lines from `i` on. `count` lines came before.
pub open spec fn with_lines(
    fields: Fields,
    lines: Seq<Seq<u8>>,
    i: int,
    count: int,
    max_count: usize,
    required: Required,
) -> Result<Fields, Refusal>
    decreases lines.len() - i,
{
    if i < 0 || i >= lines.len() {
        Ok(fields)
    } else {
        match header_line(lines[i], i + 1 < lines.len()) {
            Err(refusal) => Err(refusal),
            Ok(line) => if count + 1 > max_count {
                Err(
                    refused(
                        Status::RequestHeaderFieldsTooLarge,
                        "request has too many header fields"@,
                    ),
                )
            } else {
                match byte_from(line, 58, 0) {
                    None => Err(bad("malformed HTTP header"@)),
                    Some(colon) => {
                        let name = line.take(colon);
                        let value = without_blanks(line.skip(colon + 1));
                        if name.len() == 0 || !(forall|k: int|
                            0 <= k < name.len() ==> in_header_name(#[trigger] name[k]))
                            || !is_header_value(value) {
                            Err(bad("malformed HTTP header"@))
                        } else {
                            match with_field(fields, name, value, required) {
                                Err(refusal) => Err(refusal),
                                Ok(next) => with_lines(
                                    next,
                                    lines,
                                    i + 1,
                                    count + 1,
                                    max_count,
                                    required,
                                ),
                            }
                        }
                    },
                }
            },
        }
    }
}

/// No headers.
pub open spec fn no_fields() -> Fields {
    let none = Single { value: None, again: false };
    Fields {
        content_length: None,
        host: false,
        transfer_encoding: false,
        expect: false,
        authorization: none,
        user: none,
        key: none,
        format: none,
        database: none,
    }
}

struct Once {
    value: Option<Vec<u8>>,
    again: bool,
}

impl Once {
    spec fn view(&self) -> Single {
        Single {
            value: match self.value {
                Some(value) => Some(value@),
                None => None,
            },
            again: self.again,
        }
    }

    fn none() -> (r: Once)
        ensures
            r@ == (Single { value: None, again: false }),
    {
        Once { value: None, again: false }
    }

    fn put(&mut self, value: Vec<u8>)
        ensures
            final(self)@ == old(self)@.seen(value@),
    {
        if self.value.is_some() {
            self.again = true;
        }
        self.value = Some(value);
    }

    /// The value, or no bytes.
    fn or_empty(&self) -> (bytes: Vec<u8>)
        ensures
            bytes@ == (match self@.value {
                Some(value) => value,
                None => Seq::empty(),
            }),
    {
        match &self.value {
            Some(value) => crate::bytes::copy_bytes(value),
            None => Vec::new(),
        }
    }
}

struct FieldsRead {
    content_length: Option<usize>,
    host: bool,
    transfer_encoding: bool,
    expect: bool,
    authorization: Once,
    user: Once,
    key: Once,
    format: Once,
    database: Once,
}

impl FieldsRead {
    spec fn view(&self) -> Fields {
        Fields {
            content_length: self.content_length,
            host: self.host,
            transfer_encoding: self.transfer_encoding,
            expect: self.expect,
            authorization: self.authorization@,
            user: self.user@,
            key: self.key@,
            format: self.format@,
            database: self.database@,
        }
    }

    fn read(&mut self, name: &Vec<u8>, value: Vec<u8>, authentication: &Authentication<'_>) -> (r:
        Result<(), RequestFailure>)
        ensures
            match r {
                Ok(()) => with_field(old(self)@, name@, value@, authentication@) == Ok::<
                    Fields,
                    Refusal,
                >(final(self)@),
                Err(e) => with_field(old(self)@, name@, value@, authentication@) == Err::<
                    Fields,
                    Refusal,
                >(e@),
            },
    {
        let bearer = matches!(authentication, Authentication::Bearer(_));
        let users = match authentication {
            Authentication::ClickHousePrincipal { .. } => true,
            Authentication::ClickHousePrincipalSet(_) => true,
            _ => false,
        };
        if bytes_fold_to(name, "content-length") {
            if self.content_length.is_some() {
                return Err(bad_request("duplicate Content-Length header"));
            }
            self.content_length = Some(parse_content_length(&value)?);
        } else if bytes_fold_to(name, "transfer-encoding") {
            self.transfer_encoding = true;
        } else if bytes_fold_to(name, "expect") {
            self.expect = true;
        } else if bytes_fold_to(name, "host") {
            if self.host || value.len() == 0 {
                return Err(bad_request("invalid Host header"));
            }
            self.host = true;
        } else if bearer && bytes_fold_to(name, "authorization") {
            self.authorization.put(value);
        } else if users && bytes_fold_to(name, "x-clickhouse-user") {
            self.user.put(value);
        } else if authentication.private() && bytes_fold_to(name, "x-clickhouse-key") {
            self.key.put(value);
        } else if bytes_fold_to(name, "x-clickhouse-format") {
            self.format.put(value);
        } else if bytes_fold_to(name, "x-clickhouse-database") {
            self.database.put(value);
        }
        Ok(())
    }
}

#[verifier::loop_isolation(false)]
fn read_fields(lines: &Vec<Vec<u8>>, max_count: usize, authentication: &Authentication<'_>) -> (r: Result<
    FieldsRead,
    RequestFailure,
>)
    requires
        lines.len() > 0,
    ensures
        match r {
            Ok(fields) => with_lines(
                no_fields(),
                byte_lists(lines@),
                1,
                0,
                max_count,
                authentication@,
            ) == Ok::<Fields, Refusal>(fields@),
            Err(e) => with_lines(
                no_fields(),
                byte_lists(lines@),
                1,
                0,
                max_count,
                authentication@,
            ) == Err::<Fields, Refusal>(e@),
        },
{
    let ghost all = byte_lists(lines@);
    let ghost required = authentication@;
    let mut fields = FieldsRead {
        content_length: None,
        host: false,
        transfer_encoding: false,
        expect: false,
        authorization: Once::none(),
        user: Once::none(),
        key: Once::none(),
        format: Once::none(),
        database: Once::none(),
    };
    let mut i: usize = 1;
    while i < lines.len()
        invariant
            1 <= i <= lines.len(),
            with_lines(no_fields(), all, 1, 0, max_count, required) == with_lines(
                fields@,
                all,
                i as int,
                i - 1,
                max_count,
                required,
            ),
        decreases lines.len() - i,
    {
        assert(all[i as int] == lines[i as int]@);
        let line = strict_header_line(&lines[i], i + 1 < lines.len())?;
        if i > max_count {
            return Err(
                failure(
                    Status::RequestHeaderFieldsTooLarge,
                    "request has too many header fields",
                ),
            );
        }
        let colon = match find_byte(&line, 58) {
            None => return Err(bad_request("malformed HTTP header")),
            Some(colon) => colon,
        };
        let name = copy_range(&line, 0, colon);
        let rest = copy_range(&line, colon + 1, line.len());
        assert(name@ =~= line@.take(colon as int));
        assert(rest@ =~= line@.skip(colon + 1));
        let value = trim_optional_whitespace(&rest);
        if name.len() == 0 || !all_name_bytes(&name) || !all_value_bytes(&value) {
            return Err(bad_request("malformed HTTP header"));
        }
        fields.read(&name, value, authentication)?;
        i = i + 1;
    }
    Ok(fields)
}

/// The refusal of a request that does not present what it must.
pub open spec fn challenge(message: Seq<char>, extra: ExtraHeader) -> Refusal {
    Refusal { status: Status::Unauthorized, message, extra }
}

/// The bytes of a header, or none.
pub open spec fn present(field: Single) -> Seq<u8> {
    match field.value {
        Some(value) => value,
        None => Seq::empty(),
    }
}

/// Whether one of the principals from `i` on has a role and the given user and key.
pub open spec fn has_principal(
    list: Seq<Principal>,
    user: Seq<u8>,
    key: Seq<u8>,
    role: ClickHousePrincipalRole,
    i: int,
) -> bool {
    exists|k: int|
        i <= k < list.len() && 0 <= k && (#[trigger] list[k]).role == role && utf8(list[k].user)
            == user && utf8(list[k].key) == key
}

/// The access that a request gets, or its refusal.
pub open spec fn granted(required: Required, fields: Fields, access: HttpAccess) -> Result<
    HttpAccess,
    Refusal,
> {
    match required {
        Required::Nothing => Ok(access),
        Required::Bearer(token) => if !fields.authorization.again && (
        fields.authorization.value matches Some(value) && bearer_token(value) == Some(
            utf8(token),
        )) {
            Ok(access)
        } else {
            Err(challenge("bearer authentication required"@, ExtraHeader::BearerChallenge))
        },
        Required::Key(key) => if !fields.key.again && (fields.key.value matches Some(value)
            && value.len() > 0 && value == utf8(key)) {
            Ok(access)
        } else {
            Err(
                challenge(
                    "X-ClickHouse-Key authentication required"@,
                    ExtraHeader::KeyChallenge,
                ),
            )
        },
        Required::User { user, key } => if !fields.user.again && !fields.key.again && present(
            fields.user,
        ) == utf8(user) && present(fields.key) == utf8(key) {
            Ok(access)
        } else {
            Err(
                challenge(
                    "X-ClickHouse-User and X-ClickHouse-Key authentication required"@,
                    ExtraHeader::PrincipalChallenge,
                ),
            )
        },
        Required::Users(list) => {
            let user = present(fields.user);
            let key = present(fields.key);
            let writes = has_principal(list, user, key, ClickHousePrincipalRole::ReadWrite, 0);
            let reads = has_principal(list, user, key, ClickHousePrincipalRole::ReadOnly, 0);
            if (reads || writes) && !fields.user.again && !fields.key.again {
                Ok(if writes { HttpAccess::ReadWrite } else { HttpAccess::ReadOnly })
            } else {
                Err(
                    challenge(
                        "X-ClickHouse-User and X-ClickHouse-Key authentication required"@,
                        ExtraHeader::PrincipalChallenge,
                    ),
                )
            }
        },
    }
}

/// Decides whether a principal with the given user and key reads, and whether one writes.
fn find_principals(list: &Vec<ClickHousePrincipal<'_>>, user: &Vec<u8>, key: &Vec<u8>) -> (r: (bool, bool))
    ensures
        r.0 == has_principal(
            principals_of(list@),
            user@,
            key@,
            ClickHousePrincipalRole::ReadOnly,
            0,
        ),
        r.1 == has_principal(
            principals_of(list@),
            user@,
            key@,
            ClickHousePrincipalRole::ReadWrite,
            0,
        ),
{
    let ghost all = principals_of(list@);
    let mut reads = false;
    let mut writes = false;
    let mut i: usize = list.len();
    while i > 0
        invariant
            i <= list.len(),
            all == principals_of(list@),
            reads == has_principal(all, user@, key@, ClickHousePrincipalRole::ReadOnly, i as int),
            writes == has_principal(all, user@, key@, ClickHousePrincipalRole::ReadWrite, i as int),
        decreases i,
    {
        let principal = &list[i - 1];
        assert(all[i - 1] == principal@);
        let user_matches = constant_work_eq(user, &text_bytes(principal.user));
        let key_matches = constant_work_eq(key, &text_bytes(principal.key));
        let matched = user_matches && key_matches;
        match principal.role {
            ClickHousePrincipalRole::ReadOnly => reads = reads || matched,
            ClickHousePrincipalRole::ReadWrite => writes = writes || matched,
        }
        i = i - 1;
    }
    (reads, writes)
}

fn grant(authentication: &Authentication<'_>, fields: &FieldsRead, access: HttpAccess) -> (r: Result<
    HttpAccess,
    RequestFailure,
>)
    ensures
        judged(r) == granted(authentication@, fields@, access),
{
    match authentication {
        Authentication::Nothing => Ok(access),
        Authentication::Bearer(token) => {
            let matched = match &fields.authorization.value {
                Some(value) => match parse_bearer_token(value) {
                    Some(provided) => constant_work_eq(&provided, &text_bytes(token)),
                    None => false,
                },
                None => false,
            };
            if !fields.authorization.again && matched {
                Ok(access)
            } else {
                Err(
                    failure_with(
                        Status::Unauthorized,
                        "bearer authentication required",
                        ExtraHeader::BearerChallenge,
                    ),
                )
            }
        },
        Authentication::ClickHouseKey(key) => {
            let matched = match &fields.key.value {
                Some(value) => value.len() > 0 && constant_work_eq(value, &text_bytes(key)),
                None => false,
            };
            if !fields.key.again && matched {
                Ok(access)
            } else {
                Err(
                    failure_with(
                        Status::Unauthorized,
                        "X-ClickHouse-Key authentication required",
                        ExtraHeader::KeyChallenge,
                    ),
                )
            }
        },
        Authentication::ClickHousePrincipal { user, key } => {
            let user_matches = constant_work_eq(&fields.user.or_empty(), &text_bytes(user));
            let key_matches = constant_work_eq(&fields.key.or_empty(), &text_bytes(key));
            if user_matches && key_matches && !fields.user.again && !fields.key.again {
                Ok(access)
            } else {
                Err(
                    failure_with(
                        Status::Unauthorized,
                        "X-ClickHouse-User and X-ClickHouse-Key authentication required",
                        ExtraHeader::PrincipalChallenge,
                    ),
                )
            }
        },
        Authentication::ClickHousePrincipalSet(list) => {
            let (reads, writes) = find_principals(
                list,
                &fields.user.or_empty(),
                &fields.key.or_empty(),
            );
            if (reads || writes) && !fields.user.again && !fields.key.again {
                Ok(
                    if writes {
                        HttpAccess::ReadWrite
                    } else {
                        HttpAccess::ReadOnly
                    },
                )
            } else {
                Err(
                    failure_with(
                        Status::Unauthorized,
                        "X-ClickHouse-User and X-ClickHouse-Key authentication required",
                        ExtraHeader::PrincipalChallenge,
                    ),
                )
            }
        },
    }
}

/// The response format that a header value denotes.
pub open spec fn header_format(value: Seq<u8>) -> Option<QueryResponseFormat> {
    match format_named(value) {
        Some(QueryResponseFormat::Json) => None,
        other => other,
    }
}

/// The insert format that a header value denotes.
pub open spec fn insert_format(value: Seq<u8>) -> Option<TableInsertFormat> {
    match format_named(value) {
        Some(QueryResponseFormat::CsvWithNames) => Some(TableInsertFormat::CsvWithNames),
        Some(QueryResponseFormat::Csv) => Some(TableInsertFormat::Csv),
        Some(QueryResponseFormat::TabSeparated) => Some(TableInsertFormat::TabSeparated),
        Some(QueryResponseFormat::TabSeparatedWithNames) => Some(
            TableInsertFormat::TabSeparatedWithNames,
        ),
        _ => None,
    }
}

/// A request whose headers are accepted.
#[derive(Debug)]
pub struct ParsedRequest {
    pub kind: RequestKind,
    pub content_length: Option<usize>,
    pub response_format: Option<QueryResponseFormat>,
    pub table_insert_format: TableInsertFormat,
    pub access: HttpAccess,
}

/// The mathematical content of a request whose headers are accepted.
pub struct Accepted {
    pub asked: Asked,
    pub content_length: Option<usize>,
    pub response_format: Option<QueryResponseFormat>,
    pub table_insert_format: TableInsertFormat,
    pub access: HttpAccess,
}

impl View for ParsedRequest {
    type V = Accepted;

    open spec fn view(&self) -> Accepted {
        Accepted {
            asked: self.kind@,
            content_length: self.content_length,
            response_format: self.response_format,
            table_insert_format: self.table_insert_format,
            access: self.access,
        }
    }
}

/// Whether a request is a query.
pub open spec fn is_query(asked: Asked) -> bool {
    asked is BodyQuery || asked is ParameterizedQuery
}

/// Whether a request inserts rows.
pub open spec fn is_insert(asked: Asked) -> bool {
    asked is Insert || asked is TableInsert
}

/// What the headers beside the credentials refuse, if anything.
pub open spec fn header_refusal(asked: Asked, fields: Fields, access: HttpAccess) -> Option<Refusal> {
    if access != HttpAccess::ReadWrite && is_insert(asked) {
        Some(unknown_target())
    } else if (is_query(asked) || is_insert(asked)) && fields.database.again {
        Some(bad("duplicate X-ClickHouse-Database header"@))
    } else if (is_query(asked) || is_insert(asked)) && (fields.database.value matches Some(value)
        && value != utf8("default"@)) {
        Some(bad("X-ClickHouse-Database header must be default"@))
    } else if fields.transfer_encoding {
        Some(bad("Transfer-Encoding is not supported"@))
    } else if fields.expect {
        Some(refused(Status::ExpectationFailed, "Expect header is not supported"@))
    } else if !fields.host {
        Some(bad("Host header is required"@))
    } else if (is_query(asked) || asked is TableInsert) && fields.format.again {
        Some(bad("duplicate X-ClickHouse-Format header"@))
    } else if is_query(asked) && (fields.format.value matches Some(value) && header_format(value) is None) {
        Some(bad("unsupported X-ClickHouse-Format header"@))
    } else if asked is TableInsert && (fields.format.value matches Some(value) && insert_format(value) is None) {
        Some(bad("unsupported X-ClickHouse-Format header"@))
    } else {
        None
    }
}

/// The request that a request line and headers make.
pub open spec fn accepted(asked: Asked, fields: Fields, required: Required, access: HttpAccess) -> Result<
    Accepted,
    Refusal,
> {
    match granted(required, fields, access) {
        Err(refusal) => Err(refusal),
        Ok(access) => match header_refusal(asked, fields, access) {
            Some(refusal) => Err(refusal),
            None => Ok(
                Accepted {
                    asked,
                    content_length: fields.content_length,
                    response_format: if is_query(asked) && fields.format.value is Some {
                        header_format(fields.format.value->Some_0)
                    } else {
                        None
                    },
                    table_insert_format: if asked is TableInsert && fields.format.value is Some {
                        insert_format(fields.format.value->Some_0)->Some_0
                    } else {
                        TableInsertFormat::CsvWithNames
                    },
                    access,
                },
            ),
        },
    }
}

/// Whether a header block ends with an empty line.
pub open spec fn is_terminated(header: Seq<u8>) -> bool {
    header.len() >= 4 && header.skip(header.len() - 4) == seq![13u8, 10, 13, 10]
}

/// The request that a header block makes.
pub open spec fn parsed(header: Seq<u8>, max_count: usize, required: Required, access: HttpAccess) -> Result<
    Accepted,
    Refusal,
> {
    if !is_terminated(header) {
        Err(bad("malformed HTTP headers"@))
    } else {
        let lines = parts(header.take(header.len() - 4), 10);
        match header_line(lines[0], lines.len() > 1) {
            Err(refusal) => Err(refusal),
            Ok(line) => match line_asks(line, !(required is Nothing)) {
                Err(refusal) => Err(refusal),
                Ok(asked) => match with_lines(no_fields(), lines, 1, 0, max_count, required) {
                    Err(refusal) => Err(refusal),
                    Ok(fields) => accepted(asked, fields, required, access),
                },
            },
        }
    }
}

fn find_header_format(value: &Vec<u8>) -> (r: Option<QueryResponseFormat>)
    ensures
        r == header_format(value@),
{
    match find_format(value) {
        Some(QueryResponseFormat::Json) => None,
        other => other,
    }
}

fn find_insert_format(value: &Vec<u8>) -> (r: Option<TableInsertFormat>)
    ensures
        r == insert_format(value@),
{
    match find_format(value) {
        Some(QueryResponseFormat::CsvWithNames) => Some(TableInsertFormat::CsvWithNames),
        Some(QueryResponseFormat::Csv) => Some(TableInsertFormat::Csv),
        Some(QueryResponseFormat::TabSeparated) => Some(TableInsertFormat::TabSeparated),
        Some(QueryResponseFormat::TabSeparatedWithNames) => Some(
            TableInsertFormat::TabSeparatedWithNames,
        ),
        _ => None,
    }
}

fn check_headers(
    kind: RequestKind,
    fields: FieldsRead,
    authentication: &Authentication<'_>,
    access: HttpAccess,
) -> (r: Result<ParsedRequest, RequestFailure>)
    ensures
        match r {
            Ok(request) => accepted(kind@, fields@, authentication@, access) == Ok::<
                Accepted,
                Refusal,
            >(request@),
            Err(e) => accepted(kind@, fields@, authentication@, access) == Err::<Accepted, Refusal>(
                e@,
            ),
        },
{
    let access = grant(authentication, &fields, access)?;
    let query = match &kind {
        RequestKind::BodyQuery => true,
        RequestKind::ParameterizedQuery { .. } => true,
        _ => false,
    };
    let table_insert = matches!(kind, RequestKind::TableInsert(_));
    let insert = table_insert || matches!(kind, RequestKind::Insert);
    if !access.allows_insert() && insert {
        return Err(failure(Status::NotFound, "request target must be / or /query"));
    }
    if query || insert {
        if fields.database.again {
            return Err(bad_request("duplicate X-ClickHouse-Database header"));
        }
        if let Some(value) = &fields.database.value {
            if !bytes_are(value, "default") {
                return Err(bad_request("X-ClickHouse-Database header must be default"));
            }
        }
    }
    if fields.transfer_encoding {
        return Err(bad_request("Transfer-Encoding is not supported"));
    }
    if fields.expect {
        return Err(failure(Status::ExpectationFailed, "Expect header is not supported"));
    }
    if !fields.host {
        return Err(bad_request("Host header is required"));
    }
    let mut response_format: Option<QueryResponseFormat> = None;
    let mut table_insert_format = TableInsertFormat::CsvWithNames;
    if query || table_insert {
        if fields.format.again {
            return Err(bad_request("duplicate X-ClickHouse-Format header"));
        }
        if let Some(value) = &fields.format.value {
            if query {
                match find_header_format(value) {
                    Some(format) => response_format = Some(format),
                    None => return Err(bad_request("unsupported X-ClickHouse-Format header")),
                }
            } else {
                match find_insert_format(value) {
                    Some(format) => table_insert_format = format,
                    None => return Err(bad_request("unsupported X-ClickHouse-Format header")),
                }
            }
        }
    }
    Ok(
        ParsedRequest {
            kind,
            content_length: fields.content_length,
            response_format,
            table_insert_format,
            access,
        },
    )
}

/// Reads a header block. Insert targets are recognized for any handler that authenticates,
/// so that credentials are judged before access.
pub fn parse_headers(
    header: &Vec<u8>,
    max_count: usize,
    authentication: &Authentication<'_>,
    access: HttpAccess,
) -> (r: Result<ParsedRequest, RequestFailure>)
    ensures
        match r {
            Ok(request) => parsed(header@, max_count, authentication@, access) == Ok::<
                Accepted,
                Refusal,
            >(request@),
            Err(e) => parsed(header@, max_count, authentication@, access) == Err::<
                Accepted,
                Refusal,
            >(e@),
        },
{
    let n = header.len();
    if n < 4 {
        return Err(bad_request("malformed HTTP headers"));
    }
    let tail = copy_range(header, n - 4, n);
    assert(tail@ =~= header@.skip(n - 4));
    let ended = tail[0] == 13 && tail[1] == 10 && tail[2] == 13 && tail[3] == 10;
    proof {
        if ended {
            assert(tail@ =~= seq![13u8, 10, 13, 10]);
        }
    }
    if !ended {
        return Err(bad_request("malformed HTTP headers"));
    }
    let text = copy_range(header, 0, n - 4);
    assert(text@ =~= header@.take(n - 4));
    let lines = split(&text, 10);
    let ghost all = byte_lists(lines@);
    assert(all.len() == lines.len());
    assert(all[0] == lines[0]@);
    let line = strict_header_line(&lines[0], lines.len() > 1)?;
    let kind = parse_request_line(&line, authentication.is_configured())?;
    let fields = read_fields(&lines, max_count, authentication)?;
    check_headers(kind, fields, authentication, access)
}

} // verus!
