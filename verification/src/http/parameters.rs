//! Form-style query parameters.

use vstd::prelude::*;
use crate::bytes::{byte_from, byte_lists, bytes_are, copy_range, find_byte, parts, split, utf8};
use crate::http::request::{bad, bad_request, bytes_judged, failure, judged, refused, ParameterizedQueryMethod, QueryResponseFormat, Refusal, RequestFailure};
use crate::http::response::Status;
use crate::text::{concat2, concat3};

verus! {

/// The value of a hexadecimal digit.
pub open spec fn hex_value(b: u8) -> Option<u8> {
    if 48 <= b <= 57 {
        Some((b - 48) as u8)
    } else if 97 <= b <= 102 {
        Some((b - 87) as u8)
    } else if 65 <= b <= 70 {
        Some((b - 55) as u8)
    } else {
        None
    }
}

/// Reads a hexadecimal digit.
pub fn decode_hex_digit(b: u8) -> (r: Option<u8>)
    ensures
        r == hex_value(b),
{
    if 48 <= b && b <= 57 {
        Some(b - 48)
    } else if 97 <= b && b <= 102 {
        Some(b - 87)
    } else if 65 <= b && b <= 70 {
        Some(b - 55)
    } else {
        None
    }
}

/// The refusal of a malformed percent escape.
pub open spec fn bad_escape() -> Refusal {
    bad("query parameter contains malformed percent encoding"@)
}

/// The byte that stands at `i`, decoded, and where the next one stands.
pub open spec fn form_byte(encoded: Seq<u8>, i: int) -> Result<(u8, int), Refusal> {
    if encoded[i] == 43 {
        Ok((32, i + 1))
    } else if encoded[i] == 37 {
        if i + 2 >= encoded.len() {
            Err(bad_escape())
        } else {
            match (hex_value(encoded[i + 1]), hex_value(encoded[i + 2])) {
                (Some(high), Some(low)) => Ok(((high * 16 + low) as u8, i + 3)),
                _ => Err(bad_escape()),
            }
        }
    } else {
        Ok((encoded[i], i + 1))
    }
}

/// The bytes from `i` on, decoded, behind those already found. A plus sign stands for a
/// space, and a percent sign begins an escape.
pub open spec fn form_decoded(
    encoded: Seq<u8>,
    i: int,
    found: Seq<u8>,
    limit: Option<usize>,
) -> Result<Seq<u8>, Refusal>
    decreases encoded.len() - i,
{
    if i < 0 || i >= encoded.len() {
        Ok(found)
    } else {
        match form_byte(encoded, i) {
            Err(refusal) => Err(refusal),
            Ok((b, next)) => if limit matches Some(n) && found.len() == n {
                Err(refused(Status::PayloadTooLarge, "SQL query exceeds configured byte limit"@))
            } else if next <= i {
                Ok(found)
            } else {
                form_decoded(encoded, next, found.push(b), limit)
            },
        }
    }
}

/// Decodes a form component.
pub fn decode_form_component(encoded: &Vec<u8>, limit: Option<usize>) -> (r: Result<
    Vec<u8>,
    RequestFailure,
>)
    ensures
        bytes_judged(r) == form_decoded(encoded@, 0, Seq::empty(), limit),
{
    let mut decoded: Vec<u8> = Vec::new();
    let mut i: usize = 0;
    while i < encoded.len()
        invariant
            i <= encoded.len(),
            form_decoded(encoded@, 0, Seq::empty(), limit) == form_decoded(
                encoded@,
                i as int,
                decoded@,
                limit,
            ),
        decreases encoded.len() - i,
    {
        let mut next: usize = i + 1;
        let b: u8 = if encoded[i] == 43 {
            32
        } else if encoded[i] == 37 {
            if encoded.len() - i < 3 {
                return Err(bad_request("query parameter contains malformed percent encoding"));
            }
            match (decode_hex_digit(encoded[i + 1]), decode_hex_digit(encoded[i + 2])) {
                (Some(high), Some(low)) => {
                    next = i + 3;
                    high * 16 + low
                },
                _ => return Err(
                    bad_request("query parameter contains malformed percent encoding"),
                ),
            }
        } else {
            encoded[i]
        };
        if let Some(n) = limit {
            if decoded.len() == n {
                return Err(
                    failure(Status::PayloadTooLarge, "SQL query exceeds configured byte limit"),
                );
            }
        }
        decoded.push(b);
        i = next;
    }
    Ok(decoded)
}

/// The number that decimal digits from `i` on add to `found`.
pub open spec fn decimal_value(
    value: Seq<u8>,
    i: int,
    found: usize,
    malformed: Seq<char>,
    overflow: Seq<char>,
) -> Result<usize, Refusal>
    decreases value.len() - i,
{
    if i < 0 || i >= value.len() {
        Ok(found)
    } else if !(48 <= value[i] <= 57) {
        Err(bad(malformed))
    } else {
        let next = found * 10 + (value[i] - 48);
        if next > usize::MAX {
            Err(bad(overflow))
        } else {
            decimal_value(value, i + 1, next as usize, malformed, overflow)
        }
    }
}

/// Reads a decimal parameter.
pub fn parse_decimal_parameter(value: &Vec<u8>, malformed: &str, overflow: &str) -> (r: Result<
    usize,
    RequestFailure,
>)
    ensures
        judged(r) == decimal_value(value@, 0, 0, malformed@, overflow@),
{
    let mut found: usize = 0;
    let mut i: usize = 0;
    while i < value.len()
        invariant
            i <= value.len(),
            decimal_value(value@, 0, 0, malformed@, overflow@) == decimal_value(
                value@,
                i as int,
                found,
                malformed@,
                overflow@,
            ),
        decreases value.len() - i,
    {
        let b = value[i];
        if b < 48 || b > 57 {
            return Err(bad_request(malformed));
        }
        let next = match found.checked_mul(10) {
            Some(tens) => tens.checked_add((b - 48) as usize),
            None => None,
        };
        match next {
            Some(n) => found = n,
            None => return Err(bad_request(overflow)),
        }
        i = i + 1;
    }
    Ok(found)
}

/// A limit that a request may set for itself.
#[derive(Clone, Copy, Debug, PartialEq, Eq, Structural)]
pub enum WorkloadLimit {
    ResultBytes,
    ResultRows,
    ResultValues,
    RowsToRead,
    RowsToGroupBy,
    OrderingStateBytes,
    AggregateStateBytes,
    Threads,
}

impl WorkloadLimit {
    /// The name of the parameter.
    pub open spec fn text(self) -> Seq<char> {
        match self {
            WorkloadLimit::ResultBytes => "max_result_bytes"@,
            WorkloadLimit::ResultRows => "max_result_rows"@,
            WorkloadLimit::ResultValues => "max_result_values"@,
            WorkloadLimit::RowsToRead => "max_rows_to_read"@,
            WorkloadLimit::RowsToGroupBy => "max_rows_to_group_by"@,
            WorkloadLimit::OrderingStateBytes => "max_ordering_state_bytes"@,
            WorkloadLimit::AggregateStateBytes => "max_aggregate_state_bytes"@,
            WorkloadLimit::Threads => "max_threads"@,
        }
    }

    /// Returns the name of the parameter.
    pub fn name(self) -> (name: &'static str)
        ensures
            name@ == self.text(),
    {
        match self {
            WorkloadLimit::ResultBytes => "max_result_bytes",
            WorkloadLimit::ResultRows => "max_result_rows",
            WorkloadLimit::ResultValues => "max_result_values",
            WorkloadLimit::RowsToRead => "max_rows_to_read",
            WorkloadLimit::RowsToGroupBy => "max_rows_to_group_by",
            WorkloadLimit::OrderingStateBytes => "max_ordering_state_bytes",
            WorkloadLimit::AggregateStateBytes => "max_aggregate_state_bytes",
            WorkloadLimit::Threads => "max_threads",
        }
    }
}

/// The limit that a parameter name denotes.
pub open spec fn limit_named(name: Seq<u8>) -> Option<WorkloadLimit> {
    if name == utf8("max_result_rows"@) {
        Some(WorkloadLimit::ResultRows)
    } else if name == utf8("max_result_bytes"@) {
        Some(WorkloadLimit::ResultBytes)
    } else if name == utf8("max_result_values"@) {
        Some(WorkloadLimit::ResultValues)
    } else if name == utf8("max_rows_to_read"@) {
        Some(WorkloadLimit::RowsToRead)
    } else if name == utf8("max_rows_to_group_by"@) {
        Some(WorkloadLimit::RowsToGroupBy)
    } else if name == utf8("max_ordering_state_bytes"@) {
        Some(WorkloadLimit::OrderingStateBytes)
    } else if name == utf8("max_aggregate_state_bytes"@) {
        Some(WorkloadLimit::AggregateStateBytes)
    } else if name == utf8("max_threads"@) {
        Some(WorkloadLimit::Threads)
    } else {
        None
    }
}

fn find_limit(name: &Vec<u8>) -> (r: Option<WorkloadLimit>)
    ensures
        r == limit_named(name@),
{
    if bytes_are(name, "max_result_rows") {
        Some(WorkloadLimit::ResultRows)
    } else if bytes_are(name, "max_result_bytes") {
        Some(WorkloadLimit::ResultBytes)
    } else if bytes_are(name, "max_result_values") {
        Some(WorkloadLimit::ResultValues)
    } else if bytes_are(name, "max_rows_to_read") {
        Some(WorkloadLimit::RowsToRead)
    } else if bytes_are(name, "max_rows_to_group_by") {
        Some(WorkloadLimit::RowsToGroupBy)
    } else if bytes_are(name, "max_ordering_state_bytes") {
        Some(WorkloadLimit::OrderingStateBytes)
    } else if bytes_are(name, "max_aggregate_state_bytes") {
        Some(WorkloadLimit::AggregateStateBytes)
    } else if bytes_are(name, "max_threads") {
        Some(WorkloadLimit::Threads)
    } else {
        None
    }
}

/// The limits that a request sets for itself.
#[derive(Clone, Copy, Debug, PartialEq, Eq)]
pub struct ParameterizedWorkloadLimits {
    pub max_result_bytes: Option<usize>,
    pub max_result_rows: Option<usize>,
    pub max_result_values: Option<usize>,
    pub max_rows_to_read: Option<usize>,
    pub max_rows_to_group_by: Option<usize>,
    pub max_ordering_state_bytes: Option<usize>,
    pub max_aggregate_state_bytes: Option<usize>,
    pub max_threads: Option<usize>,
}

impl ParameterizedWorkloadLimits {
    /// No limits.
    pub open spec fn unset() -> ParameterizedWorkloadLimits {
        ParameterizedWorkloadLimits {
            max_result_bytes: None,
            max_result_rows: None,
            max_result_values: None,
            max_rows_to_read: None,
            max_rows_to_group_by: None,
            max_ordering_state_bytes: None,
            max_aggregate_state_bytes: None,
            max_threads: None,
        }
    }

    /// The value of a limit.
    pub open spec fn of(self, limit: WorkloadLimit) -> Option<usize> {
        match limit {
            WorkloadLimit::ResultBytes => self.max_result_bytes,
            WorkloadLimit::ResultRows => self.max_result_rows,
            WorkloadLimit::ResultValues => self.max_result_values,
            WorkloadLimit::RowsToRead => self.max_rows_to_read,
            WorkloadLimit::RowsToGroupBy => self.max_rows_to_group_by,
            WorkloadLimit::OrderingStateBytes => self.max_ordering_state_bytes,
            WorkloadLimit::AggregateStateBytes => self.max_aggregate_state_bytes,
            WorkloadLimit::Threads => self.max_threads,
        }
    }

    /// The limits with one of them set.
    pub open spec fn with(self, limit: WorkloadLimit, n: usize) -> ParameterizedWorkloadLimits {
        match limit {
            WorkloadLimit::ResultBytes => ParameterizedWorkloadLimits {
                max_result_bytes: Some(n),
                ..self
            },
            WorkloadLimit::ResultRows => ParameterizedWorkloadLimits {
                max_result_rows: Some(n),
                ..self
            },
            WorkloadLimit::ResultValues => ParameterizedWorkloadLimits {
                max_result_values: Some(n),
                ..self
            },
            WorkloadLimit::RowsToRead => ParameterizedWorkloadLimits {
                max_rows_to_read: Some(n),
                ..self
            },
            WorkloadLimit::RowsToGroupBy => ParameterizedWorkloadLimits {
                max_rows_to_group_by: Some(n),
                ..self
            },
            WorkloadLimit::OrderingStateBytes => ParameterizedWorkloadLimits {
                max_ordering_state_bytes: Some(n),
                ..self
            },
            WorkloadLimit::AggregateStateBytes => ParameterizedWorkloadLimits {
                max_aggregate_state_bytes: Some(n),
                ..self
            },
            WorkloadLimit::Threads => ParameterizedWorkloadLimits { max_threads: Some(n), ..self },
        }
    }

    /// Makes no limits.
    pub fn none() -> (r: ParameterizedWorkloadLimits)
        ensures
            r == ParameterizedWorkloadLimits::unset(),
    {
        ParameterizedWorkloadLimits {
            max_result_bytes: None,
            max_result_rows: None,
            max_result_values: None,
            max_rows_to_read: None,
            max_rows_to_group_by: None,
            max_ordering_state_bytes: None,
            max_aggregate_state_bytes: None,
            max_threads: None,
        }
    }

    fn get(&self, limit: WorkloadLimit) -> (r: Option<usize>)
        ensures
            r == self.of(limit),
    {
        match limit {
            WorkloadLimit::ResultBytes => self.max_result_bytes,
            WorkloadLimit::ResultRows => self.max_result_rows,
            WorkloadLimit::ResultValues => self.max_result_values,
            WorkloadLimit::RowsToRead => self.max_rows_to_read,
            WorkloadLimit::RowsToGroupBy => self.max_rows_to_group_by,
            WorkloadLimit::OrderingStateBytes => self.max_ordering_state_bytes,
            WorkloadLimit::AggregateStateBytes => self.max_aggregate_state_bytes,
            WorkloadLimit::Threads => self.max_threads,
        }
    }

    fn set(&mut self, limit: WorkloadLimit, n: usize)
        ensures
            *final(self) == old(self).with(limit, n),
    {
        match limit {
            WorkloadLimit::ResultBytes => self.max_result_bytes = Some(n),
            WorkloadLimit::ResultRows => self.max_result_rows = Some(n),
            WorkloadLimit::ResultValues => self.max_result_values = Some(n),
            WorkloadLimit::RowsToRead => self.max_rows_to_read = Some(n),
            WorkloadLimit::RowsToGroupBy => self.max_rows_to_group_by = Some(n),
            WorkloadLimit::OrderingStateBytes => self.max_ordering_state_bytes = Some(n),
            WorkloadLimit::AggregateStateBytes => self.max_aggregate_state_bytes = Some(n),
            WorkloadLimit::Threads => self.max_threads = Some(n),
        }
    }
}

/// The response format that a parameter value denotes.
pub open spec fn format_named(value: Seq<u8>) -> Option<QueryResponseFormat> {
    if value == utf8("JSON"@) {
        Some(QueryResponseFormat::Json)
    } else if value == utf8("CSV"@) {
        Some(QueryResponseFormat::Csv)
    } else if value == utf8("CSVWithNames"@) {
        Some(QueryResponseFormat::CsvWithNames)
    } else if value == utf8("TabSeparated"@) {
        Some(QueryResponseFormat::TabSeparated)
    } else if value == utf8("TabSeparatedWithNames"@) {
        Some(QueryResponseFormat::TabSeparatedWithNames)
    } else if value == utf8("JSONEachRow"@) {
        Some(QueryResponseFormat::JsonEachRow)
    } else if value == utf8("JSONCompactEachRow"@) {
        Some(QueryResponseFormat::JsonCompactEachRow)
    } else {
        None
    }
}

/// Finds the response format that a value denotes.
pub fn find_format(value: &Vec<u8>) -> (r: Option<QueryResponseFormat>)
    ensures
        r == format_named(value@),
{
    if bytes_are(value, "JSON") {
        Some(QueryResponseFormat::Json)
    } else if bytes_are(value, "CSV") {
        Some(QueryResponseFormat::Csv)
    } else if bytes_are(value, "CSVWithNames") {
        Some(QueryResponseFormat::CsvWithNames)
    } else if bytes_are(value, "TabSeparated") {
        Some(QueryResponseFormat::TabSeparated)
    } else if bytes_are(value, "TabSeparatedWithNames") {
        Some(QueryResponseFormat::TabSeparatedWithNames)
    } else if bytes_are(value, "JSONEachRow") {
        Some(QueryResponseFormat::JsonEachRow)
    } else if bytes_are(value, "JSONCompactEachRow") {
        Some(QueryResponseFormat::JsonCompactEachRow)
    } else {
        None
    }
}

/// The parameters of a query.
#[derive(Debug)]
pub struct DecodedQuery {
    pub sql: Vec<u8>,
    pub response_format: Option<QueryResponseFormat>,
    pub workload_limits: ParameterizedWorkloadLimits,
    pub readonly: Option<bool>,
}

/// Parameters read so far.
pub struct Parameters {
    pub query: Option<Seq<u8>>,
    pub database: bool,
    pub format: Option<QueryResponseFormat>,
    pub limits: ParameterizedWorkloadLimits,
    pub readonly: Option<bool>,
}

/// Whether a decimal parameter is set.
pub open spec fn readonly_value(value: Seq<u8>) -> Result<bool, Refusal> {
    match decimal_value(
        value,
        0,
        0,
        "readonly parameter must be a decimal integer"@,
        "readonly parameter must be 0 or 1"@,
    ) {
        Err(refusal) => Err(refusal),
        Ok(0) => Ok(false),
        Ok(1) => Ok(true),
        Ok(_) => Err(bad("readonly parameter must be 0 or 1"@)),
    }
}

/// Reads the `readonly` parameter.
pub fn parse_decimal_readonly(value: &Vec<u8>) -> (r: Result<bool, RequestFailure>)
    ensures
        judged(r) == readonly_value(value@),
{
    let n = parse_decimal_parameter(
        value,
        "readonly parameter must be a decimal integer",
        "readonly parameter must be 0 or 1",
    )?;
    if n == 0 {
        Ok(false)
    } else if n == 1 {
        Ok(true)
    } else {
        Err(bad_request("readonly parameter must be 0 or 1"))
    }
}

/// The refusal of a parameter that is given twice.
pub open spec fn duplicate_parameter(name: Seq<char>) -> Refusal {
    bad("duplicate "@ + name + " parameter"@)
}

fn duplicate(name: &str) -> (r: RequestFailure)
    ensures
        r@ == duplicate_parameter(name@),
{
    bad_request(concat3("duplicate ", name, " parameter").as_str())
}

/// Parameters after one that sets a limit.
pub open spec fn with_limit(p: Parameters, limit: WorkloadLimit, value: Seq<u8>) -> Result<
    Parameters,
    Refusal,
> {
    if p.limits.of(limit) is Some {
        Err(duplicate_parameter(limit.text()))
    } else {
        match form_decoded(value, 0, Seq::empty(), None) {
            Err(refusal) => Err(refusal),
            Ok(decoded) => match decimal_value(
                decoded,
                0,
                0,
                limit.text() + " parameter must be a decimal integer"@,
                limit.text() + " parameter is out of range"@,
            ) {
                Err(refusal) => Err(refusal),
                Ok(n) => Ok(Parameters { limits: p.limits.with(limit, n), ..p }),
            },
        }
    }
}

/// Parameters after one more.
pub open spec fn with_parameter(
    p: Parameters,
    name: Seq<u8>,
    value: Seq<u8>,
    method: ParameterizedQueryMethod,
    max_sql_bytes: usize,
) -> Result<Parameters, Refusal> {
    if name == utf8("query"@) {
        if p.query is Some {
            Err(duplicate_parameter("query"@))
        } else {
            match form_decoded(value, 0, Seq::empty(), Some(max_sql_bytes)) {
                Err(refusal) => Err(refusal),
                Ok(sql) => Ok(Parameters { query: Some(sql), ..p }),
            }
        }
    } else if name == utf8("database"@) {
        if p.database {
            Err(duplicate_parameter("database"@))
        } else {
            match form_decoded(value, 0, Seq::empty(), None) {
                Err(refusal) => Err(refusal),
                Ok(decoded) => if decoded != utf8("default"@) {
                    Err(bad("database query parameter must be default"@))
                } else {
                    Ok(Parameters { database: true, ..p })
                },
            }
        }
    } else if name == utf8("default_format"@) {
        if p.format is Some {
            Err(duplicate_parameter("default_format"@))
        } else {
            match form_decoded(value, 0, Seq::empty(), None) {
                Err(refusal) => Err(refusal),
                Ok(decoded) => match format_named(decoded) {
                    None => Err(bad("unsupported default_format parameter"@)),
                    Some(format) => Ok(Parameters { format: Some(format), ..p }),
                },
            }
        }
    } else {
        match limit_named(name) {
            Some(limit) => with_limit(p, limit, value),
            None => if name == utf8("readonly"@) {
                if p.readonly is Some {
                    Err(duplicate_parameter("readonly"@))
                } else {
                    match form_decoded(value, 0, Seq::empty(), None) {
                        Err(refusal) => Err(refusal),
                        Ok(decoded) => match readonly_value(decoded) {
                            Err(refusal) => Err(refusal),
                            Ok(readonly) => Ok(Parameters { readonly: Some(readonly), ..p }),
                        },
                    }
                }
            } else {
                Err(bad(method.text() + " query target contains an unknown parameter"@))
            },
        }
    }
}

/// The refusal of a parameter without a name or a value.
pub open spec fn empty_parameter(method: ParameterizedQueryMethod) -> Refusal {
    bad(method.text() + " query parameters must have nonempty names and values"@)
}

/// Parameters after the encoded ones from `i` on.
pub open spec fn with_parameters(
    p: Parameters,
    list: Seq<Seq<u8>>,
    i: int,
    method: ParameterizedQueryMethod,
    max_sql_bytes: usize,
) -> Result<Parameters, Refusal>
    decreases list.len() - i,
{
    if i < 0 || i >= list.len() {
        Ok(p)
    } else {
        match byte_from(list[i], 61, 0) {
            None => Err(empty_parameter(method)),
            Some(equals) => {
                let name = list[i].take(equals);
                let value = list[i].skip(equals + 1);
                if name.len() == 0 || value.len() == 0 {
                    Err(empty_parameter(method))
                } else {
                    match form_decoded(name, 0, Seq::empty(), None) {
                        Err(refusal) => Err(refusal),
                        Ok(decoded) => match with_parameter(
                            p,
                            decoded,
                            value,
                            method,
                            max_sql_bytes,
                        ) {
                            Err(refusal) => Err(refusal),
                            Ok(next) => with_parameters(next, list, i + 1, method, max_sql_bytes),
                        },
                    }
                }
            },
        }
    }
}

/// No parameters.
pub open spec fn no_parameters() -> Parameters {
    Parameters {
        query: None,
        database: false,
        format: None,
        limits: ParameterizedWorkloadLimits::unset(),
        readonly: None,
    }
}

/// The parameters of a query target, which must hold a query.
pub open spec fn query_parameters(
    encoded: Seq<u8>,
    method: ParameterizedQueryMethod,
    max_sql_bytes: usize,
) -> Result<Parameters, Refusal> {
    match with_parameters(no_parameters(), parts(encoded, 38), 0, method, max_sql_bytes) {
        Err(refusal) => Err(refusal),
        Ok(p) => if p.query is None {
            Err(
                bad(method.text() + " query target must contain exactly one query parameter"@),
            )
        } else {
            Ok(p)
        },
    }
}

/// Parameters in the course of reading.
struct Reading {
    query: Option<Vec<u8>>,
    database: bool,
    format: Option<QueryResponseFormat>,
    limits: ParameterizedWorkloadLimits,
    readonly: Option<bool>,
}

impl Reading {
    spec fn view(&self) -> Parameters {
        Parameters {
            query: match self.query {
                Some(query) => Some(query@),
                None => None,
            },
            database: self.database,
            format: self.format,
            limits: self.limits,
            readonly: self.readonly,
        }
    }

    fn read_limit(&mut self, limit: WorkloadLimit, value: &Vec<u8>) -> (r: Result<(), RequestFailure>)
        ensures
            match r {
                Ok(()) => with_limit(old(self)@, limit, value@) == Ok::<Parameters, Refusal>(
                    final(self)@,
                ),
                Err(e) => with_limit(old(self)@, limit, value@) == Err::<Parameters, Refusal>(e@),
            },
    {
        if self.limits.get(limit).is_some() {
            return Err(duplicate(limit.name()));
        }
        let decoded = decode_form_component(value, None)?;
        let malformed = concat2(limit.name(), " parameter must be a decimal integer");
        let overflow = concat2(limit.name(), " parameter is out of range");
        let n = parse_decimal_parameter(&decoded, malformed.as_str(), overflow.as_str())?;
        self.limits.set(limit, n);
        Ok(())
    }

    fn read(
        &mut self,
        name: &Vec<u8>,
        value: &Vec<u8>,
        method: ParameterizedQueryMethod,
        max_sql_bytes: usize,
    ) -> (r: Result<(), RequestFailure>)
        ensures
            match r {
                Ok(()) => with_parameter(old(self)@, name@, value@, method, max_sql_bytes) == Ok::<
                    Parameters,
                    Refusal,
                >(final(self)@),
                Err(e) => with_parameter(old(self)@, name@, value@, method, max_sql_bytes) == Err::<
                    Parameters,
                    Refusal,
                >(e@),
            },
    {
        if bytes_are(name, "query") {
            if self.query.is_some() {
                return Err(duplicate("query"));
            }
            self.query = Some(decode_form_component(value, Some(max_sql_bytes))?);
            return Ok(());
        }
        if bytes_are(name, "database") {
            if self.database {
                return Err(duplicate("database"));
            }
            let decoded = decode_form_component(value, None)?;
            if !bytes_are(&decoded, "default") {
                return Err(bad_request("database query parameter must be default"));
            }
            self.database = true;
            return Ok(());
        }
        if bytes_are(name, "default_format") {
            if self.format.is_some() {
                return Err(duplicate("default_format"));
            }
            let decoded = decode_form_component(value, None)?;
            match find_format(&decoded) {
                None => return Err(bad_request("unsupported default_format parameter")),
                Some(format) => self.format = Some(format),
            }
            return Ok(());
        }
        if let Some(limit) = find_limit(name) {
            return self.read_limit(limit, value);
        }
        if bytes_are(name, "readonly") {
            if self.readonly.is_some() {
                return Err(duplicate("readonly"));
            }
            let decoded = decode_form_component(value, None)?;
            self.readonly = Some(parse_decimal_readonly(&decoded)?);
            return Ok(());
        }
        Err(
            bad_request(
                concat2(method.name(), " query target contains an unknown parameter").as_str(),
            ),
        )
    }
}

fn empty_failure(method: ParameterizedQueryMethod) -> (r: RequestFailure)
    ensures
        r@ == empty_parameter(method),
{
    bad_request(
        concat2(method.name(), " query parameters must have nonempty names and values").as_str(),
    )
}

/// Whether decoded parameters are those read.
pub open spec fn decodes(query: DecodedQuery, p: Parameters) -> bool {
    &&& p.query == Some(query.sql@)
    &&& p.format == query.response_format
    &&& p.limits == query.workload_limits
    &&& p.readonly == query.readonly
}

/// Decodes the parameters of a query target.
#[verifier::loop_isolation(false)]
pub fn decode_query_parameters(
    encoded: &Vec<u8>,
    method: ParameterizedQueryMethod,
    max_sql_bytes: usize,
) -> (r: Result<DecodedQuery, RequestFailure>)
    ensures
        match r {
            Ok(query) => {
                &&& query_parameters(encoded@, method, max_sql_bytes) is Ok
                &&& decodes(query, query_parameters(encoded@, method, max_sql_bytes)->Ok_0)
            },
            Err(e) => query_parameters(encoded@, method, max_sql_bytes) == Err::<
                Parameters,
                Refusal,
            >(e@),
        },
{
    let list = split(encoded, 38);
    let ghost lists = byte_lists(list@);
    let mut reading = Reading {
        query: None,
        database: false,
        format: None,
        limits: ParameterizedWorkloadLimits::none(),
        readonly: None,
    };
    let mut i: usize = 0;
    while i < list.len()
        invariant
            i <= list.len(),
            with_parameters(no_parameters(), lists, 0, method, max_sql_bytes) == with_parameters(
                reading@,
                lists,
                i as int,
                method,
                max_sql_bytes,
            ),
        decreases list.len() - i,
    {
        let part = &list[i];
        assert(lists[i as int] == part@);
        let equals = match find_byte(part, 61) {
            None => return Err(empty_failure(method)),
            Some(equals) => equals,
        };
        let name = copy_range(part, 0, equals);
        let value = copy_range(part, equals + 1, part.len());
        assert(name@ =~= part@.take(equals as int));
        assert(value@ =~= part@.skip(equals + 1));
        if name.len() == 0 || value.len() == 0 {
            return Err(empty_failure(method));
        }
        let decoded = decode_form_component(&name, None)?;
        reading.read(&decoded, &value, method, max_sql_bytes)?;
        i = i + 1;
    }
    match reading.query {
        None => Err(
            bad_request(
                concat2(
                    method.name(),
                    " query target must contain exactly one query parameter",
                ).as_str(),
            ),
        ),
        Some(sql) => Ok(
            DecodedQuery {
                sql,
                response_format: reading.format,
                workload_limits: reading.limits,
                readonly: reading.readonly,
            },
        ),
    }
}

} // verus!
