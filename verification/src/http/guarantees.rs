//! What holds of every exchange.

use vstd::prelude::*;
use crate::bytes::parts;
use crate::http::exchange::{configured_exchange, exchange_begins, replied, turn_of, Awaited, DatabaseReply, Turn};
use crate::http::headers::{granted, header_line, is_private, is_terminated, no_fields, with_lines, ClickHousePrincipalRole, Fields, HttpAccess, Required};
use crate::http::reading::{header_block, request_in, HttpQueryLimits, Wanted, settled};
use crate::http::request::{line_asks, Asked, Refusal};
use crate::http::response::Status;

verus! {

/// The request line and the header fields of a header block, where both are well formed.
pub open spec fn header_content(
    header: Seq<u8>,
    max_count: usize,
    required: Required,
) -> Option<(Asked, Fields)> {
    let lines = parts(header.take(header.len() - 4), 10);
    if !is_terminated(header) {
        None
    } else {
        match header_line(lines[0], lines.len() > 1) {
            Err(_) => None,
            Ok(line) => match line_asks(line, !(required is Nothing)) {
                Err(_) => None,
                Ok(asked) => match with_lines(no_fields(), lines, 1, 0, max_count, required) {
                    Err(_) => None,
                    Ok(fields) => Some((asked, fields)),
                },
            },
        }
    }
}

/// A request without the credentials that are required is refused as unauthorized, whatever
/// follows its header.
pub proof fn missing_credentials_are_refused(
    input: Seq<u8>,
    limits: HttpQueryLimits,
    required: Required,
    access: HttpAccess,
)
    requires
        header_block(input, limits.max_header_bytes) is Ok,
        header_content(
            header_block(input, limits.max_header_bytes)->Ok_0,
            limits.max_header_count,
            required,
        ) is Some,
        granted(
            required,
            header_content(
                header_block(input, limits.max_header_bytes)->Ok_0,
                limits.max_header_count,
                required,
            )->Some_0.1,
            access,
        ) is Err,
    ensures
        request_in(input, limits, required, access) matches Err(refusal) && refusal.status
            == Status::Unauthorized,
        exchange_begins(input, limits, required, access) is Answered,
{
}

/// What the database is asked, it is asked on behalf of one who presented the credentials
/// that are required.
pub proof fn database_is_asked_for_the_authorized(
    input: Seq<u8>,
    limits: HttpQueryLimits,
    required: Required,
    access: HttpAccess,
)
    requires
        exchange_begins(input, limits, required, access) is Asked,
    ensures
        header_block(input, limits.max_header_bytes) matches Ok(header) && (header_content(
            header,
            limits.max_header_count,
            required,
        ) matches Some((_, fields)) && granted(required, fields, access) is Ok),
{
}

/// Whether someone may write.
pub open spec fn may_write(required: Required, access: HttpAccess) -> bool {
    match required {
        Required::Users(list) => exists|k: int|
            0 <= k < list.len() && (#[trigger] list[k]).role == ClickHousePrincipalRole::ReadWrite,
        _ => access == HttpAccess::ReadWrite,
    }
}

/// Where nobody may write, no request becomes an insertion, whatever its text holds.
pub proof fn read_only_access_never_inserts(
    input: Seq<u8>,
    limits: HttpQueryLimits,
    required: Required,
    access: HttpAccess,
)
    requires
        !may_write(required, access),
    ensures
        request_in(input, limits, required, access) matches Ok(wanted) ==> forall|inserts: bool|
            !(#[trigger] settled(wanted, inserts) is Insert) && !(settled(wanted, inserts) is TableInsert),
{
}

/// A request that authenticates nobody never becomes an insertion, whatever its text holds.
pub proof fn unauthenticated_requests_never_insert(input: Seq<u8>, limits: HttpQueryLimits)
    ensures
        request_in(input, limits, Required::Nothing, HttpAccess::ReadOnly) matches Ok(wanted)
            ==> forall|inserts: bool|
            !(#[trigger] settled(wanted, inserts) is Insert) && !(settled(wanted, inserts) is TableInsert),
{
    read_only_access_never_inserts(input, limits, Required::Nothing, HttpAccess::ReadOnly);
}

/// An insertion is begun only where its success can be told.
pub proof fn insertions_can_be_acknowledged(
    input: Seq<u8>,
    limits: HttpQueryLimits,
    required: Required,
    access: HttpAccess,
)
    ensures
        exchange_begins(input, limits, required, access) matches Turn::Asked(wanted) ==> {
            &&& (wanted is Insert || wanted is TableInsert) ==> replied(
                Awaited::Insertion,
                DatabaseReply::Done,
                is_private(required),
                limits.max_response_bytes,
            ) is Ok
            &&& forall|inserts: bool|
                #![trigger settled(wanted, inserts)]
                turn_of(
                    Ok(settled(wanted, inserts)),
                    is_private(required),
                    limits.max_response_bytes,
                ) matches Turn::Asked(begun) && begun is Insert ==> replied(
                    Awaited::Insertion,
                    DatabaseReply::Done,
                    is_private(required),
                    limits.max_response_bytes,
                ) is Ok
        },
{
}

/// No response that begins an exchange is larger than the limit.
pub proof fn refusals_fit(request: Result<Wanted, Refusal>, private: bool, max_bytes: usize)
    ensures
        turn_of(request, private, max_bytes) matches Turn::Answered(Ok(response)) ==> response.len()
            <= max_bytes,
{
}

/// No response to a reply of the database is larger than the limit.
pub proof fn replies_fit(awaited: Awaited, reply: DatabaseReply, private: bool, max_bytes: usize)
    ensures
        replied(awaited, reply, private, max_bytes) matches Ok(response) ==> response.len()
            <= max_bytes,
{
}

/// Where a configuration is faulty, nothing that is sent reaches the database.
pub proof fn faulty_configurations_ask_nothing(
    fault: Option<Seq<char>>,
    input: Seq<u8>,
    limits: HttpQueryLimits,
    required: Required,
    access: HttpAccess,
)
    ensures
        fault is Some ==> configured_exchange(fault, input, limits, required, access) is Answered,
{
}

} // verus!
