use vstd::prelude::*;
use vstd::string::*;

use crate::models::{ClientData, ClientId, ErrorResponse, TransactionRequest, TransactionResponse, TransactionType};

verus! {

/// A description is accepted when it holds one to ten characters.
pub open spec fn valid_description(description: Seq<char>) -> bool {
    1 <= description.len() <= 10
}

/// Whether a value is representable as a balance.
pub open spec fn fits_i64(x: int) -> bool {
    i64::MIN <= x <= i64::MAX
}

/// The amount a transaction of this type and value adds to a balance.
pub open spec fn signed_amount(kind: TransactionType, value: u64) -> int {
    match kind {
        TransactionType::Debit => -(value as int),
        TransactionType::Credit => value as int,
    }
}

/// The balance after applying a transaction, if it may be applied: a debit
/// must leave the balance at or above minus the limit, and the result must be
/// representable.
pub open spec fn balance_after(kind: TransactionType, value: u64, balance: i64, limit: u64) -> Option<i64> {
    let nb = balance + signed_amount(kind, value);
    if !fits_i64(nb) {
        None
    } else if kind is Debit && nb < -(limit as int) {
        None
    } else {
        Some(nb as i64)
    }
}

/// Why a request is malformed, if it is: its description must hold one to
/// ten characters, and its value must be positive.
pub open spec fn request_check(request: TransactionRequest) -> Option<ErrorResponse> {
    if !valid_description(request.description@) {
        Some(ErrorResponse::InvalidDescription)
    } else if request.value == 0 {
        Some(ErrorResponse::InvalidValue)
    } else {
        None
    }
}

/// The balance the account would have after the transaction.
pub open spec fn new_balance(request: TransactionRequest, client: ClientData) -> int {
    client.balance + signed_amount(request.transaction_type, request.value)
}

/// Whether the transaction is a debit that would take the balance below
/// minus the limit.
pub open spec fn exceeds_limit(request: TransactionRequest, client: ClientData) -> bool {
    request.transaction_type is Debit && new_balance(request, client) < -(client.limit as int)
}

/// Why a transaction is refused once the account has been looked up, if it
/// is: a malformed request first, then a missing account, then the limit.
pub open spec fn refusal(
    client_id: ClientId,
    request: TransactionRequest,
    client: Option<ClientData>,
) -> Option<ErrorResponse> {
    match request_check(request) {
        Some(e) => Some(e),
        None => match client {
            None => Some(ErrorResponse::ClientNotFound(client_id)),
            Some(c) => if exceeds_limit(request, c) {
                Some(ErrorResponse::NotEnoughLimit)
            } else {
                None
            },
        },
    }
}

/// Whether a description has an accepted length, counted in characters.
pub fn description_is_valid(description: &String) -> (r: bool)
    ensures
        r == valid_description(description@),
{
    let n = description.as_str().unicode_len();
    1 <= n && n <= 10
}

/// The balance after the transaction, or `None` where it may not be applied.
pub fn get_new_balance(request: &TransactionRequest, client: &ClientData) -> (r: Option<i64>)
    ensures
        r == balance_after(request.transaction_type, request.value, client.balance, client.limit),
{
    let balance = client.balance as i128;
    let value = request.value as i128;
    let new_balance: i128 = match request.transaction_type {
        TransactionType::Debit => balance - value,
        TransactionType::Credit => balance + value,
    };
    if new_balance < i64::MIN as i128 || new_balance > i64::MAX as i128 {
        return None;
    }
    match request.transaction_type {
        TransactionType::Debit => {
            if new_balance < -(client.limit as i128) {
                return None;
            }
        },
        TransactionType::Credit => {},
    }
    Some(new_balance as i64)
}

/// Checks the shape of a request, before any account is consulted.
pub fn validate_request(request: &TransactionRequest) -> (r: Result<(), ErrorResponse>)
    ensures
        match request_check(*request) {
            Some(e) => r == Err::<(), ErrorResponse>(e),
            None => r == Ok::<(), ErrorResponse>(()),
        },
{
    if !description_is_valid(&request.description) {
        Err(ErrorResponse::InvalidDescription)
    } else if request.value == 0 {
        Err(ErrorResponse::InvalidValue)
    } else {
        Ok(())
    }
}

/// Whether the transaction is a debit that would take the balance below
/// minus the limit.
fn over_limit(request: &TransactionRequest, client: &ClientData) -> (r: bool)
    ensures
        r == exceeds_limit(*request, *client),
{
    match request.transaction_type {
        TransactionType::Debit => (client.balance as i128) - (request.value as i128) < -(
        client.limit as i128),
        TransactionType::Credit => false,
    }
}

/// Decides a transaction for `client_id`, given what the account store holds
/// for it: the request's shape is checked first, then that the account
/// exists, then the limit. On success the response carries the balance to
/// store; a balance that cannot be represented is a storage failure.
pub fn decide_transaction(
    client_id: ClientId,
    request: &TransactionRequest,
    client: Option<ClientData>,
) -> (r: Result<TransactionResponse, ErrorResponse>)
    ensures
        match refusal(client_id, *request, client) {
            Some(e) => r == Err::<TransactionResponse, ErrorResponse>(e),
            None => {
                let c = client->Some_0;
                let nb = new_balance(*request, c);
                &&& fits_i64(nb) ==> r == Ok::<TransactionResponse, ErrorResponse>(
                    TransactionResponse { limit: c.limit, balance: nb as i64 },
                )
                &&& !fits_i64(nb) ==> r is Err && r->Err_0 is Transient
            },
        },
{
    match validate_request(request) {
        Err(e) => {
            return Err(e);
        },
        Ok(()) => {},
    }
    match client {
        None => Err(ErrorResponse::ClientNotFound(client_id)),
        Some(c) => {
            if over_limit(request, &c) {
                Err(ErrorResponse::NotEnoughLimit)
            } else {
                match get_new_balance(request, &c) {
                    Some(nb) => Ok(TransactionResponse { limit: c.limit, balance: nb }),
                    None => Err(ErrorResponse::Transient("balance out of range".to_owned())),
                }
            }
        },
    }
}

/// The limit is inclusive: a debit that brings the balance exactly to minus
/// the limit is applied, and a debit of one unit more is refused.
pub proof fn lemma_limit_inclusive(balance: i64, limit: u64, value: u64)
    requires
        balance - value == -(limit as int),
        -(limit as int) >= i64::MIN,
        value < u64::MAX,
    ensures
        balance_after(TransactionType::Debit, value, balance, limit) == Some((-(limit as int)) as i64),
        balance_after(TransactionType::Debit, (value + 1) as u64, balance, limit) is None,
{
}

/// A description of no character or of more than ten is refused, whatever
/// the account store holds for the client: it is decided before the account
/// is consulted.
pub proof fn lemma_description_checked_first(
    client_id: ClientId,
    request: TransactionRequest,
    client: Option<ClientData>,
)
    requires
        !valid_description(request.description@),
    ensures
        refusal(client_id, request, client) == Some(ErrorResponse::InvalidDescription),
{
}

/// Two debits that each fit within an account's limit, but not both
/// together: decided one after the other, each against the balance the
/// other left, the first is applied and the second is refused for want of
/// limit, leaving the balance the first one set.
pub proof fn lemma_competing_debits(
    client_id: ClientId,
    client: ClientData,
    first: TransactionRequest,
    second: TransactionRequest,
)
    requires
        client.within_limit(),
        -(client.limit as int) >= i64::MIN,
        first.transaction_type is Debit,
        second.transaction_type is Debit,
        valid_description(first.description@),
        valid_description(second.description@),
        client.balance - first.value >= -(client.limit as int),
        client.balance - second.value >= -(client.limit as int),
        client.balance - first.value - second.value < -(client.limit as int),
    ensures
        ({
            let nb = client.balance - first.value;
            let after = ClientData { id: client.id, limit: client.limit, balance: nb as i64 };
            &&& refusal(client_id, first, Some(client)) is None
            &&& new_balance(first, client) == nb
            &&& fits_i64(nb)
            &&& refusal(client_id, second, Some(after)) == Some(ErrorResponse::NotEnoughLimit)
        }),
{
}

} // verus!
