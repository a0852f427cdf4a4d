use vstd::prelude::*;

verus! {

/// Identifier of a client account, assigned when the account is provisioned.
pub type ClientId = u32;

/// A point in time, in microseconds since the Unix epoch (UTC).
pub type Timestamp = i64;

/// Stored code of a debit: the byte `d`.
pub const DEBIT_CODE: u8 = 0x64;

/// Stored code of a credit: the byte `c`.
pub const CREDIT_CODE: u8 = 0x63;

/// Direction of a transaction.
#[derive(Debug, Clone, Copy, PartialEq, Eq, Structural)]
pub enum TransactionType {
    Debit,
    Credit,
}

/// Why a stored transaction-type code could not be read.
#[derive(Debug, Clone, Copy, PartialEq, Eq, Structural)]
pub enum CodeError {
    /// The code holds no byte at all.
    Empty,
    /// The code starts with a byte that names no transaction type.
    Unknown(u8),
}

/// The stored code of a transaction type: `d` for a debit, `c` for a credit.
pub open spec fn type_code(t: TransactionType) -> u8 {
    match t {
        TransactionType::Debit => DEBIT_CODE,
        TransactionType::Credit => CREDIT_CODE,
    }
}

/// What a stored code reads as: its first byte decides.
pub open spec fn parse_type_code(code: Seq<u8>) -> Result<TransactionType, CodeError> {
    if code.len() == 0 {
        Err(CodeError::Empty)
    } else if code[0] == DEBIT_CODE {
        Ok(TransactionType::Debit)
    } else if code[0] == CREDIT_CODE {
        Ok(TransactionType::Credit)
    } else {
        Err(CodeError::Unknown(code[0]))
    }
}

impl TransactionType {
    /// The one-byte code under which this type is stored.
    pub fn code(&self) -> (r: u8)
        ensures
            r == type_code(*self),
    {
        match self {
            TransactionType::Debit => DEBIT_CODE,
            TransactionType::Credit => CREDIT_CODE,
        }
    }

    /// Reads a stored code; only its first byte is looked at.
    pub fn from_code(code: &[u8]) -> (r: Result<TransactionType, CodeError>)
        ensures
            r == parse_type_code(code@),
    {
        if code.len() == 0 {
            Err(CodeError::Empty)
        } else if code[0] == DEBIT_CODE {
            Ok(TransactionType::Debit)
        } else if code[0] == CREDIT_CODE {
            Ok(TransactionType::Credit)
        } else {
            Err(CodeError::Unknown(code[0]))
        }
    }
}

/// A client account: its debit limit and current balance.
#[derive(Debug, Clone, Copy, PartialEq, Eq, Structural)]
pub struct ClientData {
    pub id: ClientId,
    pub limit: u64,
    pub balance: i64,
}

impl ClientData {
    /// The account invariant: the balance never goes below minus the limit.
    pub open spec fn within_limit(self) -> bool {
        self.balance >= -(self.limit as int)
    }
}

/// A transaction submitted for a client.
#[derive(Debug, Clone)]
pub struct TransactionRequest {
    pub value: u64,
    pub transaction_type: TransactionType,
    pub description: String,
}

/// The account's state after a transaction was applied.
#[derive(Debug, Clone, Copy, PartialEq, Eq, Structural)]
pub struct TransactionResponse {
    pub limit: u64,
    pub balance: i64,
}

/// One committed transaction, as listed in an extract.
#[derive(Debug, PartialEq, Eq)]
pub struct TransactionData {
    pub value: i64,
    pub transaction_type: TransactionType,
    pub description: String,
    pub date: Timestamp,
}

impl TransactionData {
    /// The amount this transaction adds to the balance: minus the value for a debit.
    pub open spec fn signed_value(self) -> int {
        match self.transaction_type {
            TransactionType::Debit => -(self.value as int),
            TransactionType::Credit => self.value as int,
        }
    }

    /// A copy of this record.
    pub fn duplicate(&self) -> (r: TransactionData)
        ensures
            r == *self,
    {
        TransactionData {
            value: self.value,
            transaction_type: self.transaction_type,
            description: self.description.clone(),
            date: self.date,
        }
    }
}

/// The balance part of an extract.
#[derive(Debug, Clone, Copy, PartialEq, Eq, Structural)]
pub struct ExtractData {
    pub total: i64,
    pub date: Timestamp,
    pub limit: u64,
}

/// A client's balance and most recent transactions, newest first.
#[derive(Debug, PartialEq, Eq)]
pub struct ExtractResponse {
    pub balance: ExtractData,
    pub transactions: Vec<TransactionData>,
}

/// Why a ledger operation failed.
#[derive(Debug, PartialEq, Eq)]
pub enum ErrorResponse {
    /// The storage failed; the message says how.
    Transient(String),
    /// No account has this id.
    ClientNotFound(ClientId),
    /// The debit would take the balance below minus the limit.
    NotEnoughLimit,
    /// The description is empty or longer than ten characters.
    InvalidDescription,
    /// The value is zero: a transaction moves a positive amount.
    InvalidValue,
}

/// The HTTP status under which an error is reported: 404 for an unknown
/// client, 422 for a debit beyond the limit, 400 for a malformed request,
/// 500 for a storage failure.
pub open spec fn status_of(e: ErrorResponse) -> u16 {
    match e {
        ErrorResponse::Transient(_) => 500,
        ErrorResponse::ClientNotFound(_) => 404,
        ErrorResponse::NotEnoughLimit => 422,
        ErrorResponse::InvalidDescription => 400,
        ErrorResponse::InvalidValue => 400,
    }
}

impl ErrorResponse {
    /// The HTTP status under which this error is reported, one for each
    /// category: not found, unprocessable (the limit), invalid input, or
    /// server error.
    pub fn status_code(&self) -> (r: u16)
        ensures
            r == status_of(*self),
    {
        match self {
            ErrorResponse::Transient(_) => 500,
            ErrorResponse::ClientNotFound(_) => 404,
            ErrorResponse::NotEnoughLimit => 422,
            ErrorResponse::InvalidDescription => 400,
            ErrorResponse::InvalidValue => 400,
        }
    }
}

} // verus!
