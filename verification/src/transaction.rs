//! Transaction records consumed by the engine.

use vstd::prelude::*;
use vstd::string::StrSliceExecFns;
use crate::amount::Amount;

verus! {

/// A financial transaction in the payment engine.
#[derive(Debug, Clone, Copy)]
pub struct Transaction {
    /// The associated transaction ID.
    ///
    /// For deposits and withdrawals, this is the unique ID of the transaction.
    /// For disputes, resolves, and chargebacks, this refers to the original
    /// transaction ID being disputed, resolved, or charged back.
    pub id: u32,
    /// The client ID associated with the transaction.
    pub client: u16,
    /// The payload of the transaction, which varies based on the transaction kind.
    pub payload: TxPayload,
}

/// The different kinds of transaction payloads.
#[derive(Debug, Clone, Copy)]
pub enum TxPayload {
    /// A deposit of the given amount.
    Deposit {
        /// The amount deposited.
        amount: Amount,
    },
    /// A withdrawal of the given amount.
    Withdrawal {
        /// The amount withdrawn.
        amount: Amount,
    },
    /// A dispute of the transaction named by the enclosing `id` field.
    Dispute,
    /// A resolution of the dispute on the transaction named by the enclosing
    /// `id` field.
    Resolve,
    /// A chargeback of the disputed transaction named by the enclosing `id`
    /// field.
    Chargeback,
}

impl Transaction {
    /// A transaction is well formed when the amount it carries, if any, is
    /// not negative.
    pub open spec fn wf(self) -> bool {
        match self.payload {
            TxPayload::Deposit { amount } => amount@ >= 0,
            TxPayload::Withdrawal { amount } => amount@ >= 0,
            _ => true,
        }
    }

    /// The amount carried by the transaction if it is a deposit.
    pub open spec fn spec_deposited_amount(self) -> Option<Amount> {
        match self.payload {
            TxPayload::Deposit { amount } => Some(amount),
            _ => None,
        }
    }

    /// The amount this deposit carries, or `None` for any other kind.
    pub fn deposited_amount(&self) -> (r: Option<Amount>)
        ensures
            r == self.spec_deposited_amount(),
    {
        match self.payload {
            TxPayload::Deposit { amount } => Some(amount),
            _ => None,
        }
    }
}

/// Why a record cannot be mapped to a transaction. Such a record is fatal:
/// the whole run aborts.
#[derive(Debug, Clone, Copy, PartialEq, Eq, Structural)]
pub enum RecordError {
    /// The kind tag names no transaction kind.
    UnknownKind,
    /// A deposit or withdrawal record carries no amount.
    MissingAmount,
}

/// Whether `kind` is one of the five transaction kind tags.
pub open spec fn known_kind(kind: Seq<char>) -> bool {
    ||| kind == "deposit"@
    ||| kind == "withdrawal"@
    ||| kind == "dispute"@
    ||| kind == "resolve"@
    ||| kind == "chargeback"@
}

/// Character-for-character string equality.
fn str_eq(a: &str, b: &str) -> (r: bool)
    ensures
        r == (a@ == b@),
{
    let na = a.unicode_len();
    let nb = b.unicode_len();
    if na != nb {
        return false;
    }
    let mut i: usize = 0;
    while i < na
        invariant
            na == a@.len(),
            na == b@.len(),
            i <= na,
            forall|j: int| 0 <= j < i ==> a@[j] == b@[j],
        decreases na - i,
    {
        if a.get_char(i) != b.get_char(i) {
            return false;
        }
        i += 1;
    }
    proof {
        assert(a@ =~= b@);
    }
    true
}

impl Transaction {
    /// Map one already-split record into a transaction: a kind tag, the
    /// client id, the transaction id, and the amount if the record had one.
    ///
    /// Fails exactly on an unrecognized kind tag, or on a deposit or
    /// withdrawal record without an amount.
    pub fn from_record(kind: &str, client: u16, id: u32, amount: Option<Amount>) -> (r: Result<
        Transaction,
        RecordError,
    >)
        ensures
            match r {
                Ok(t) => {
                    &&& t.id == id
                    &&& t.client == client
                    &&& match t.payload {
                        TxPayload::Deposit { amount: a } => kind@ == "deposit"@ && amount == Some(a),
                        TxPayload::Withdrawal { amount: a } => kind@ == "withdrawal"@ && amount
                            == Some(a),
                        TxPayload::Dispute => kind@ == "dispute"@,
                        TxPayload::Resolve => kind@ == "resolve"@,
                        TxPayload::Chargeback => kind@ == "chargeback"@,
                    }
                },
                Err(RecordError::UnknownKind) => !known_kind(kind@),
                Err(RecordError::MissingAmount) => (kind@ == "deposit"@ || kind@ == "withdrawal"@)
                    && amount is None,
            },
    {
        if str_eq(kind, "deposit") {
            match amount {
                Some(a) => Ok(Transaction { id, client, payload: TxPayload::Deposit { amount: a } }),
                None => Err(RecordError::MissingAmount),
            }
        } else if str_eq(kind, "withdrawal") {
            match amount {
                Some(a) => Ok(
                    Transaction { id, client, payload: TxPayload::Withdrawal { amount: a } },
                ),
                None => Err(RecordError::MissingAmount),
            }
        } else if str_eq(kind, "dispute") {
            Ok(Transaction { id, client, payload: TxPayload::Dispute })
        } else if str_eq(kind, "resolve") {
            Ok(Transaction { id, client, payload: TxPayload::Resolve })
        } else if str_eq(kind, "chargeback") {
            Ok(Transaction { id, client, payload: TxPayload::Chargeback })
        } else {
            Err(RecordError::UnknownKind)
        }
    }
}

} // verus!
