//! The entries of the history.

use vstd::prelude::*;

verus! {

/// One recorded change to the bank. Amounts are the magnitudes that were
/// asked for, also where the balance went down.
#[derive(Debug, PartialEq)]
pub enum Operation {
    /// The account was opened with a balance of zero.
    CreateAccount(String),
    /// The account's balance went up by the amount.
    IncreaseAccount(String, i32),
    /// The account's balance went down by the amount.
    DecreaseAccount(String, i32),
    /// The amount moved from the first account to the second.
    Transfer(String, String, i32),
}

/// What an [`Operation`] stands for: names as sequences of characters,
/// amounts as mathematical integers.
pub enum OperationView {
    CreateAccount(Seq<char>),
    IncreaseAccount(Seq<char>, int),
    DecreaseAccount(Seq<char>, int),
    Transfer(Seq<char>, Seq<char>, int),
}

impl OperationView {
    /// Whether the operation touches the account `name`: as its one subject,
    /// or as either end of a transfer.
    pub open spec fn mentions(self, name: Seq<char>) -> bool {
        match self {
            OperationView::CreateAccount(account) => account == name,
            OperationView::IncreaseAccount(account, _) => account == name,
            OperationView::DecreaseAccount(account, _) => account == name,
            OperationView::Transfer(from, to, _) => from == name || to == name,
        }
    }
}

impl View for Operation {
    type V = OperationView;

    open spec fn view(&self) -> OperationView {
        match *self {
            Operation::CreateAccount(account) => OperationView::CreateAccount(account@),
            Operation::IncreaseAccount(account, amount) => OperationView::IncreaseAccount(
                account@,
                amount as int,
            ),
            Operation::DecreaseAccount(account, amount) => OperationView::DecreaseAccount(
                account@,
                amount as int,
            ),
            Operation::Transfer(from, to, amount) => OperationView::Transfer(
                from@,
                to@,
                amount as int,
            ),
        }
    }
}

impl Clone for Operation {
    fn clone(&self) -> (copy: Self)
        ensures
            copy == *self,
    {
        match self {
            Operation::CreateAccount(account) => Operation::CreateAccount(account.clone()),
            Operation::IncreaseAccount(account, amount) => Operation::IncreaseAccount(
                account.clone(),
                *amount,
            ),
            Operation::DecreaseAccount(account, amount) => Operation::DecreaseAccount(
                account.clone(),
                *amount,
            ),
            Operation::Transfer(from, to, amount) => Operation::Transfer(
                from.clone(),
                to.clone(),
                *amount,
            ),
        }
    }
}

/// The views of a sequence of operations, in the same order.
pub open spec fn views_of(operations: Seq<Operation>) -> Seq<OperationView> {
    Seq::new(operations.len(), |i: int| operations[i]@)
}

} // verus!
