//! The reasons for which the bank refuses a request.

use vstd::prelude::*;

verus! {

/// Why a request was refused. A refused request changes nothing.
#[derive(Debug)]
pub enum BankError {
    /// An account of that name is there already. Holds a message that names it.
    AccountAlreadyExists(String),
    /// No account of that name is there. Holds a message that names it.
    AccountNotFound(String),
    /// The amount is zero or negative. Holds the amount.
    IncorrectAmount(i32),
    /// The balance would fall below zero. Holds the signed change that was
    /// refused: the negated amount, where a balance was to go down.
    InsufficientFunds(i32),
    /// Both ends of a transfer are the same account.
    TransferToMyself,
}

/// What a [`BankError`] stands for: messages as sequences of characters,
/// amounts as mathematical integers.
pub enum BankErrorView {
    AccountAlreadyExists(Seq<char>),
    AccountNotFound(Seq<char>),
    IncorrectAmount(int),
    InsufficientFunds(int),
    TransferToMyself,
}

impl View for BankError {
    type V = BankErrorView;

    open spec fn view(&self) -> BankErrorView {
        match *self {
            BankError::AccountAlreadyExists(message) => BankErrorView::AccountAlreadyExists(
                message@,
            ),
            BankError::AccountNotFound(message) => BankErrorView::AccountNotFound(message@),
            BankError::IncorrectAmount(amount) => BankErrorView::IncorrectAmount(amount as int),
            BankError::InsufficientFunds(change) => BankErrorView::InsufficientFunds(
                change as int,
            ),
            BankError::TransferToMyself => BankErrorView::TransferToMyself,
        }
    }
}

/// The message of the error for an account that is there already.
pub open spec fn already_exists_message(name: Seq<char>) -> Seq<char> {
    "Account "@ + name + " already exists"@
}

/// The message of the error for an account that is not there.
pub open spec fn not_found_message(name: Seq<char>) -> Seq<char> {
    "Account "@ + name + " does not exist"@
}

impl BankError {
    /// The error for asking to open `account` a second time.
    pub fn already_exists(account: &str) -> (error: BankError)
        ensures
            error@ == BankErrorView::AccountAlreadyExists(already_exists_message(account@)),
    {
        let mut message = String::from_str("Account ");
        message.append(account);
        message.append(" already exists");
        BankError::AccountAlreadyExists(message)
    }

    /// The error for asking something of `account` where no such account is.
    pub fn not_found(account: &str) -> (error: BankError)
        ensures
            error@ == BankErrorView::AccountNotFound(not_found_message(account@)),
    {
        let mut message = String::from_str("Account ");
        message.append(account);
        message.append(" does not exist");
        BankError::AccountNotFound(message)
    }
}

} // verus!
