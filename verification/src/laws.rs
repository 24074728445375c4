//! What holds of every bank that accepted operations have made, and of every
//! request of a given shape.

use crate::error::{already_exists_message, BankErrorView};
use crate::model::{accepted, balances_after, lemma_history_push, refusal, BankView};
use crate::operation::OperationView;
use vstd::prelude::*;

verus! {

/// No balance that a history of accepted operations leaves is below zero.
pub proof fn lemma_accepted_balances_not_negative(history: Seq<OperationView>, name: Seq<char>)
    requires
        accepted(history),
        balances_after(history).contains_key(name),
    ensures
        balances_after(history)[name] >= 0,
    decreases history.len(),
{
    if history.len() > 0 {
        let before = history.drop_last();
        if balances_after(before).contains_key(name) {
            lemma_accepted_balances_not_negative(before, name);
        }
        match history.last() {
            OperationView::CreateAccount(account) => {},
            OperationView::IncreaseAccount(account, amount) => {
                lemma_accepted_balances_not_negative(before, account);
            },
            OperationView::DecreaseAccount(account, amount) => {},
            OperationView::Transfer(from, to, amount) => {
                lemma_accepted_balances_not_negative(before, to);
            },
        }
    }
}

/// In a consistent bank no account has a balance below zero.
pub proof fn lemma_balances_never_negative(bank: BankView, name: Seq<char>)
    requires
        bank.consistent(),
        bank.balances.contains_key(name),
    ensures
        bank.balances[name] >= 0,
{
    lemma_accepted_balances_not_negative(bank.history, name);
}

/// A consistent bank stays consistent whatever operation is asked of it,
/// accepted or refused.
pub proof fn lemma_apply_keeps_consistent(bank: BankView, operation: OperationView)
    requires
        bank.consistent(),
    ensures
        bank.apply(operation).consistent(),
{
    lemma_history_push(bank.history, operation, Seq::empty());
}

/// A consistent bank stays consistent through the replay of any operations.
pub proof fn lemma_replay_keeps_consistent(bank: BankView, operations: Seq<OperationView>)
    requires
        bank.consistent(),
    ensures
        bank.replay(operations).consistent(),
    decreases operations.len(),
{
    if operations.len() > 0 {
        lemma_replay_keeps_consistent(bank, operations.drop_last());
        lemma_apply_keeps_consistent(bank.replay(operations.drop_last()), operations.last());
    }
}

/// Replaying a history of accepted operations on the empty bank refuses none
/// of them: it gives that same history back, with the balances that it leaves.
pub proof fn lemma_replay_of_accepted(history: Seq<OperationView>)
    requires
        accepted(history),
    ensures
        BankView::empty().replay(history) == (BankView {
            balances: balances_after(history),
            history,
        }),
    decreases history.len(),
{
    if history.len() > 0 {
        lemma_replay_of_accepted(history.drop_last());
        assert(history.drop_last().push(history.last()) == history);
    } else {
        assert(history == Seq::<OperationView>::empty());
    }
}

/// The round trip: replaying the history of a consistent bank on the empty
/// bank gives the bank back, balance for balance and entry for entry.
pub proof fn lemma_replay_round_trip(bank: BankView)
    requires
        bank.consistent(),
    ensures
        BankView::empty().replay(bank.history) == bank,
        BankView::empty().replay(bank.history).balances == bank.balances,
        BankView::empty().replay(bank.history).history.len() == bank.history.len(),
{
    lemma_replay_of_accepted(bank.history);
}

/// Opening an account and then asking to open it again: the second request is
/// refused because the account is there, and changes neither a balance nor the
/// history. This holds whether or not the first request was accepted.
pub proof fn lemma_create_account_twice(bank: BankView, name: Seq<char>)
    ensures
        ({
            let once = bank.apply(OperationView::CreateAccount(name));
            &&& refusal(once.balances, OperationView::CreateAccount(name)) == Some(
                BankErrorView::AccountAlreadyExists(already_exists_message(name)),
            )
            &&& once.apply(OperationView::CreateAccount(name)) == once
        }),
{
}

/// Asking to raise or to lower the balance of an account by zero is refused
/// for the amount, and adds nothing to the history.
pub proof fn lemma_zero_amount_refused(bank: BankView, name: Seq<char>)
    requires
        bank.balances.contains_key(name),
    ensures
        refusal(bank.balances, OperationView::IncreaseAccount(name, 0)) == Some(
            BankErrorView::IncorrectAmount(0),
        ),
        refusal(bank.balances, OperationView::DecreaseAccount(name, 0)) == Some(
            BankErrorView::IncorrectAmount(0),
        ),
        bank.apply(OperationView::IncreaseAccount(name, 0)) == bank,
        bank.apply(OperationView::DecreaseAccount(name, 0)) == bank,
{
}

/// Asking to lower a balance by more than it holds is refused for want of
/// funds, and changes neither a balance nor the history.
pub proof fn lemma_overdraft_refused(bank: BankView, name: Seq<char>, amount: int)
    requires
        bank.consistent(),
        bank.balances.contains_key(name),
        amount > bank.balances[name],
    ensures
        refusal(bank.balances, OperationView::DecreaseAccount(name, amount)) == Some(
            BankErrorView::InsufficientFunds(-amount),
        ),
        bank.apply(OperationView::DecreaseAccount(name, amount)) == bank,
{
    lemma_balances_never_negative(bank, name);
}

/// A transfer from an account to itself is refused as such, whatever the
/// amount, whatever the balance, and whether or not the account is there.
pub proof fn lemma_transfer_to_myself_refused(bank: BankView, name: Seq<char>, amount: int)
    ensures
        refusal(bank.balances, OperationView::Transfer(name, name, amount)) == Some(
            BankErrorView::TransferToMyself,
        ),
        bank.apply(OperationView::Transfer(name, name, amount)) == bank,
{
}

} // verus!
