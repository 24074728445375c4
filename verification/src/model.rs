//! The bank as a mathematical object: balances as a map from names to
//! integers, the history as a sequence, and the rules by which one operation
//! is accepted or refused.

use crate::error::{already_exists_message, not_found_message, BankErrorView};
use crate::operation::OperationView;
use vstd::prelude::*;

verus! {

/// Why a change of `change` to the balance of `name`, asked for with the
/// magnitude `amount`, is refused; `None` where it is accepted. The checks come
/// in this order: the account is there, the amount is positive, the balance
/// stays at or above zero.
pub open spec fn change_refusal(
    balances: Map<Seq<char>, int>,
    name: Seq<char>,
    amount: int,
    change: int,
) -> Option<BankErrorView> {
    if !balances.contains_key(name) {
        Some(BankErrorView::AccountNotFound(not_found_message(name)))
    } else if amount <= 0 {
        Some(BankErrorView::IncorrectAmount(amount))
    } else if balances[name] + change < 0 {
        Some(BankErrorView::InsufficientFunds(change))
    } else {
        None
    }
}

/// Why `balances` refuses `operation`; `None` where it is accepted. A
/// transfer is refused first for having one account at both ends, then for
/// what stands against taking the amount from the source, then for what stands
/// against giving it to the destination.
pub open spec fn refusal(balances: Map<Seq<char>, int>, operation: OperationView) -> Option<
    BankErrorView,
> {
    match operation {
        OperationView::CreateAccount(account) => if balances.contains_key(account) {
            Some(BankErrorView::AccountAlreadyExists(already_exists_message(account)))
        } else {
            None
        },
        OperationView::IncreaseAccount(account, amount) => change_refusal(
            balances,
            account,
            amount,
            amount,
        ),
        OperationView::DecreaseAccount(account, amount) => change_refusal(
            balances,
            account,
            amount,
            -amount,
        ),
        OperationView::Transfer(from, to, amount) => if from == to {
            Some(BankErrorView::TransferToMyself)
        } else if change_refusal(balances, from, amount, -amount) is Some {
            change_refusal(balances, from, amount, -amount)
        } else {
            change_refusal(balances, to, amount, amount)
        },
    }
}

/// The balances after `operation` has taken effect on `balances`.
pub open spec fn effect(balances: Map<Seq<char>, int>, operation: OperationView) -> Map<
    Seq<char>,
    int,
> {
    match operation {
        OperationView::CreateAccount(account) => balances.insert(account, 0),
        OperationView::IncreaseAccount(account, amount) => balances.insert(
            account,
            balances[account] + amount,
        ),
        OperationView::DecreaseAccount(account, amount) => balances.insert(
            account,
            balances[account] - amount,
        ),
        OperationView::Transfer(from, to, amount) => balances.insert(
            from,
            balances[from] - amount,
        ).insert(to, balances[to] + amount),
    }
}

/// The balances that the operations of `history` leave, each taking effect in
/// turn on a bank that starts without accounts.
pub open spec fn balances_after(history: Seq<OperationView>) -> Map<Seq<char>, int>
    decreases history.len(),
{
    if history.len() == 0 {
        Map::empty()
    } else {
        effect(balances_after(history.drop_last()), history.last())
    }
}

/// Whether each operation of `history` was acceptable to the bank that the
/// operations before it had made.
pub open spec fn accepted(history: Seq<OperationView>) -> bool
    decreases history.len(),
{
    history.len() == 0 || (accepted(history.drop_last()) && refusal(
        balances_after(history.drop_last()),
        history.last(),
    ) is None)
}

/// The places in `history`, in rising order, of the operations that mention
/// `name`.
pub open spec fn positions(history: Seq<OperationView>, name: Seq<char>) -> Seq<int>
    decreases history.len(),
{
    if history.len() == 0 {
        Seq::empty()
    } else if history.last().mentions(name) {
        positions(history.drop_last(), name).push(history.len() - 1)
    } else {
        positions(history.drop_last(), name)
    }
}

/// The state of a bank: the balance of each account, and every operation that
/// was accepted, oldest first.
pub struct BankView {
    pub balances: Map<Seq<char>, int>,
    pub history: Seq<OperationView>,
}

impl BankView {
    /// The bank without accounts and without history.
    pub open spec fn empty() -> BankView {
        BankView { balances: Map::empty(), history: Seq::empty() }
    }

    /// The bank after `operation` was asked of it: where it is accepted, the
    /// balances change and the operation joins the history; where it is
    /// refused, nothing changes.
    pub open spec fn apply(self, operation: OperationView) -> BankView {
        if refusal(self.balances, operation) is None {
            BankView {
                balances: effect(self.balances, operation),
                history: self.history.push(operation),
            }
        } else {
            self
        }
    }

    /// The bank after each of `operations` was asked of it in turn. An
    /// operation that is refused is passed over and the rest still run.
    pub open spec fn replay(self, operations: Seq<OperationView>) -> BankView
        decreases operations.len(),
    {
        if operations.len() == 0 {
            self
        } else {
            self.replay(operations.drop_last()).apply(operations.last())
        }
    }

    /// Whether the bank is one that accepted operations alone can have made:
    /// its history holds accepted operations only, and its balances are those
    /// that the history leaves.
    pub open spec fn consistent(self) -> bool {
        accepted(self.history) && self.balances == balances_after(self.history)
    }
}

/// What one more operation at the end of a history does to the balances that
/// the history leaves, to its being accepted, and to the places at which it
/// mentions an account.
pub proof fn lemma_history_push(
    history: Seq<OperationView>,
    operation: OperationView,
    name: Seq<char>,
)
    ensures
        balances_after(history.push(operation)) == effect(balances_after(history), operation),
        accepted(history.push(operation)) <==> accepted(history) && refusal(
            balances_after(history),
            operation,
        ) is None,
        positions(history.push(operation), name) == if operation.mentions(name) {
            positions(history, name).push(history.len() as int)
        } else {
            positions(history, name)
        },
{
    assert(history.push(operation).drop_last() == history);
}

/// An account that a history of accepted operations mentions anywhere is an
/// account of the bank that the history leaves: accounts are opened before
/// they are used, and are never closed.
pub proof fn lemma_mentioned_account_exists(
    history: Seq<OperationView>,
    i: int,
    name: Seq<char>,
)
    requires
        accepted(history),
        0 <= i < history.len(),
        history[i].mentions(name),
    ensures
        balances_after(history).contains_key(name),
    decreases history.len(),
{
    let before = history.drop_last();
    if i < history.len() - 1 {
        lemma_mentioned_account_exists(before, i, name);
    }
}

/// Each place that `positions` gives lies within the history and holds an
/// operation that mentions the account, and the places rise.
pub proof fn lemma_positions_in_history(history: Seq<OperationView>, name: Seq<char>)
    ensures
        forall|k: int|
            0 <= k < positions(history, name).len() ==> 0 <= #[trigger] positions(
                history,
                name,
            )[k] < history.len() && history[positions(history, name)[k]].mentions(name),
        forall|j: int, k: int|
            0 <= j < k < positions(history, name).len() ==> positions(history, name)[j]
                < positions(history, name)[k],
    decreases history.len(),
{
    if history.len() > 0 {
        let before = history.drop_last();
        lemma_positions_in_history(before, name);
        let found = positions(history, name);
        assert forall|k: int| 0 <= k < found.len() implies 0 <= #[trigger] found[k]
            < history.len() && history[found[k]].mentions(name) by {
            if k < positions(before, name).len() {
                assert(found[k] == positions(before, name)[k]);
                assert(history[found[k]] == before[found[k]]);
            }
        }
        assert forall|j: int, k: int| 0 <= j < k < found.len() implies found[j] < found[k] by {
            assert(found[j] == positions(before, name)[j]);
            if k < positions(before, name).len() {
                assert(found[k] == positions(before, name)[k]);
            }
        }
    }
}

/// The operations at the places that `positions` gives are the operations of
/// the history that mention the account, in the order of the history.
pub proof fn lemma_positions_select_mentions(history: Seq<OperationView>, name: Seq<char>)
    ensures
        positions(history, name).map_values(|i: int| history[i]) == history.filter(
            |operation: OperationView| operation.mentions(name),
        ),
    decreases history.len(),
{
    reveal(Seq::filter);
    let mentions = |operation: OperationView| operation.mentions(name);
    if history.len() > 0 {
        let before = history.drop_last();
        lemma_positions_select_mentions(before, name);
        lemma_positions_in_history(before, name);
        assert(positions(before, name).map_values(|i: int| history[i]) =~= positions(
            before,
            name,
        ).map_values(|i: int| before[i]));
        assert(positions(history, name).map_values(|i: int| history[i]) =~= history.filter(
            mentions,
        ));
    } else {
        assert(positions(history, name).map_values(|i: int| history[i]) =~= history.filter(
            mentions,
        ));
    }
}

/// Replaying one operation more is replaying the ones before it and then
/// asking for that one.
pub proof fn lemma_replay_step(bank: BankView, operations: Seq<OperationView>, i: int)
    requires
        0 <= i < operations.len(),
    ensures
        bank.replay(operations.take(i + 1)) == bank.replay(operations.take(i)).apply(
            operations[i],
        ),
{
    assert(operations.take(i + 1).drop_last() == operations.take(i));
}

} // verus!
