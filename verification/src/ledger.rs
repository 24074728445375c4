//! The bank: balances, history and index, kept in step by every request.

use crate::account_index::AccountIndex;
use crate::error::{not_found_message, BankError, BankErrorView};
use crate::laws::{lemma_apply_keeps_consistent, lemma_balances_never_negative};
use crate::model::{
    change_refusal, effect, lemma_history_push, lemma_mentioned_account_exists,
    lemma_positions_in_history, lemma_positions_select_mentions, lemma_replay_step, positions,
    refusal, BankView,
};
use crate::operation::{views_of, Operation, OperationView};
use vstd::hash_map::StringHashMap;
use vstd::prelude::*;

verus! {

/// A bank in memory. Every accepted request changes the balances, adds one
/// operation to the history and records the place of that operation under
/// each account that it mentions; a refused request changes nothing.
///
/// Balances are held wider than amounts, so that no history that fits in
/// memory can carry a balance out of range.
pub struct Bank {
    balances: StringHashMap<i128>,
    account_operations_index: AccountIndex,
    history: Vec<Operation>,
}

impl View for Bank {
    type V = BankView;

    closed spec fn view(&self) -> BankView {
        BankView {
            balances: self.balances@.map_values(|balance: i128| balance as int),
            history: views_of(self.history@),
        }
    }
}

/// The places of an index entry as integers.
pub open spec fn places(ids: Seq<usize>) -> Seq<int> {
    ids.map_values(|id: usize| id as int)
}

/// Whether the index lists, for each account that it knows, exactly the
/// places at which the history mentions the account.
pub open spec fn index_matches(
    index: Map<Seq<char>, Seq<usize>>,
    history: Seq<OperationView>,
) -> bool {
    forall|name: Seq<char>| #[trigger]
        index.contains_key(name) ==> places(index[name]) == positions(history, name)
}

/// Whether no balance is above what `count` operations of the largest amount
/// can have brought in.
spec fn balances_bounded(balances: Map<Seq<char>, i128>, count: nat) -> bool {
    forall|name: Seq<char>| #[trigger]
        balances.contains_key(name) ==> balances[name] <= count * i32::MAX
}

/// The index after `id` was recorded for `name`.
spec fn recorded(index: Map<Seq<char>, Seq<usize>>, name: Seq<char>, id: usize) -> Map<
    Seq<char>,
    Seq<usize>,
> {
    index.insert(
        name,
        if index.contains_key(name) {
            index[name].push(id)
        } else {
            seq![id]
        },
    )
}

/// The index after `id` was recorded for each account that `operation`
/// mentions.
spec fn index_after(index: Map<Seq<char>, Seq<usize>>, operation: OperationView, id: usize) -> Map<
    Seq<char>,
    Seq<usize>,
> {
    match operation {
        OperationView::CreateAccount(account) => recorded(index, account, id),
        OperationView::IncreaseAccount(account, _) => recorded(index, account, id),
        OperationView::DecreaseAccount(account, _) => recorded(index, account, id),
        OperationView::Transfer(from, to, _) => recorded(recorded(index, from, id), to, id),
    }
}

/// An index that matches a history still matches it after one more
/// operation, once the new place is recorded for each account that the
/// operation mentions.
proof fn lemma_index_follows(
    index: Map<Seq<char>, Seq<usize>>,
    history: Seq<OperationView>,
    operation: OperationView,
)
    requires
        index_matches(index, history),
        history.len() <= usize::MAX,
        forall|name: Seq<char>|
            operation.mentions(name) && !index.contains_key(name) ==> positions(
                history,
                name,
            ).len() == 0,
        operation matches OperationView::Transfer(from, to, _) ==> from != to,
    ensures
        index_matches(
            index_after(index, operation, history.len() as usize),
            history.push(operation),
        ),
{
    let id = history.len() as usize;
    let after = index_after(index, operation, id);
    assert forall|name: Seq<char>| #[trigger] after.contains_key(name) implies places(
        after[name],
    ) == positions(history.push(operation), name) by {
        lemma_history_push(history, operation, name);
        if operation.mentions(name) {
            if index.contains_key(name) {
                assert(after[name] == index[name].push(id));
                assert(places(index[name].push(id)) =~= places(index[name]).push(id as int));
            } else {
                assert(after[name] == seq![id]);
                assert(places(seq![id]) =~= positions(history, name).push(id as int));
            }
        } else {
            assert(index.contains_key(name));
            assert(after[name] == index[name]);
        }
    }
}

/// A bound that holds for some number of operations holds for any larger
/// number, with room for one more amount for each operation more.
proof fn lemma_bound_grows(count: nat, larger: nat)
    requires
        count < larger,
    ensures
        0 <= larger * i32::MAX,
        count * i32::MAX + i32::MAX <= larger * i32::MAX,
{
    assert(count * i32::MAX + i32::MAX <= larger * i32::MAX) by (nonlinear_arith)
        requires
            count + 1 <= larger,
    ;
    assert(0 <= larger * i32::MAX) by (nonlinear_arith);
}

/// No number of operations that a history can hold brings a balance near the
/// limit of its type.
proof fn lemma_bound_in_range(count: nat)
    requires
        count <= usize::MAX,
    ensures
        count * i32::MAX + i32::MAX < i128::MAX,
{
    assert(count * i32::MAX <= 0xffff_ffff_ffff_ffff * i32::MAX) by (nonlinear_arith)
        requires
            count <= 0xffff_ffff_ffff_ffff,
    ;
}

impl Bank {
    /// What every bank satisfies: it is consistent, the index knows exactly
    /// the accounts that are there and lists for each the places at which the
    /// history mentions it, and no balance is larger than the history can
    /// account for.
    pub closed spec fn wf(&self) -> bool {
        &&& self@.consistent()
        &&& self.account_operations_index.wf()
        &&& self.account_operations_index@.dom() == self.balances@.dom()
        &&& index_matches(self.account_operations_index@, self@.history)
        &&& balances_bounded(self.balances@, self.history@.len())
    }

    /// A well-formed bank is consistent.
    pub proof fn lemma_wf_consistent(&self)
        requires
            self.wf(),
        ensures
            self@.consistent(),
    {
    }

    /// Once an accepted operation has changed the balances, joined the
    /// history and had its place recorded, the bank is well formed again and
    /// is what the model says.
    proof fn lemma_accepted_keeps_wf(before: Bank, after: Bank, operation: Operation)
        requires
            before.wf(),
            refusal(before@.balances, operation@) is None,
            after@.balances == effect(before@.balances, operation@),
            after.history@ == before.history@.push(operation),
            after.account_operations_index.wf(),
            after.account_operations_index@ == index_after(
                before.account_operations_index@,
                operation@,
                before.history.len(),
            ),
        ensures
            after.wf(),
            after@ == before@.apply(operation@),
    {
        let history = before@.history;
        assert(history.len() == before.history.len());
        assert(after@.history =~= history.push(operation@));
        lemma_apply_keeps_consistent(before@, operation@);
        assert forall|name: Seq<char>|
            operation@.mentions(name) && !before.account_operations_index@.contains_key(
                name,
            ) implies positions(history, name).len() == 0 by {
            assert(!before.balances@.contains_key(name));
            if positions(history, name).len() > 0 {
                lemma_positions_in_history(history, name);
                lemma_mentioned_account_exists(history, positions(history, name)[0], name);
            }
        }
        lemma_index_follows(before.account_operations_index@, history, operation@);
        assert(after.account_operations_index@.dom() =~= after.balances@.dom()) by {
            assert(after@.balances.dom() =~= after.balances@.dom());
            assert(before@.balances.dom() =~= before.balances@.dom());
        }
        lemma_bound_grows(before.history@.len(), after.history@.len());
        assert forall|name: Seq<char>| #[trigger]
            after.balances@.contains_key(name) implies after.balances@[name]
            <= after.history@.len() * i32::MAX by {
            assert(after@.balances.contains_key(name));
            assert(after@.balances[name] == after.balances@[name]);
            if before.balances@.contains_key(name) {
                assert(before@.balances[name] == before.balances@[name]);
            }
        }
    }

    /// A bank without accounts and without history.
    pub fn new() -> (bank: Bank)
        ensures
            bank.wf(),
            bank@ == BankView::empty(),
    {
        let bank = Bank {
            balances: StringHashMap::new(),
            account_operations_index: AccountIndex::new(),
            history: Vec::new(),
        };
        assert(bank@.balances =~= BankView::empty().balances);
        assert(bank@.history =~= BankView::empty().history);
        bank
    }

    /// Puts `operation` at the end of the history and returns its place.
    fn append_history(&mut self, operation: Operation) -> (id: usize)
        ensures
            id == old(self).history@.len(),
            final(self).history@ == old(self).history@.push(operation),
            final(self).balances == old(self).balances,
            final(self).account_operations_index == old(self).account_operations_index,
    {
        self.history.push(operation);
        self.history.len() - 1
    }

    /// Records the place `id` in the history under `account`.
    fn append_account_index(&mut self, account: String, id: usize)
        requires
            old(self).account_operations_index.wf(),
        ensures
            final(self).account_operations_index.wf(),
            final(self).account_operations_index@ == recorded(
                old(self).account_operations_index@,
                account@,
                id,
            ),
            final(self).balances == old(self).balances,
            final(self).history == old(self).history,
    {
        self.account_operations_index.record(account, id);
    }

    /// Opens `account` with a balance of zero, unless an account of that name
    /// is there. Returns the place of the operation in the history.
    pub fn create_account(&mut self, account: String) -> (result: Result<usize, BankError>)
        requires
            old(self).wf(),
        ensures
            final(self).wf(),
            final(self)@ == old(self)@.apply(OperationView::CreateAccount(account@)),
            match result {
                Ok(id) => refusal(old(self)@.balances, OperationView::CreateAccount(account@))
                    is None && id == old(self)@.history.len(),
                Err(error) => refusal(
                    old(self)@.balances,
                    OperationView::CreateAccount(account@),
                ) == Some(error@),
            },
    {
        if self.balances.contains_key(account.as_str()) {
            Err(BankError::already_exists(account.as_str()))
        } else {
            let operation = Operation::CreateAccount(account.clone());
            let ghost recorded_operation = operation;
            self.balances.insert(account.clone(), 0);
            let id = self.append_history(operation);
            self.append_account_index(account, id);
            proof {
                assert(self@.balances =~= effect(old(self)@.balances, recorded_operation@));
                Self::lemma_accepted_keeps_wf(*old(self), *self, recorded_operation);
            }
            Ok(id)
        }
    }

    /// Whether the balance of `account` can change by `amount`, downwards
    /// where `outgoing` is set and upwards where it is not. Returns the balance
    /// that the change would leave, or the reason for which it is refused.
    /// Changes nothing.
    fn check_balance_change(&self, account: &String, amount: i32, outgoing: bool) -> (result:
        Result<i128, BankError>)
        requires
            self.wf(),
        ensures
            match result {
                Ok(balance) => {
                    &&& change_refusal(
                        self@.balances,
                        account@,
                        amount as int,
                        if outgoing {
                            -amount
                        } else {
                            amount as int
                        },
                    ) is None
                    &&& balance == self@.balances[account@] + if outgoing {
                        -amount
                    } else {
                        amount as int
                    }
                },
                Err(error) => change_refusal(
                    self@.balances,
                    account@,
                    amount as int,
                    if outgoing {
                        -amount
                    } else {
                        amount as int
                    },
                ) == Some(error@),
            },
    {
        match self.balances.get(account.as_str()) {
            None => Err(BankError::not_found(account.as_str())),
            Some(balance) => {
                if amount <= 0 {
                    Err(BankError::IncorrectAmount(amount))
                } else {
                    proof {
                        lemma_balances_never_negative(self@, account@);
                        lemma_bound_in_range(self.history.len() as nat);
                    }
                    let change: i32 = if outgoing {
                        -amount
                    } else {
                        amount
                    };
                    let changed: i128 = *balance + change as i128;
                    if changed < 0 {
                        Err(BankError::InsufficientFunds(change))
                    } else {
                        Ok(changed)
                    }
                }
            },
        }
    }

    /// Changes the balance of `account` by `amount`, downwards where
    /// `outgoing` is set and upwards where it is not, or refuses and changes
    /// nothing. History and index are left as they are.
    fn update_balance_account(&mut self, account: &String, amount: i32, outgoing: bool) -> (result:
        Result<(), BankError>)
        requires
            old(self).wf(),
        ensures
            final(self).history == old(self).history,
            final(self).account_operations_index == old(self).account_operations_index,
            match result {
                Ok(()) => {
                    &&& change_refusal(
                        old(self)@.balances,
                        account@,
                        amount as int,
                        if outgoing {
                            -amount
                        } else {
                            amount as int
                        },
                    ) is None
                    &&& final(self)@.balances == old(self)@.balances.insert(
                        account@,
                        old(self)@.balances[account@] + if outgoing {
                            -amount
                        } else {
                            amount as int
                        },
                    )
                },
                Err(error) => {
                    &&& change_refusal(
                        old(self)@.balances,
                        account@,
                        amount as int,
                        if outgoing {
                            -amount
                        } else {
                            amount as int
                        },
                    ) == Some(error@)
                    &&& final(self).balances == old(self).balances
                },
            },
    {
        match self.check_balance_change(account, amount, outgoing) {
            Err(error) => Err(error),
            Ok(changed) => {
                self.balances.insert(account.clone(), changed);
                assert(self@.balances =~= old(self)@.balances.insert(account@, changed as int));
                Ok(())
            },
        }
    }

    /// Raises the balance of `account` by `amount`. Refused where the account
    /// is not there, or the amount is not positive. Returns the place of the
    /// operation in the history.
    pub fn increase_account(&mut self, account: String, amount: i32) -> (result: Result<
        usize,
        BankError,
    >)
        requires
            old(self).wf(),
        ensures
            final(self).wf(),
            final(self)@ == old(self)@.apply(
                OperationView::IncreaseAccount(account@, amount as int),
            ),
            match result {
                Ok(id) => refusal(
                    old(self)@.balances,
                    OperationView::IncreaseAccount(account@, amount as int),
                ) is None && id == old(self)@.history.len(),
                Err(error) => refusal(
                    old(self)@.balances,
                    OperationView::IncreaseAccount(account@, amount as int),
                ) == Some(error@),
            },
    {
        match self.update_balance_account(&account, amount, false) {
            Err(error) => {
                assert(self@ == old(self)@);
                Err(error)
            },
            Ok(()) => {
                let operation = Operation::IncreaseAccount(account.clone(), amount);
                let ghost recorded_operation = operation;
                let id = self.append_history(operation);
                self.append_account_index(account, id);
                proof {
                    Self::lemma_accepted_keeps_wf(*old(self), *self, recorded_operation);
                }
                Ok(id)
            },
        }
    }

    /// Lowers the balance of `account` by `amount`. Refused where the account
    /// is not there, the amount is not positive, or the balance is smaller
    /// than the amount. Returns the place of the operation in the history.
    pub fn decrease_account(&mut self, account: String, amount: i32) -> (result: Result<
        usize,
        BankError,
    >)
        requires
            old(self).wf(),
        ensures
            final(self).wf(),
            final(self)@ == old(self)@.apply(
                OperationView::DecreaseAccount(account@, amount as int),
            ),
            match result {
                Ok(id) => refusal(
                    old(self)@.balances,
                    OperationView::DecreaseAccount(account@, amount as int),
                ) is None && id == old(self)@.history.len(),
                Err(error) => refusal(
                    old(self)@.balances,
                    OperationView::DecreaseAccount(account@, amount as int),
                ) == Some(error@),
            },
    {
        match self.update_balance_account(&account, amount, true) {
            Err(error) => {
                assert(self@ == old(self)@);
                Err(error)
            },
            Ok(()) => {
                let operation = Operation::DecreaseAccount(account.clone(), amount);
                let ghost recorded_operation = operation;
                let id = self.append_history(operation);
                self.append_account_index(account, id);
                proof {
                    Self::lemma_accepted_keeps_wf(*old(self), *self, recorded_operation);
                }
                Ok(id)
            },
        }
    }

    /// Moves `amount` from the account `from` to the account `to`. Both ends
    /// are checked before either balance changes, so a refused transfer leaves
    /// no trace. One operation joins the history, and its place is recorded
    /// under both accounts.
    pub fn transfer(&mut self, from: String, to: String, amount: i32) -> (result: Result<
        (),
        BankError,
    >)
        requires
            old(self).wf(),
        ensures
            final(self).wf(),
            final(self)@ == old(self)@.apply(
                OperationView::Transfer(from@, to@, amount as int),
            ),
            match result {
                Ok(()) => refusal(
                    old(self)@.balances,
                    OperationView::Transfer(from@, to@, amount as int),
                ) is None,
                Err(error) => refusal(
                    old(self)@.balances,
                    OperationView::Transfer(from@, to@, amount as int),
                ) == Some(error@),
            },
    {
        if from == to {
            return Err(BankError::TransferToMyself);
        }
        let from_balance = match self.check_balance_change(&from, amount, true) {
            Ok(balance) => balance,
            Err(error) => {
                return Err(error);
            },
        };
        let to_balance = match self.check_balance_change(&to, amount, false) {
            Ok(balance) => balance,
            Err(error) => {
                return Err(error);
            },
        };
        let operation = Operation::Transfer(from.clone(), to.clone(), amount);
        let ghost recorded_operation = operation;
        self.balances.insert(from.clone(), from_balance);
        self.balances.insert(to.clone(), to_balance);
        let id = self.append_history(operation);
        self.append_account_index(from, id);
        self.append_account_index(to, id);
        proof {
            assert(self@.balances =~= effect(old(self)@.balances, recorded_operation@));
            Self::lemma_accepted_keeps_wf(*old(self), *self, recorded_operation);
        }
        Ok(())
    }

    /// The balance of `account`, which is never below zero.
    pub fn get_account_balance(&self, account: String) -> (result: Result<i128, BankError>)
        requires
            self.wf(),
        ensures
            match result {
                Ok(balance) => self@.balances.contains_key(account@) && balance
                    == self@.balances[account@] && balance >= 0,
                Err(error) => !self@.balances.contains_key(account@) && error@
                    == BankErrorView::AccountNotFound(not_found_message(account@)),
            },
    {
        match self.balances.get(account.as_str()) {
            Some(balance) => {
                proof {
                    lemma_balances_never_negative(self@, account@);
                }
                Ok(*balance)
            },
            None => Err(BankError::not_found(account.as_str())),
        }
    }

    /// Every operation that was accepted, oldest first.
    pub fn get_history(&self) -> (history: &Vec<Operation>)
        ensures
            views_of(history@) == self@.history,
    {
        &self.history
    }

    /// The index from accounts to places in the history.
    pub fn account_operations_index(&self) -> (index: &AccountIndex)
        requires
            self.wf(),
        ensures
            index.wf(),
            index@.dom() == self@.balances.dom(),
            index_matches(index@, self@.history),
    {
        assert(self@.balances.dom() =~= self.balances@.dom());
        &self.account_operations_index
    }

    /// The operations of the history that mention `account`, oldest first;
    /// `None` where no such account is there.
    pub fn get_account_history(&self, account: String) -> (result: Option<Vec<Operation>>)
        requires
            self.wf(),
        ensures
            result is Some <==> self@.balances.contains_key(account@),
            result matches Some(operations) ==> views_of(operations@) == self@.history.filter(
                |operation: OperationView| operation.mentions(account@),
            ),
    {
        assert(self@.balances.dom() =~= self.balances@.dom());
        match self.account_operations_index.get(account.as_str()) {
            None => None,
            Some(ids) => {
                let ghost found = positions(self@.history, account@);
                proof {
                    lemma_positions_in_history(self@.history, account@);
                    assert(places(ids@) == found);
                }
                let mut operations: Vec<Operation> = Vec::new();
                let mut k: usize = 0;
                while k < ids.len()
                    invariant
                        k <= ids.len(),
                        places(ids@) == found,
                        found == positions(self@.history, account@),
                        forall|j: int|
                            0 <= j < found.len() ==> 0 <= #[trigger] found[j]
                                < self.history@.len(),
                        operations@.len() == k,
                        forall|j: int|
                            0 <= j < k ==> (#[trigger] operations@[j])@
                                == self@.history[found[j]],
                    decreases ids.len() - k,
                {
                    let id = ids[k];
                    assert(found[k as int] == id);
                    operations.push(self.history[id].clone());
                    k += 1;
                }
                proof {
                    lemma_positions_select_mentions(self@.history, account@);
                    assert(views_of(operations@) =~= found.map_values(
                        |i: int| self@.history[i],
                    ));
                }
                Some(operations)
            },
        }
    }

    /// Asks of this bank, in turn, each operation of `history`. An operation
    /// that the bank refuses is passed over, whatever its kind, and the ones
    /// after it are still asked. On a new bank, and with the history of a bank
    /// as it stands, this rebuilds that bank.
    pub fn restore(&mut self, history: &Vec<Operation>)
        requires
            old(self).wf(),
        ensures
            final(self).wf(),
            final(self)@ == old(self)@.replay(views_of(history@)),
    {
        let mut i: usize = 0;
        while i < history.len()
            invariant
                i <= history.len(),
                self.wf(),
                self@ == old(self)@.replay(views_of(history@).take(i as int)),
            decreases history.len() - i,
        {
            proof {
                lemma_replay_step(old(self)@, views_of(history@), i as int);
            }
            match &history[i] {
                Operation::CreateAccount(account) => {
                    let _ = self.create_account(account.clone());
                },
                Operation::IncreaseAccount(account, amount) => {
                    let _ = self.increase_account(account.clone(), *amount);
                },
                Operation::DecreaseAccount(account, amount) => {
                    let _ = self.decrease_account(account.clone(), *amount);
                },
                Operation::Transfer(from, to, amount) => {
                    let _ = self.transfer(from.clone(), to.clone(), *amount);
                },
            }
            i += 1;
        }
        assert(views_of(history@).take(history@.len() as int) == views_of(history@));
    }
}

impl Default for Bank {
    /// A bank without accounts and without history.
    fn default() -> (bank: Bank)
        ensures
            bank.wf(),
            bank@ == BankView::empty(),
    {
        Bank::new()
    }
}

} // verus!
