use bank::account_index::AccountIndex;
use bank::{Bank, BankError, Operation};

fn name(text: &str) -> String {
    text.to_string()
}

fn funded(account: &str, amount: i32) -> Bank {
    let mut bank = Bank::new();
    bank.create_account(name(account)).unwrap();
    bank.increase_account(name(account), amount).unwrap();
    bank
}

#[test]
fn new_bank_is_empty() {
    let bank = Bank::new();
    assert!(bank.get_history().is_empty());
    assert_eq!(0, bank.account_operations_index().len());
    assert!(bank.get_account_history(name("X")).is_none());
}

#[test]
fn default_bank_is_empty() {
    let bank = Bank::default();
    assert!(bank.get_history().is_empty());
    assert_eq!(0, bank.account_operations_index().len());
}

#[test]
fn operation_ids_count_up_from_zero() {
    let mut bank = Bank::new();
    assert_eq!(0, bank.create_account(name("X")).unwrap());
    assert_eq!(1, bank.create_account(name("Y")).unwrap());
    assert_eq!(2, bank.increase_account(name("X"), 10).unwrap());
    assert_eq!(3, bank.decrease_account(name("X"), 4).unwrap());
    assert!(bank.transfer(name("X"), name("Y"), 1).is_ok());
    assert_eq!(5, bank.increase_account(name("Y"), 1).unwrap());
}

#[test]
fn refused_request_takes_no_id() {
    let mut bank = Bank::new();
    assert_eq!(0, bank.create_account(name("X")).unwrap());
    assert!(bank.create_account(name("X")).is_err());
    assert!(bank.increase_account(name("X"), 0).is_err());
    assert_eq!(1, bank.increase_account(name("X"), 3).unwrap());
}

#[test]
fn second_create_fails_and_changes_nothing() {
    let mut bank = funded("X", 10);
    let before = bank.get_history().len();
    let second = bank.create_account(name("X"));
    assert!(matches!(second, Err(BankError::AccountAlreadyExists(_))));
    assert_eq!(before, bank.get_history().len());
    assert_eq!(10, bank.get_account_balance(name("X")).unwrap());
    assert_eq!(1, bank.account_operations_index().len());
}

#[test]
fn already_exists_message_names_the_account() {
    let mut bank = Bank::new();
    bank.create_account(name("savings")).unwrap();
    match bank.create_account(name("savings")) {
        Err(BankError::AccountAlreadyExists(message)) => {
            assert_eq!("Account savings already exists", message)
        }
        other => panic!("unexpected: {:?}", other),
    }
}

#[test]
fn not_found_message_names_the_account() {
    let bank = Bank::new();
    match bank.get_account_balance(name("savings")) {
        Err(BankError::AccountNotFound(message)) => {
            assert_eq!("Account savings does not exist", message)
        }
        other => panic!("unexpected: {:?}", other),
    }
}

#[test]
fn error_constructors_build_the_messages() {
    match BankError::already_exists("A") {
        BankError::AccountAlreadyExists(message) => assert_eq!("Account A already exists", message),
        other => panic!("unexpected: {:?}", other),
    }
    match BankError::not_found("A") {
        BankError::AccountNotFound(message) => assert_eq!("Account A does not exist", message),
        other => panic!("unexpected: {:?}", other),
    }
}

#[test]
fn zero_amount_is_incorrect_and_not_logged() {
    let mut bank = funded("X", 10);
    let before = bank.get_history().len();
    assert!(matches!(bank.increase_account(name("X"), 0), Err(BankError::IncorrectAmount(0))));
    assert!(matches!(bank.decrease_account(name("X"), 0), Err(BankError::IncorrectAmount(0))));
    assert_eq!(before, bank.get_history().len());
    assert_eq!(10, bank.get_account_balance(name("X")).unwrap());
    assert_eq!(2, bank.account_operations_index().get("X").unwrap().len());
}

#[test]
fn negative_amount_is_incorrect() {
    let mut bank = funded("X", 10);
    bank.create_account(name("Y")).unwrap();
    assert!(matches!(bank.increase_account(name("X"), -5), Err(BankError::IncorrectAmount(-5))));
    assert!(matches!(bank.decrease_account(name("X"), -5), Err(BankError::IncorrectAmount(-5))));
    assert!(matches!(
        bank.transfer(name("X"), name("Y"), -5),
        Err(BankError::IncorrectAmount(-5))
    ));
    assert!(matches!(
        bank.decrease_account(name("X"), i32::MIN),
        Err(BankError::IncorrectAmount(i32::MIN))
    ));
    assert_eq!(3, bank.get_history().len());
    assert_eq!(10, bank.get_account_balance(name("X")).unwrap());
    assert_eq!(0, bank.get_account_balance(name("Y")).unwrap());
}

#[test]
fn missing_account_comes_before_the_amount() {
    let mut bank = Bank::new();
    assert!(matches!(bank.increase_account(name("X"), 0), Err(BankError::AccountNotFound(_))));
    assert!(matches!(bank.decrease_account(name("X"), -1), Err(BankError::AccountNotFound(_))));
    assert!(bank.get_history().is_empty());
}

#[test]
fn overdraft_is_refused_and_changes_nothing() {
    let mut bank = funded("X", 10);
    let before = bank.get_history().len();
    assert!(matches!(bank.decrease_account(name("X"), 11), Err(BankError::InsufficientFunds(-11))));
    assert_eq!(before, bank.get_history().len());
    assert_eq!(10, bank.get_account_balance(name("X")).unwrap());
}

#[test]
fn whole_balance_can_be_withdrawn() {
    let mut bank = funded("X", 10);
    assert!(bank.decrease_account(name("X"), 10).is_ok());
    assert_eq!(0, bank.get_account_balance(name("X")).unwrap());
    assert!(matches!(bank.decrease_account(name("X"), 1), Err(BankError::InsufficientFunds(-1))));
}

#[test]
fn transfer_to_myself_is_refused_whatever_the_rest() {
    let mut bank = funded("X", 10);
    assert!(matches!(bank.transfer(name("X"), name("X"), 5), Err(BankError::TransferToMyself)));
    assert!(matches!(bank.transfer(name("X"), name("X"), 0), Err(BankError::TransferToMyself)));
    assert!(matches!(bank.transfer(name("X"), name("X"), -3), Err(BankError::TransferToMyself)));
    assert!(matches!(bank.transfer(name("X"), name("X"), 500), Err(BankError::TransferToMyself)));
    assert!(matches!(bank.transfer(name("Z"), name("Z"), 5), Err(BankError::TransferToMyself)));
    assert_eq!(2, bank.get_history().len());
    assert_eq!(10, bank.get_account_balance(name("X")).unwrap());
}

#[test]
fn transfer_errors_come_in_order() {
    let mut bank = funded("X", 10);
    bank.create_account(name("Y")).unwrap();
    assert!(matches!(bank.transfer(name("Z"), name("Y"), 5), Err(BankError::AccountNotFound(_))));
    assert!(matches!(bank.transfer(name("Z"), name("W"), 0), Err(BankError::AccountNotFound(_))));
    assert!(matches!(bank.transfer(name("X"), name("Z"), 0), Err(BankError::IncorrectAmount(0))));
    assert!(matches!(
        bank.transfer(name("X"), name("Z"), 50),
        Err(BankError::InsufficientFunds(-50))
    ));
    assert!(matches!(
        bank.transfer(name("X"), name("Y"), 50),
        Err(BankError::InsufficientFunds(-50))
    ));
    match bank.transfer(name("X"), name("Z"), 5) {
        Err(BankError::AccountNotFound(message)) => {
            assert_eq!("Account Z does not exist", message)
        }
        other => panic!("unexpected: {:?}", other),
    }
}

#[test]
fn refused_transfer_leaves_the_source_untouched() {
    let mut bank = funded("X", 10);
    let before = bank.get_history().len();
    assert!(bank.transfer(name("X"), name("Y"), 5).is_err());
    assert_eq!(10, bank.get_account_balance(name("X")).unwrap());
    assert_eq!(before, bank.get_history().len());
    assert_eq!(2, bank.account_operations_index().get("X").unwrap().len());
    assert!(bank.account_operations_index().get("Y").is_none());
}

#[test]
fn balances_are_never_negative() {
    let mut bank = Bank::new();
    bank.create_account(name("X")).unwrap();
    bank.create_account(name("Y")).unwrap();
    let amounts = [7, -2, 0, 30, 1, 12, 5, 100, 3];
    for (step, amount) in amounts.iter().enumerate() {
        let _ = match step % 4 {
            0 => bank.increase_account(name("X"), *amount).map(|_| ()),
            1 => bank.decrease_account(name("X"), *amount).map(|_| ()),
            2 => bank.transfer(name("X"), name("Y"), *amount),
            _ => bank.transfer(name("Y"), name("X"), *amount),
        };
        assert!(bank.get_account_balance(name("X")).unwrap() >= 0);
        assert!(bank.get_account_balance(name("Y")).unwrap() >= 0);
    }
}

#[test]
fn balance_grows_past_the_range_of_an_amount() {
    let mut bank = Bank::new();
    bank.create_account(name("X")).unwrap();
    bank.create_account(name("Y")).unwrap();
    bank.increase_account(name("X"), i32::MAX).unwrap();
    bank.increase_account(name("X"), i32::MAX).unwrap();
    bank.increase_account(name("Y"), i32::MAX).unwrap();
    bank.transfer(name("X"), name("Y"), i32::MAX).unwrap();
    assert_eq!(2147483647, bank.get_account_balance(name("X")).unwrap());
    assert_eq!(4294967294, bank.get_account_balance(name("Y")).unwrap());
}

#[test]
fn scenario_balances_and_log_length() {
    let mut bank = Bank::new();
    bank.create_account(name("X")).unwrap();
    bank.create_account(name("Y")).unwrap();
    bank.increase_account(name("X"), 10).unwrap();
    bank.transfer(name("X"), name("Y"), 5).unwrap();
    bank.decrease_account(name("Y"), 2).unwrap();
    assert_eq!(5, bank.get_account_balance(name("X")).unwrap());
    assert_eq!(3, bank.get_account_balance(name("Y")).unwrap());
    assert_eq!(5, bank.get_history().len());
}

#[test]
fn scenario_account_history_in_order() {
    let mut bank = Bank::new();
    bank.create_account(name("X")).unwrap();
    bank.increase_account(name("X"), 10).unwrap();
    bank.decrease_account(name("X"), 5).unwrap();
    let history = bank.get_account_history(name("X")).unwrap();
    assert_eq!(
        vec![
            Operation::CreateAccount(name("X")),
            Operation::IncreaseAccount(name("X"), 10),
            Operation::DecreaseAccount(name("X"), 5),
        ],
        history
    );
}

#[test]
fn scenario_transfer_is_last_in_both_histories() {
    let mut bank = Bank::new();
    bank.create_account(name("X")).unwrap();
    bank.create_account(name("Y")).unwrap();
    bank.increase_account(name("X"), 10).unwrap();
    bank.transfer(name("X"), name("Y"), 5).unwrap();
    let of_x = bank.get_account_history(name("X")).unwrap();
    let of_y = bank.get_account_history(name("Y")).unwrap();
    assert_eq!(3, of_x.len());
    assert_eq!(2, of_y.len());
    let moved = Operation::Transfer(name("X"), name("Y"), 5);
    assert_eq!(moved, of_x[2]);
    assert_eq!(moved, of_y[1]);
    assert_eq!(&vec![0, 2, 3], bank.account_operations_index().get("X").unwrap());
    assert_eq!(&vec![1, 3], bank.account_operations_index().get("Y").unwrap());
}

#[test]
fn debit_is_logged_as_a_magnitude() {
    let mut bank = funded("X", 10);
    bank.decrease_account(name("X"), 4).unwrap();
    assert_eq!(Operation::DecreaseAccount(name("X"), 4), bank.get_history()[2]);
}

#[test]
fn account_history_of_unknown_account_is_none() {
    let bank = funded("X", 10);
    assert!(bank.get_account_history(name("Y")).is_none());
    assert!(bank.get_account_history(name("")).is_none());
}

#[test]
fn account_history_skips_other_accounts() {
    let mut bank = Bank::new();
    bank.create_account(name("X")).unwrap();
    bank.create_account(name("Y")).unwrap();
    bank.create_account(name("Z")).unwrap();
    bank.increase_account(name("Y"), 8).unwrap();
    bank.transfer(name("Y"), name("Z"), 3).unwrap();
    bank.increase_account(name("X"), 1).unwrap();
    assert_eq!(
        vec![Operation::CreateAccount(name("X")), Operation::IncreaseAccount(name("X"), 1)],
        bank.get_account_history(name("X")).unwrap()
    );
    assert_eq!(
        vec![Operation::CreateAccount(name("Z")), Operation::Transfer(name("Y"), name("Z"), 3)],
        bank.get_account_history(name("Z")).unwrap()
    );
}

#[test]
fn restore_round_trip() {
    let mut bank = Bank::new();
    bank.create_account(name("X")).unwrap();
    bank.create_account(name("Y")).unwrap();
    bank.increase_account(name("X"), 10).unwrap();
    assert!(bank.decrease_account(name("X"), 50).is_err());
    bank.transfer(name("X"), name("Y"), 5).unwrap();
    bank.decrease_account(name("Y"), 2).unwrap();

    let mut copy = Bank::new();
    copy.restore(bank.get_history());
    assert_eq!(bank.get_history(), copy.get_history());
    assert_eq!(5, copy.get_history().len());
    assert_eq!(5, copy.get_account_balance(name("X")).unwrap());
    assert_eq!(3, copy.get_account_balance(name("Y")).unwrap());
    assert_eq!(
        bank.get_account_history(name("X")).unwrap(),
        copy.get_account_history(name("X")).unwrap()
    );
    assert_eq!(
        bank.account_operations_index().get("Y").unwrap(),
        copy.account_operations_index().get("Y").unwrap()
    );
}

#[test]
fn restore_passes_over_what_is_refused() {
    let log = vec![
        Operation::IncreaseAccount(name("X"), 5),
        Operation::CreateAccount(name("X")),
        Operation::CreateAccount(name("X")),
        Operation::DecreaseAccount(name("X"), 5),
        Operation::IncreaseAccount(name("X"), 7),
        Operation::Transfer(name("X"), name("Y"), 1),
        Operation::Transfer(name("X"), name("X"), 1),
        Operation::IncreaseAccount(name("X"), 0),
        Operation::DecreaseAccount(name("X"), 3),
    ];
    let mut bank = Bank::new();
    bank.restore(&log);
    assert_eq!(
        &vec![
            Operation::CreateAccount(name("X")),
            Operation::IncreaseAccount(name("X"), 7),
            Operation::DecreaseAccount(name("X"), 3),
        ],
        bank.get_history()
    );
    assert_eq!(4, bank.get_account_balance(name("X")).unwrap());
    assert!(bank.get_account_balance(name("Y")).is_err());
}

#[test]
fn restore_on_a_bank_in_use_continues_it() {
    let mut bank = funded("X", 10);
    let log = vec![Operation::CreateAccount(name("X")), Operation::DecreaseAccount(name("X"), 4)];
    bank.restore(&log);
    assert_eq!(3, bank.get_history().len());
    assert_eq!(6, bank.get_account_balance(name("X")).unwrap());
    assert_eq!(&vec![0, 1, 2], bank.account_operations_index().get("X").unwrap());
}

#[test]
fn restore_of_nothing_changes_nothing() {
    let mut bank = funded("X", 10);
    bank.restore(&Vec::new());
    assert_eq!(2, bank.get_history().len());
    assert_eq!(10, bank.get_account_balance(name("X")).unwrap());
}

#[test]
fn operation_clone_is_equal() {
    let operations = vec![
        Operation::CreateAccount(name("X")),
        Operation::IncreaseAccount(name("X"), 10),
        Operation::DecreaseAccount(name("X"), 5),
        Operation::Transfer(name("X"), name("Y"), 5),
    ];
    for operation in operations.iter() {
        assert_eq!(*operation, operation.clone());
    }
    assert_ne!(
        Operation::IncreaseAccount(name("X"), 10),
        Operation::DecreaseAccount(name("X"), 10)
    );
}

#[test]
fn index_records_in_order_and_per_account() {
    let mut index = AccountIndex::new();
    assert_eq!(0, index.len());
    assert!(index.get("X").is_none());
    index.record(name("X"), 0);
    index.record(name("Y"), 1);
    index.record(name("X"), 4);
    index.record(name("X"), 9);
    assert_eq!(2, index.len());
    assert_eq!(&vec![0, 4, 9], index.get("X").unwrap());
    assert_eq!(&vec![1], index.get("Y").unwrap());
    assert!(index.get("Z").is_none());
}

#[test]
fn names_differ_by_case_and_may_be_empty() {
    let mut bank = Bank::new();
    bank.create_account(name("x")).unwrap();
    bank.create_account(name("X")).unwrap();
    bank.create_account(name("")).unwrap();
    bank.increase_account(name(""), 2).unwrap();
    assert_eq!(0, bank.get_account_balance(name("x")).unwrap());
    assert_eq!(2, bank.get_account_balance(name("")).unwrap());
    assert_eq!(3, bank.account_operations_index().len());
}
