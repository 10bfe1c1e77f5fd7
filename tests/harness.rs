use asset_migration::harness::{
    clear_frozen_balance, hooks, set_frozen_balance, take_hooks, AssetsCallbackHandle, Hook,
    TestFreezer, To123, DEPOSIT_BENEFICIARY,
};

#[test]
fn callbacks_follow_the_configured_outcome() {
    let mut handle = AssetsCallbackHandle::new();
    assert!(!handle.should_err());
    handle.set_return_error();
    assert!(handle.should_err());
    assert_eq!(handle.created(1, 2), Err(()));
    assert_eq!(handle.destroyed(1), Err(()));
    assert!(!handle.created_called());
    assert!(!handle.destroyed_called());
    handle.set_return_ok();
    assert_eq!(handle.created(1, 2), Ok(()));
    assert!(handle.created_called());
    assert!(!handle.destroyed_called());
    assert_eq!(handle.destroyed(1), Ok(()));
    assert!(handle.destroyed_called());
}

#[test]
fn unbalanced_amount_goes_to_fixed_account() {
    assert_eq!(DEPOSIT_BENEFICIARY, 123);
    assert_eq!(To123::on_nonzero_unbalanced(50), (123, 50));
}

#[test]
fn frozen_balances_are_set_replaced_and_cleared() {
    let mut freezer = TestFreezer::new();
    assert_eq!(freezer.frozen_balance(1, 2), None);
    set_frozen_balance(&mut freezer, 1, 2, 30);
    set_frozen_balance(&mut freezer, 1, 3, 40);
    assert_eq!(freezer.frozen_balance(1, 2), Some(30));
    set_frozen_balance(&mut freezer, 1, 2, 35);
    assert_eq!(freezer.frozen_balance(1, 2), Some(35));
    assert_eq!(freezer.frozen_balance(1, 3), Some(40));
    clear_frozen_balance(&mut freezer, 1, 2);
    assert_eq!(freezer.frozen_balance(1, 2), None);
    assert_eq!(freezer.frozen_balance(1, 3), Some(40));
    clear_frozen_balance(&mut freezer, 9, 9);
    assert_eq!(freezer.frozen_balance(1, 3), Some(40));
}

#[test]
fn died_hooks_are_recorded_and_taken() {
    let mut freezer = TestFreezer::new();
    freezer.died(999, 1);
    freezer.died(999, 2);
    assert_eq!(hooks(&freezer), vec![Hook::Died(999, 1), Hook::Died(999, 2)]);
    assert_eq!(take_hooks(&mut freezer), vec![Hook::Died(999, 1), Hook::Died(999, 2)]);
    assert_eq!(hooks(&freezer), vec![]);
    assert_eq!(take_hooks(&mut freezer), vec![]);
}
