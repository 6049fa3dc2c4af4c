use cw20_vault::contract::{
    attempt_withdraw, deposit, deposit_vault, execute, get_withdraw_fail_msg, instantiate, query,
    query_vault, remove_empty_ledger,
};
use cw20_vault::error::ContractError;
use cw20_vault::msg::{
    ExecuteMsg, InstantiateMsg, QueryMsg, ReceiveMsg, VaultResponse, WithdrawOutcome,
};
use cw20_vault::state::{Ledger, Vault, VaultStore};

fn vault_with(entries: Vec<(u128, u64)>) -> Vault {
    let ledger_list: Vec<Ledger> = entries
        .iter()
        .map(|&(coin_amount, receive_time)| Ledger { coin_amount, receive_time })
        .collect();
    let collected = entries.iter().map(|&(a, _)| a).sum();
    Vault { owner_addr: String::from("owner"), collected, ledger_list }
}

#[test]
fn deposit_appends_entry() {
    let mut v = vault_with(vec![(40, 10)]);
    deposit(&mut v, 60, 25).unwrap();
    assert_eq!(v.collected, 100);
    assert_eq!(
        v.ledger_list,
        vec![
            Ledger { coin_amount: 40, receive_time: 10 },
            Ledger { coin_amount: 60, receive_time: 25 },
        ]
    );
}

#[test]
fn deposit_keeps_equal_timestamps_distinct() {
    let mut v = vault_with(vec![(40, 10)]);
    deposit(&mut v, 5, 10).unwrap();
    assert_eq!(
        v.ledger_list,
        vec![
            Ledger { coin_amount: 40, receive_time: 10 },
            Ledger { coin_amount: 5, receive_time: 10 },
        ]
    );
}

#[test]
fn deposit_of_zero_is_rejected() {
    let mut v = vault_with(vec![(40, 10)]);
    assert_eq!(deposit(&mut v, 0, 25), Err(ContractError::ValidationError));
    assert_eq!(v.collected, 40);
    assert_eq!(v.ledger_list, vec![Ledger { coin_amount: 40, receive_time: 10 }]);
}

#[test]
fn deposit_overflow_is_rejected() {
    let mut v = vault_with(vec![(u128::MAX - 5, 10)]);
    assert_eq!(deposit(&mut v, 6, 25), Err(ContractError::Overflow));
    assert_eq!(v.collected, u128::MAX - 5);
    assert_eq!(
        v.ledger_list,
        vec![Ledger { coin_amount: u128::MAX - 5, receive_time: 10 }]
    );
}

#[test]
fn withdraw_at_window_edge_is_locked() {
    // deposited at 100, requested at 160: age exactly 60, still locked
    let mut v = vault_with(vec![(80, 100)]);
    let out = attempt_withdraw(&mut v, 10, 160);
    assert_eq!(
        out,
        WithdrawOutcome { success: false, amount_withdrawn: 0, remaining_collected: 80 }
    );
    assert_eq!(v.collected, 80);
    assert_eq!(v.ledger_list, vec![Ledger { coin_amount: 80, receive_time: 100 }]);
}

#[test]
fn withdraw_just_past_window_succeeds() {
    // deposited at 100, requested at 161: age 61, eligible
    let mut v = vault_with(vec![(80, 100)]);
    let out = attempt_withdraw(&mut v, 80, 161);
    assert_eq!(
        out,
        WithdrawOutcome { success: true, amount_withdrawn: 80, remaining_collected: 0 }
    );
    assert_eq!(v.collected, 0);
    assert_eq!(v.ledger_list, vec![]);
}

#[test]
fn withdraw_of_zero_succeeds_and_changes_nothing() {
    let mut v = vault_with(vec![(80, 100)]);
    let out = attempt_withdraw(&mut v, 0, 120);
    assert_eq!(
        out,
        WithdrawOutcome { success: true, amount_withdrawn: 0, remaining_collected: 80 }
    );
    assert_eq!(v.collected, 80);
    assert_eq!(v.ledger_list, vec![Ledger { coin_amount: 80, receive_time: 100 }]);
}

#[test]
fn partial_withdraw_reduces_only_the_met_entry() {
    let mut v = vault_with(vec![(100, 0), (30, 5)]);
    let out = attempt_withdraw(&mut v, 40, 100);
    assert_eq!(
        out,
        WithdrawOutcome { success: true, amount_withdrawn: 40, remaining_collected: 90 }
    );
    assert_eq!(
        v.ledger_list,
        vec![
            Ledger { coin_amount: 60, receive_time: 0 },
            Ledger { coin_amount: 30, receive_time: 5 },
        ]
    );
}

#[test]
fn withdraw_exceeding_eligible_funds_fails_completely() {
    // 50 is eligible at t=200, 100 is not; a request of 60 could be 83%
    // satisfied and still fails with no effect at all
    let mut v = vault_with(vec![(50, 60), (100, 150)]);
    let out = attempt_withdraw(&mut v, 60, 200);
    assert_eq!(
        out,
        WithdrawOutcome { success: false, amount_withdrawn: 0, remaining_collected: 150 }
    );
    assert_eq!(v.collected, 150);
    assert_eq!(
        v.ledger_list,
        vec![
            Ledger { coin_amount: 50, receive_time: 60 },
            Ledger { coin_amount: 100, receive_time: 150 },
        ]
    );
}

#[test]
fn withdraw_spanning_entries_consumes_oldest_first() {
    let mut v = vault_with(vec![(10, 0), (20, 1), (30, 2)]);
    let out = attempt_withdraw(&mut v, 35, 1000);
    assert_eq!(
        out,
        WithdrawOutcome { success: true, amount_withdrawn: 35, remaining_collected: 25 }
    );
    assert_eq!(v.ledger_list, vec![Ledger { coin_amount: 25, receive_time: 2 }]);
}

#[test]
fn withdraw_exact_exhaustion_leaves_later_entries() {
    let mut v = vault_with(vec![(10, 0), (20, 1), (30, 500)]);
    let out = attempt_withdraw(&mut v, 30, 200);
    assert_eq!(
        out,
        WithdrawOutcome { success: true, amount_withdrawn: 30, remaining_collected: 30 }
    );
    assert_eq!(v.ledger_list, vec![Ledger { coin_amount: 30, receive_time: 500 }]);
}

#[test]
fn fail_msg_reports_unchanged_balance() {
    let out = get_withdraw_fail_msg(123);
    assert_eq!(
        out,
        WithdrawOutcome { success: false, amount_withdrawn: 0, remaining_collected: 123 }
    );
}

#[test]
fn remove_empty_ledger_drops_only_zero_entries() {
    let mut ledgers = vec![
        Ledger { coin_amount: 0, receive_time: 1 },
        Ledger { coin_amount: 5, receive_time: 2 },
        Ledger { coin_amount: 0, receive_time: 3 },
        Ledger { coin_amount: 7, receive_time: 4 },
    ];
    remove_empty_ledger(&mut ledgers);
    assert_eq!(
        ledgers,
        vec![
            Ledger { coin_amount: 5, receive_time: 2 },
            Ledger { coin_amount: 7, receive_time: 4 },
        ]
    );
}

#[test]
fn load_of_missing_vault_is_not_found() {
    let store = VaultStore::new();
    assert_eq!(
        store.load(&String::from("nobody")).unwrap_err(),
        ContractError::NotFound
    );
}

#[test]
fn save_vault_replaces_wholesale() {
    let mut store = VaultStore::new();
    store.save_vault(vault_with(vec![(40, 10)]));
    store.save_vault(vault_with(vec![(7, 99)]));
    let v = store.load(&String::from("owner")).unwrap();
    assert_eq!(v.collected, 7);
    assert_eq!(v.ledger_list, vec![Ledger { coin_amount: 7, receive_time: 99 }]);
}

#[test]
fn deposit_vault_requires_an_existing_vault() {
    let mut store = VaultStore::new();
    assert_eq!(
        deposit_vault(&mut store, &String::from("owner"), 10, 5),
        Err(ContractError::NotFound)
    );
}

#[test]
fn receive_from_stranger_is_unauthorized() {
    let config = instantiate(
        String::from("tx_sender"),
        InstantiateMsg { cw20_addr: String::from("the_token") },
    );
    let mut store = VaultStore::new();
    execute(
        &mut store,
        &config,
        String::from("alice"),
        0,
        ExecuteMsg::CreateVault,
    )
    .unwrap();
    let err = execute(
        &mut store,
        &config,
        String::from("not_the_token"),
        10,
        ExecuteMsg::Receive {
            amount: 5,
            msg: ReceiveMsg { vault_owner_addr: String::from("alice") },
        },
    )
    .unwrap_err();
    assert_eq!(err, ContractError::Unauthorized);
    // nothing was recorded
    let v: VaultResponse = query_vault(&store, &String::from("alice")).unwrap();
    assert_eq!(v.collected, 0);
    assert_eq!(v.ledger_list, vec![]);
}

#[test]
fn receive_of_zero_is_rejected() {
    let config = instantiate(
        String::from("tx_sender"),
        InstantiateMsg { cw20_addr: String::from("the_token") },
    );
    let mut store = VaultStore::new();
    execute(
        &mut store,
        &config,
        String::from("alice"),
        0,
        ExecuteMsg::CreateVault,
    )
    .unwrap();
    let err = execute(
        &mut store,
        &config,
        String::from("the_token"),
        10,
        ExecuteMsg::Receive {
            amount: 0,
            msg: ReceiveMsg { vault_owner_addr: String::from("alice") },
        },
    )
    .unwrap_err();
    assert_eq!(err, ContractError::ValidationError);
}

#[test]
fn withdraw_without_vault_is_not_found() {
    let config = instantiate(
        String::from("tx_sender"),
        InstantiateMsg { cw20_addr: String::from("the_token") },
    );
    let mut store = VaultStore::new();
    let err = execute(
        &mut store,
        &config,
        String::from("alice"),
        10,
        ExecuteMsg::Withdraw { amount: 5 },
    )
    .unwrap_err();
    assert_eq!(err, ContractError::NotFound);
}

#[test]
fn vaults_of_different_owners_are_isolated() {
    let config = instantiate(
        String::from("tx_sender"),
        InstantiateMsg { cw20_addr: String::from("the_token") },
    );
    let mut store = VaultStore::new();
    execute(&mut store, &config, String::from("alice"), 0, ExecuteMsg::CreateVault).unwrap();
    execute(&mut store, &config, String::from("bob"), 0, ExecuteMsg::CreateVault).unwrap();
    execute(
        &mut store,
        &config,
        String::from("the_token"),
        5,
        ExecuteMsg::Receive {
            amount: 30,
            msg: ReceiveMsg { vault_owner_addr: String::from("alice") },
        },
    )
    .unwrap();
    let alice = query_vault(&store, &String::from("alice")).unwrap();
    let bob = query_vault(&store, &String::from("bob")).unwrap();
    assert_eq!(alice.collected, 30);
    assert_eq!(bob.collected, 0);
    assert_eq!(bob.ledger_list, vec![]);
}

#[test]
fn receive_overflowing_the_balance_is_rejected() {
    let config = instantiate(
        String::from("tx_sender"),
        InstantiateMsg { cw20_addr: String::from("the_token") },
    );
    let mut store = VaultStore::new();
    execute(&mut store, &config, String::from("alice"), 0, ExecuteMsg::CreateVault).unwrap();
    execute(
        &mut store,
        &config,
        String::from("the_token"),
        5,
        ExecuteMsg::Receive {
            amount: u128::MAX,
            msg: ReceiveMsg { vault_owner_addr: String::from("alice") },
        },
    )
    .unwrap();
    let err = execute(
        &mut store,
        &config,
        String::from("the_token"),
        6,
        ExecuteMsg::Receive {
            amount: 1,
            msg: ReceiveMsg { vault_owner_addr: String::from("alice") },
        },
    )
    .unwrap_err();
    assert_eq!(err, ContractError::Overflow);
    let alice = query_vault(&store, &String::from("alice")).unwrap();
    assert_eq!(alice.collected, u128::MAX);
}

#[test]
fn query_of_missing_vault_is_not_found() {
    let store = VaultStore::new();
    let err = query(
        &store,
        QueryMsg::GetVault { vault_owner_addr: String::from("ghost") },
    )
    .unwrap_err();
    assert_eq!(err, ContractError::NotFound);
}
