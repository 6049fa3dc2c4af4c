use crate::error::ContractError;
use crate::msg::{
    ExecResponse, ExecuteMsg, InstantiateMsg, QueryMsg, TransferInstruction, VaultResponse,
    WithdrawOutcome,
};
use crate::state::{
    consume, eligible, eligible_total, lemma_consume_no_zero, lemma_consume_sorted,
    lemma_consume_sum, lemma_eligible_total_le_sum, lemma_eligible_total_nonneg, lemma_skip_unfold,
    lemma_sum_push, no_zero, sum_amounts, Config, CreateOutcome, Ledger, Vault,
    VaultStore, VaultView, LOCK_WINDOW,
};
use vstd::prelude::*;

verus! {

/// Record the configuration: the instantiating owner and the token
/// contract whose notifications are to be trusted. Validation of the
/// addresses themselves is the host's concern.
pub fn instantiate(sender: String, msg: InstantiateMsg) -> (config: Config)
    ensures
        config.owner@ == sender@,
        config.cw20_addr@ == msg.cw20_addr@,
{
    Config { owner: sender, cw20_addr: msg.cw20_addr }
}

/// Record a deposit of `amount` received at `timestamp`: one new ledger
/// entry at the tail, never merged with a neighbour, and the collected
/// balance raised by exactly `amount`. An empty amount and an overflowing
/// balance are rejected, leaving the vault untouched.
pub fn deposit(vault: &mut Vault, amount: u128, timestamp: u64) -> (r: Result<(), ContractError>)
    requires
        old(vault)@.wf(),
        old(vault)@.can_accept(timestamp),
    ensures
        final(vault)@.wf(),
        amount == 0 ==> r == Err::<(), ContractError>(ContractError::ValidationError)
            && *final(vault) == *old(vault),
        amount > 0 && old(vault)@.collected + amount > u128::MAX ==> r == Err::<(), ContractError>(
            ContractError::Overflow,
        ) && *final(vault) == *old(vault),
        amount > 0 && old(vault)@.collected + amount <= u128::MAX ==> r == Ok::<(), ContractError>(
            (),
        ) && final(vault)@ == old(vault)@.after_deposit(amount, timestamp),
    {
    if amount == 0 {
        return Err(ContractError::ValidationError);
    }
    if amount > u128::MAX - vault.collected {
        return Err(ContractError::Overflow);
    }
    let ghost pre = vault@;
    let entry = Ledger { coin_amount: amount, receive_time: timestamp };
    vault.collected = vault.collected + amount;
    vault.ledger_list.push(entry);
    proof {
        lemma_sum_push(pre.ledger_list, entry);
        assert forall|i: int, j: int|
            0 <= i <= j < vault.ledger_list@.len() implies #[trigger] vault.ledger_list@[i].receive_time
            <= #[trigger] vault.ledger_list@[j].receive_time by {
            if j < pre.ledger_list.len() {
                assert(pre.ledger_list[i].receive_time <= pre.ledger_list[j].receive_time);
            } else if i < pre.ledger_list.len() {
                assert(pre.ledger_list[i].receive_time <= pre.ledger_list.last().receive_time);
            }
        }
        assert forall|i: int| 0 <= i < vault.ledger_list@.len() implies #[trigger] vault.ledger_list@[i].coin_amount
            > 0 by {
            if i < pre.ledger_list.len() {
                assert(pre.ledger_list[i].coin_amount > 0);
            }
        }
    }
    Ok(())
}

/// The outcome reported when a withdrawal cannot be satisfied: nothing
/// withdrawn, and the unchanged balance observable in the payload.
pub fn get_withdraw_fail_msg(collected: u128) -> (r: WithdrawOutcome)
    ensures
        r == (WithdrawOutcome { success: false, amount_withdrawn: 0, remaining_collected: collected }),
{
    WithdrawOutcome { success: false, amount_withdrawn: 0, remaining_collected: collected }
}

/// Keep only the non-empty ledger entries, preserving their order.
pub fn remove_empty_ledger(ledgers: &mut Vec<Ledger>)
    ensures
        final(ledgers)@ == old(ledgers)@.filter(|l: Ledger| l.coin_amount > 0),
{
    let ghost s = ledgers@;
    let mut kept: Vec<Ledger> = Vec::new();
    let mut i: usize = 0;
    while i < ledgers.len()
        invariant
            i <= ledgers@.len(),
            ledgers@ == s,
            kept@ == s.take(i as int).filter(|l: Ledger| l.coin_amount > 0),
        decreases s.len() - i,
    {
        let l = ledgers[i];
        if l.coin_amount > 0 {
            kept.push(l);
        }
        proof {
            reveal(Seq::filter);
            assert(s.take(i + 1).drop_last() =~= s.take(i as int));
            assert(s.take(i + 1).last() == s[i as int]);
        }
        i = i + 1;
    }
    proof {
        assert(s.take(s.len() as int) =~= s);
    }
    *ledgers = kept;
}

/// Resolve a withdrawal request of `amount` against the vault at time
/// `now`.
///
/// Entries are scanned oldest-first and the scan stops at the first entry
/// still inside the lock window; on a sorted ledger every later entry is
/// at least as recent, so none of them could help. The request succeeds
/// if and only if the eligible prefix covers it. On success the consumed
/// entries leave the ledger — a partially consumed entry keeps its
/// receipt time — and the balance drops by exactly `amount`. On failure
/// the vault is left byte-for-byte unchanged and the outcome carries the
/// unchanged balance.
pub fn attempt_withdraw(vault: &mut Vault, amount: u128, now: u64) -> (r: WithdrawOutcome)
    requires
        old(vault)@.wf(),
    ensures
        final(vault)@.wf(),
        final(vault)@.owner_addr == old(vault)@.owner_addr,
        r.success == (amount as int <= eligible_total(old(vault)@.ledger_list, now)),
        r.success ==> final(vault)@.ledger_list == consume(old(vault)@.ledger_list, amount as int)
            && final(vault)@.collected == old(vault)@.collected - amount && r.amount_withdrawn
            == amount && r.remaining_collected as int == old(vault)@.collected - amount,
        !r.success ==> *final(vault) == *old(vault) && r.amount_withdrawn == 0
            && r.remaining_collected as int == old(vault)@.collected,
{
    let ghost l0 = vault.ledger_list@;
    if amount > vault.collected {
        proof {
            lemma_eligible_total_le_sum(l0, now);
        }
        return get_withdraw_fail_msg(vault.collected);
    }
    let n = vault.ledger_list.len();
    let mut consumed: u128 = 0;
    let mut i: usize = 0;
    let mut rem: u128 = 0;
    let mut rem_time: u64 = 0;
    let mut split: bool = false;
    proof {
        assert(l0.skip(0) =~= l0);
    }
    while i < n
        invariant_except_break
            !split,
        invariant
            vault.ledger_list@ == l0,
            n == l0.len(),
            no_zero(l0),
            sum_amounts(l0) <= u128::MAX,
            i <= n,
            consumed <= amount,
            split ==> consumed == amount && amount as int <= eligible_total(l0, now) && consume(
                l0,
                amount as int,
            ) == (if rem > 0 {
                seq![Ledger { coin_amount: rem, receive_time: rem_time }] + l0.skip(i as int)
            } else {
                l0.skip(i as int)
            }),
            !split ==> sum_amounts(l0) == consumed + sum_amounts(l0.skip(i as int))
                && eligible_total(l0, now) == consumed + eligible_total(l0.skip(i as int), now)
                && consume(l0, amount as int) == consume(l0.skip(i as int), amount - consumed),
        ensures
            split ==> consumed == amount && amount as int <= eligible_total(l0, now) && consume(
                l0,
                amount as int,
            ) == (if rem > 0 {
                seq![Ledger { coin_amount: rem, receive_time: rem_time }] + l0.skip(i as int)
            } else {
                l0.skip(i as int)
            }),
            !split ==> eligible_total(l0, now) == consumed + eligible_total(l0.skip(i as int), now)
                && (i == n || !eligible(l0[i as int], now)) && consume(l0, amount as int)
                == consume(l0.skip(i as int), amount - consumed),
            i <= n,
            consumed <= amount,
        decreases n - i,
    {
        let e = vault.ledger_list[i];
        if !(e.receive_time < now && now - e.receive_time > LOCK_WINDOW) {
            proof {
                assert(!eligible(l0[i as int], now));
            }
            break;
        }
        let need = amount - consumed;
        let ghost g = i as int;
        let ghost cb = consumed;
        proof {
            lemma_skip_unfold(l0, g, now);
        }
        if e.coin_amount >= need {
            rem = e.coin_amount - need;
            rem_time = e.receive_time;
            proof {
                lemma_eligible_total_nonneg(l0.skip(g + 1), now);
                assert(amount as int <= eligible_total(l0, now));
                if need == 0 {
                    assert(consume(l0.skip(g), 0) == l0.skip(g));
                    assert(l0[g].coin_amount > 0);
                    assert(seq![Ledger { coin_amount: rem, receive_time: rem_time }] + l0.skip(
                        g + 1,
                    ) =~= l0.skip(g));
                } else if e.coin_amount == need {
                    assert(consume(l0.skip(g), need as int) == consume(l0.skip(g + 1), 0));
                    assert(consume(l0.skip(g + 1), 0) == l0.skip(g + 1));
                } else {
                    assert(consume(l0.skip(g), need as int) == seq![
                        Ledger { coin_amount: rem, receive_time: rem_time },
                    ] + l0.skip(g + 1));
                }
            }
            consumed = amount;
            split = true;
            i = i + 1;
            break;
        }
        proof {
            crate::state::lemma_sum_nonneg(l0.skip(g + 1));
            assert(consumed + e.coin_amount <= sum_amounts(l0));
            assert(consume(l0.skip(g), amount - cb) == consume(l0.skip(g + 1), amount - (cb
                + e.coin_amount)));
        }
        consumed = consumed + e.coin_amount;
        i = i + 1;
    }
    if consumed != amount {
        proof {
            if i < n {
                lemma_skip_unfold(l0, i as int, now);
            }
            assert(eligible_total(l0, now) == consumed as int);
        }
        return get_withdraw_fail_msg(vault.collected);
    }
    proof {
        if !split {
            lemma_eligible_total_nonneg(l0.skip(i as int), now);
            assert(consume(l0.skip(i as int), 0) == l0.skip(i as int));
        }
    }
    let mut new_ledger: Vec<Ledger> = Vec::new();
    if split && rem > 0 {
        new_ledger.push(Ledger { coin_amount: rem, receive_time: rem_time });
    }
    let ghost pfx = new_ledger@;
    let mut j: usize = i;
    #[verifier::loop_isolation(false)]
    while j < n
        invariant
            i <= j <= n,
            new_ledger@ == pfx + l0.subrange(i as int, j as int),
        decreases n - j,
    {
        new_ledger.push(vault.ledger_list[j]);
        proof {
            assert(pfx + l0.subrange(i as int, j + 1) =~= (pfx + l0.subrange(i as int, j as int)).push(
                l0[j as int],
            ));
        }
        j = j + 1;
    }
    proof {
        assert(l0.subrange(i as int, n as int) =~= l0.skip(i as int));
        if !(split && rem > 0) {
            assert(pfx + l0.skip(i as int) =~= l0.skip(i as int));
        }
        assert(new_ledger@ == consume(l0, amount as int));
        lemma_consume_sum(l0, amount as int);
        lemma_consume_no_zero(l0, amount as int);
        lemma_consume_sorted(l0, amount as int);
    }
    vault.collected = vault.collected - amount;
    vault.ledger_list = new_ledger;
    WithdrawOutcome { success: true, amount_withdrawn: amount, remaining_collected: vault.collected }
}

/// Load the owner's vault, record the deposit on it, and save the result.
/// Each error aborts with the store untouched.
pub fn deposit_vault(
    store: &mut VaultStore,
    addr: &String,
    amount: u128,
    timestamp: u64,
) -> (r: Result<(), ContractError>)
    requires
        old(store).wf(),
        old(store)@.contains_key(addr@) ==> old(store)@[addr@].can_accept(timestamp),
    ensures
        final(store).wf(),
        !old(store)@.contains_key(addr@) ==> r == Err::<(), ContractError>(ContractError::NotFound)
            && *final(store) == *old(store),
        old(store)@.contains_key(addr@) && amount == 0 ==> r == Err::<(), ContractError>(
            ContractError::ValidationError,
        ) && *final(store) == *old(store),
        old(store)@.contains_key(addr@) && amount > 0 && old(store)@[addr@].collected + amount
            > u128::MAX ==> r == Err::<(), ContractError>(ContractError::Overflow) && *final(store)
            == *old(store),
        old(store)@.contains_key(addr@) && amount > 0 && old(store)@[addr@].collected + amount
            <= u128::MAX ==> r == Ok::<(), ContractError>(()) && final(store)@ == old(store)@.insert(addr@, old(store)@[addr@].after_deposit(amount, timestamp)),
{
    proof {
        store.lemma_owner_keys();
    }
    let mut vault = match store.load(addr) {
        Ok(v) => v,
        Err(e) => {
            return Err(e);
        },
    };
    match deposit(&mut vault, amount, timestamp) {
        Ok(u) => {
            store.save_vault(vault);
            Ok(u)
        },
        Err(e) => Err(e),
    }
}

/// Dispatch one inbound operation against the store at time `now`.
/// `sender` is the authenticated caller: vault creation and withdrawal
/// act on the caller's own vault, and a deposit notification is honoured
/// only when it comes from the configured token contract.
pub fn execute(
    store: &mut VaultStore,
    config: &Config,
    sender: String,
    now: u64,
    msg: ExecuteMsg,
) -> (r: Result<ExecResponse, ContractError>)
    requires
        old(store).wf(),
        match msg {
            ExecuteMsg::Receive { amount, msg: rmsg } => old(store)@.contains_key(
                rmsg.vault_owner_addr@,
            ) ==> old(store)@[rmsg.vault_owner_addr@].can_accept(now),
            _ => true,
        },
    ensures
        final(store).wf(),
        match msg {
            ExecuteMsg::CreateVault => {
                if old(store)@.contains_key(sender@) {
                    r matches Ok(resp) && resp matches ExecResponse::VaultAlreadyExists && *final(store) == *old(store)
                } else {
                    r matches Ok(resp) && resp matches ExecResponse::VaultCreated && final(store)@
                        == old(store)@.insert(
                        sender@,
                        (VaultView {
                            owner_addr: sender@,
                            collected: 0,
                            ledger_list: Seq::empty(),
                        }),
                    )
                }
            },
            ExecuteMsg::Withdraw { amount } => {
                if !old(store)@.contains_key(sender@) {
                    r == Err::<ExecResponse, ContractError>(ContractError::NotFound) && *final(store) == *old(store)
                } else {
                    let v = old(store)@[sender@];
                    let ok = amount as int <= eligible_total(v.ledger_list, now);
                    &&& r matches Ok(resp) && resp matches ExecResponse::Withdrawal {
                        outcome,
                        transfer,
                    } && outcome.success == ok && (if ok {
                        &&& final(store)@ == old(store)@.insert(
                            sender@,
                            (VaultView {
                                owner_addr: v.owner_addr,
                                collected: v.collected - amount,
                                ledger_list: consume(v.ledger_list, amount as int),
                            }),
                        )
                        &&& outcome.amount_withdrawn == amount
                        &&& outcome.remaining_collected as int == v.collected - amount
                        &&& transfer matches Some(t) && t.recipient@ == sender@ && t.amount
                            == amount
                    } else {
                        &&& *final(store) == *old(store)
                        &&& outcome.amount_withdrawn == 0
                        &&& outcome.remaining_collected as int == v.collected
                        &&& transfer is None
                    })
                }
            },
            ExecuteMsg::Receive { amount, msg: rmsg } => {
                let key = rmsg.vault_owner_addr@;
                if sender@ != config.cw20_addr@ {
                    r == Err::<ExecResponse, ContractError>(ContractError::Unauthorized) && *final(store) == *old(store)
                } else if !old(store)@.contains_key(key) {
                    r == Err::<ExecResponse, ContractError>(ContractError::NotFound) && *final(store) == *old(store)
                } else if amount == 0 {
                    r == Err::<ExecResponse, ContractError>(ContractError::ValidationError)
                        && *final(store) == *old(store)
                } else if old(store)@[key].collected + amount > u128::MAX {
                    r == Err::<ExecResponse, ContractError>(ContractError::Overflow) && *final(store) == *old(store)
                } else {
                    r matches Ok(resp) && resp matches ExecResponse::Deposited {
                        amount: recorded,
                        timestamp,
                    } && recorded == amount && timestamp == now && final(store)@ == old(store)@.insert(key, old(store)@[key].after_deposit(amount, now))
                }
            },
        },
{
    match msg {
        ExecuteMsg::CreateVault => {
            match store.create(sender) {
                CreateOutcome::AlreadyExists => Ok(ExecResponse::VaultAlreadyExists),
                CreateOutcome::Created => Ok(ExecResponse::VaultCreated),
            }
        },
        ExecuteMsg::Withdraw { amount } => {
            proof {
                store.lemma_owner_keys();
            }
            let mut vault = match store.load(&sender) {
                Ok(v) => v,
                Err(e) => {
                    return Err(e);
                },
            };
            let outcome = attempt_withdraw(&mut vault, amount, now);
            if outcome.success {
                store.save_vault(vault);
                Ok(
                    ExecResponse::Withdrawal {
                        outcome,
                        transfer: Some(TransferInstruction { recipient: sender, amount }),
                    },
                )
            } else {
                Ok(ExecResponse::Withdrawal { outcome, transfer: None })
            }
        },
        ExecuteMsg::Receive { amount, msg: rmsg } => {
            if sender == config.cw20_addr {
                match deposit_vault(store, &rmsg.vault_owner_addr, amount, now) {
                    Ok(_) => Ok(ExecResponse::Deposited { amount, timestamp: now }),
                    Err(e) => Err(e),
                }
            } else {
                Err(ContractError::Unauthorized)
            }
        },
    }
}

/// Report the state of the owner's vault.
pub fn query_vault(store: &VaultStore, addr: &String) -> (r: Result<VaultResponse, ContractError>)
    requires
        store.wf(),
    ensures
        store@.contains_key(addr@) ==> (r matches Ok(resp) && resp.owner_addr@ == store@[addr@].owner_addr
            && resp.collected as int == store@[addr@].collected && resp.ledger_list@
            == store@[addr@].ledger_list),
        !store@.contains_key(addr@) ==> r == Err::<VaultResponse, ContractError>(
            ContractError::NotFound,
        ),
{
    match store.load(addr) {
        Ok(v) => Ok(
            VaultResponse {
                owner_addr: v.owner_addr,
                collected: v.collected,
                ledger_list: v.ledger_list,
            },
        ),
        Err(e) => Err(e),
    }
}

/// Answer one query against the store.
pub fn query(store: &VaultStore, msg: QueryMsg) -> (r: Result<VaultResponse, ContractError>)
    requires
        store.wf(),
    ensures
        match msg {
            QueryMsg::GetVault { vault_owner_addr } => {
                let key = vault_owner_addr@;
                &&& store@.contains_key(key) ==> (r matches Ok(resp) && resp.owner_addr@
                    == store@[key].owner_addr && resp.collected as int == store@[key].collected
                    && resp.ledger_list@ == store@[key].ledger_list)
                &&& !store@.contains_key(key) ==> r == Err::<VaultResponse, ContractError>(
                    ContractError::NotFound,
                )
            },
        },
{
    match msg {
        QueryMsg::GetVault { vault_owner_addr } => query_vault(store, &vault_owner_addr),
    }
}

} // verus!
