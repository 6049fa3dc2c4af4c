//! The laws the ledger algorithm obeys, stated against the same spec
//! functions the operation contracts use. The balance and ordering
//! invariants themselves are carried by `VaultView::wf` in the `ensures`
//! of every operation; the laws here relate whole operations to each
//! other.

use crate::state::{
    consume, eligible, eligible_total, lemma_eligible_total_nonneg, lemma_sum_push,
    sorted_by_time, sum_amounts, Ledger, VaultView, LOCK_WINDOW,
};
use vstd::prelude::*;

verus! {

/// Depositing `a` at time `t` into an empty vault and then withdrawing
/// `a` at any time strictly more than the lock window later succeeds —
/// `a` is covered by the eligible funds — and leaves an empty ledger and
/// a zero balance. Together with [`crate::contract::attempt_withdraw`]'s
/// contract this is the full round trip: deposit, wait, withdraw all.
pub proof fn lemma_deposit_then_withdraw_all(v: VaultView, a: u128, t: u64, now: u64)
    requires
        v.wf(),
        v.ledger_list.len() == 0,
        a > 0,
        now - t > LOCK_WINDOW,
    ensures
        ({
            let d = v.after_deposit(a, t);
            &&& d.wf()
            &&& a as int <= eligible_total(d.ledger_list, now)
            &&& consume(d.ledger_list, a as int) == Seq::<Ledger>::empty()
            &&& d.collected - a == 0
        }),
{
    let e = Ledger { coin_amount: a, receive_time: t };
    let d = v.after_deposit(a, t);
    lemma_sum_push(v.ledger_list, e);
    assert(d.ledger_list =~= seq![e]);
    assert(d.ledger_list.first() == e);
    assert(d.ledger_list.drop_first() =~= Seq::<Ledger>::empty());
    assert(eligible_total(d.ledger_list, now) == a + eligible_total(Seq::<Ledger>::empty(), now));
    assert(consume(d.ledger_list, a as int) == consume(Seq::<Ledger>::empty(), 0));
}

/// After a sole deposit at time `t`, a withdrawal of any positive amount
/// at any time up to the end of the lock window finds no eligible funds
/// at all. By [`crate::contract::attempt_withdraw`]'s contract such a
/// request fails and the vault is left byte-for-byte unchanged.
pub proof fn lemma_locked_withdraw_fails(v: VaultView, a: u128, t: u64, w: u128, now: u64)
    requires
        v.wf(),
        v.ledger_list.len() == 0,
        a > 0,
        w > 0,
        now - t <= LOCK_WINDOW,
    ensures
        ({
            let d = v.after_deposit(a, t);
            &&& eligible_total(d.ledger_list, now) == 0
            &&& !(w as int <= eligible_total(d.ledger_list, now))
        }),
{
    let e = Ledger { coin_amount: a, receive_time: t };
    let d = v.after_deposit(a, t);
    assert(d.ledger_list =~= seq![e]);
    assert(d.ledger_list.first() == e);
    assert(!eligible(e, now));
}

/// A withdrawal that lands strictly inside the oldest entry — the entry
/// is eligible and holds more than the request — reduces that entry's
/// amount by exactly the requested amount and leaves every other entry
/// untouched.
pub proof fn lemma_partial_withdraw_within_entry(s: Seq<Ledger>, w: u128, now: u64)
    requires
        s.len() > 0,
        eligible(s[0], now),
        0 < w < s[0].coin_amount,
    ensures
        w as int <= eligible_total(s, now),
        consume(s, w as int) == seq![
            Ledger {
                coin_amount: (s[0].coin_amount - w) as u128,
                receive_time: s[0].receive_time,
            },
        ] + s.drop_first(),
{
    lemma_eligible_total_nonneg(s.drop_first(), now);
    assert(s.first() == s[0]);
}

/// On a ledger sorted by receipt time, the prefix the withdrawal scan
/// can draw on holds exactly the eligible entries: stopping at the first
/// locked entry forgoes nothing. So a request exceeding the total
/// eligible funds — even when the total collected balance would cover it
/// — fails, and by [`crate::contract::attempt_withdraw`]'s contract the
/// failure leaves the vault unchanged.
pub proof fn lemma_eligible_total_is_all_eligible(s: Seq<Ledger>, now: u64)
    requires
        sorted_by_time(s),
    ensures
        eligible_total(s, now) == sum_amounts(s.filter(|e: Ledger| eligible(e, now))),
    decreases s.len(),
{
    let pred = |e: Ledger| eligible(e, now);
    if s.len() == 0 {
        reveal(Seq::filter);
        assert(sum_amounts(s.filter(pred)) == 0);
    } else if !eligible(s.first(), now) {
        assert forall|j: int| 0 <= j < s.len() implies !pred(#[trigger] s[j]) by {
            assert(s[0].receive_time <= s[j].receive_time);
        }
        lemma_filter_none(s, pred);
    } else {
        assert forall|i: int, j: int|
            0 <= i <= j < s.drop_first().len() implies #[trigger] s.drop_first()[i].receive_time
            <= #[trigger] s.drop_first()[j].receive_time by {
            assert(s.drop_first()[i] == s[i + 1]);
            assert(s.drop_first()[j] == s[j + 1]);
        }
        lemma_eligible_total_is_all_eligible(s.drop_first(), now);
        s.drop_first().lemma_filter_prepend(s.first(), pred);
        assert(seq![s.first()] + s.drop_first() =~= s);
        assert(s.filter(pred) == seq![s.first()] + s.drop_first().filter(pred));
        let f = s.filter(pred);
        assert(f.first() == s.first());
        assert(f.drop_first() =~= s.drop_first().filter(pred));
        assert(sum_amounts(f) == s.first().coin_amount + sum_amounts(s.drop_first().filter(pred)));
    }
}

proof fn lemma_filter_none(s: Seq<Ledger>, pred: spec_fn(Ledger) -> bool)
    requires
        forall|j: int| 0 <= j < s.len() ==> !pred(#[trigger] s[j]),
    ensures
        s.filter(pred) == Seq::<Ledger>::empty(),
    decreases s.len(),
{
    reveal(Seq::filter);
    if s.len() > 0 {
        lemma_filter_none(s.drop_last(), pred);
    }
}

} // verus!
