use crate::error::ContractError;
use vstd::prelude::*;

verus! {

/// Minimum age, in time units, that a ledger entry must exceed before it
/// becomes eligible for withdrawal. An age of exactly `LOCK_WINDOW` is
/// still locked.
pub const LOCK_WINDOW: u64 = 60;

/// One recorded deposit: an amount and the time it was received.
#[derive(Clone, Copy, Debug, PartialEq, Eq, Structural)]
pub struct Ledger {
    pub coin_amount: u128,
    pub receive_time: u64,
}

/// The singleton configuration: the instantiating owner and the address of
/// the token contract whose notifications are trusted.
#[derive(Debug)]
pub struct Config {
    pub owner: String,
    pub cw20_addr: String,
}

/// A per-owner vault: the collected balance and the ordered ledger of
/// deposit entries backing it.
#[derive(Debug)]
pub struct Vault {
    pub owner_addr: String,
    pub collected: u128,
    pub ledger_list: Vec<Ledger>,
}

/// The mathematical value of a [`Vault`].
pub ghost struct VaultView {
    pub owner_addr: Seq<char>,
    pub collected: int,
    pub ledger_list: Seq<Ledger>,
}

/// The sum of the entry amounts of a ledger.
pub open spec fn sum_amounts(s: Seq<Ledger>) -> int
    decreases s.len(),
{
    if s.len() == 0 {
        0
    } else {
        s.first().coin_amount + sum_amounts(s.drop_first())
    }
}

/// The ledger is ordered by receipt time, oldest first.
pub open spec fn sorted_by_time(s: Seq<Ledger>) -> bool {
    forall|i: int, j: int|
        0 <= i <= j < s.len() ==> #[trigger] s[i].receive_time <= #[trigger] s[j].receive_time
}

/// No entry of the ledger is empty.
pub open spec fn no_zero(s: Seq<Ledger>) -> bool {
    forall|i: int| 0 <= i < s.len() ==> #[trigger] s[i].coin_amount > 0
}

impl VaultView {
    /// The invariant that holds of every vault at rest: the collected
    /// balance equals the sum of the ledger, the ledger is sorted by
    /// receipt time, and no entry is empty.
    pub open spec fn wf(self) -> bool {
        &&& self.collected == sum_amounts(self.ledger_list)
        &&& sorted_by_time(self.ledger_list)
        &&& no_zero(self.ledger_list)
        &&& 0 <= self.collected <= u128::MAX
    }

    /// The time source is monotonic: a new entry may not be older than the
    /// newest entry already on the ledger.
    pub open spec fn can_accept(self, timestamp: u64) -> bool {
        self.ledger_list.len() == 0 || self.ledger_list.last().receive_time <= timestamp
    }

    /// The vault after a deposit of `amount` received at `timestamp`.
    pub open spec fn after_deposit(self, amount: u128, timestamp: u64) -> VaultView {
        VaultView {
            owner_addr: self.owner_addr,
            collected: self.collected + amount,
            ledger_list: self.ledger_list.push(
                Ledger { coin_amount: amount, receive_time: timestamp },
            ),
        }
    }
}

impl View for Vault {
    type V = VaultView;

    open spec fn view(&self) -> VaultView {
        VaultView {
            owner_addr: self.owner_addr@,
            collected: self.collected as int,
            ledger_list: self.ledger_list@,
        }
    }
}

impl Clone for Vault {
    /// A deep copy with the same mathematical value.
    fn clone(&self) -> (r: Self)
        ensures
            r@ == self@,
    {
        Vault {
            owner_addr: self.owner_addr.clone(),
            collected: self.collected,
            ledger_list: clone_ledger_list(&self.ledger_list),
        }
    }
}

fn clone_ledger_list(s: &Vec<Ledger>) -> (r: Vec<Ledger>)
    ensures
        r@ == s@,
{
    let mut r: Vec<Ledger> = Vec::new();
    let mut i: usize = 0;
    while i < s.len()
        invariant
            i <= s.len(),
            r@ == s@.take(i as int),
        decreases s.len() - i,
    {
        r.push(s[i]);
        proof {
            assert(s@.take(i + 1 as int) =~= s@.take(i as int).push(s@[i as int]));
        }
        i = i + 1;
    }
    proof {
        assert(s@.take(s@.len() as int) =~= s@);
    }
    r
}

/// An entry is eligible for withdrawal exactly when its age at `now`
/// strictly exceeds the lock window.
pub open spec fn eligible(e: Ledger, now: u64) -> bool {
    now - e.receive_time > LOCK_WINDOW
}

/// The funds a withdrawal at `now` can draw on: the amounts of the
/// longest prefix of eligible entries. The scan stops at the first entry
/// still locked; on a ledger sorted by receipt time that prefix holds
/// every eligible entry.
pub open spec fn eligible_total(s: Seq<Ledger>, now: u64) -> int
    decreases s.len(),
{
    if s.len() == 0 {
        0
    } else if !eligible(s.first(), now) {
        0
    } else {
        s.first().coin_amount + eligible_total(s.drop_first(), now)
    }
}

/// The ledger after `amount` has been drawn from it, oldest entry first.
/// Entries drained to zero leave the ledger; an entry met partway is
/// reduced and keeps its receipt time.
pub open spec fn consume(s: Seq<Ledger>, amount: int) -> Seq<Ledger>
    decreases s.len(),
{
    if amount <= 0 {
        s
    } else if s.len() == 0 {
        s
    } else if s.first().coin_amount <= amount {
        consume(s.drop_first(), amount - s.first().coin_amount)
    } else {
        seq![
            Ledger {
                coin_amount: (s.first().coin_amount - amount) as u128,
                receive_time: s.first().receive_time,
            },
        ] + s.drop_first()
    }
}

pub proof fn lemma_sum_nonneg(s: Seq<Ledger>)
    ensures
        sum_amounts(s) >= 0,
    decreases s.len(),
{
    if s.len() > 0 {
        lemma_sum_nonneg(s.drop_first());
    }
}

pub proof fn lemma_sum_push(s: Seq<Ledger>, e: Ledger)
    ensures
        sum_amounts(s.push(e)) == sum_amounts(s) + e.coin_amount,
    decreases s.len(),
{
    assert(sum_amounts(s.push(e)) == s.push(e).first().coin_amount + sum_amounts(
        s.push(e).drop_first(),
    ));
    if s.len() == 0 {
        assert(s.push(e).first() == e);
        assert(s.push(e).drop_first() =~= Seq::<Ledger>::empty());
        assert(sum_amounts(Seq::<Ledger>::empty()) == 0);
    } else {
        assert(s.push(e).first() == s.first());
        assert(s.push(e).drop_first() =~= s.drop_first().push(e));
        lemma_sum_push(s.drop_first(), e);
    }
}

pub proof fn lemma_eligible_total_nonneg(s: Seq<Ledger>, now: u64)
    ensures
        eligible_total(s, now) >= 0,
    decreases s.len(),
{
    if s.len() > 0 {
        lemma_eligible_total_nonneg(s.drop_first(), now);
    }
}

pub proof fn lemma_eligible_total_le_sum(s: Seq<Ledger>, now: u64)
    ensures
        eligible_total(s, now) <= sum_amounts(s),
    decreases s.len(),
{
    if s.len() > 0 {
        lemma_eligible_total_le_sum(s.drop_first(), now);
        lemma_sum_nonneg(s.drop_first());
    }
}

/// Unfolds the ledger sums one entry at a time, the shape the withdrawal
/// scan walks them in.
pub proof fn lemma_skip_unfold(s: Seq<Ledger>, i: int, now: u64)
    requires
        0 <= i < s.len(),
    ensures
        s.skip(i).len() == s.len() - i,
        s.skip(i).first() == s[i],
        s.skip(i).drop_first() == s.skip(i + 1),
        sum_amounts(s.skip(i)) == s[i].coin_amount + sum_amounts(s.skip(i + 1)),
        eligible(s[i], now) ==> eligible_total(s.skip(i), now) == s[i].coin_amount
            + eligible_total(s.skip(i + 1), now),
        !eligible(s[i], now) ==> eligible_total(s.skip(i), now) == 0,
{
    assert(s.skip(i).first() == s[i]);
    assert(s.skip(i).drop_first() =~= s.skip(i + 1));
}

pub proof fn lemma_consume_sum(s: Seq<Ledger>, a: int)
    requires
        0 <= a <= sum_amounts(s),
    ensures
        sum_amounts(consume(s, a)) == sum_amounts(s) - a,
    decreases s.len(),
{
    if a <= 0 {
    } else if s.len() == 0 {
    } else if s.first().coin_amount <= a {
        lemma_consume_sum(s.drop_first(), a - s.first().coin_amount);
    } else {
        let e = Ledger {
            coin_amount: (s.first().coin_amount - a) as u128,
            receive_time: s.first().receive_time,
        };
        assert((seq![e] + s.drop_first()).first() == e);
        assert((seq![e] + s.drop_first()).drop_first() =~= s.drop_first());
    }
}

pub proof fn lemma_consume_no_zero(s: Seq<Ledger>, a: int)
    requires
        no_zero(s),
    ensures
        no_zero(consume(s, a)),
    decreases s.len(),
{
    if a <= 0 || s.len() == 0 {
    } else {
        assert forall|j: int| 0 <= j < s.drop_first().len() implies #[trigger] s.drop_first()[j].coin_amount
            > 0 by {
            assert(s.drop_first()[j] == s[j + 1]);
        }
        if s.first().coin_amount <= a {
            lemma_consume_no_zero(s.drop_first(), a - s.first().coin_amount);
        } else {
            let r = consume(s, a);
            assert(r[0].coin_amount > 0);
            assert forall|j: int| 0 <= j < r.len() implies #[trigger] r[j].coin_amount > 0 by {
                if j > 0 {
                    assert(r[j] == s.drop_first()[j - 1]);
                }
            }
        }
    }
}

pub proof fn lemma_consume_sorted(s: Seq<Ledger>, a: int)
    requires
        sorted_by_time(s),
    ensures
        sorted_by_time(consume(s, a)),
    decreases s.len(),
{
    if a <= 0 || s.len() == 0 {
    } else {
        assert forall|i: int, j: int|
            0 <= i <= j < s.drop_first().len() implies #[trigger] s.drop_first()[i].receive_time
            <= #[trigger] s.drop_first()[j].receive_time by {
            assert(s.drop_first()[i] == s[i + 1]);
            assert(s.drop_first()[j] == s[j + 1]);
        }
        if s.first().coin_amount <= a {
            lemma_consume_sorted(s.drop_first(), a - s.first().coin_amount);
        } else {
            let r = consume(s, a);
            assert forall|i: int, j: int|
                0 <= i <= j < r.len() implies #[trigger] r[i].receive_time
                <= #[trigger] r[j].receive_time by {
                if i > 0 {
                    assert(r[i] == s[i]);
                }
                if j > 0 {
                    assert(r[j] == s[j]);
                }
                assert(s[0].receive_time <= s[j].receive_time);
            }
        }
    }
}

/// The keyed repository of vaults: one slot per owner, get/put semantics,
/// no partial writes. Its mathematical value is the map from owner
/// identity to vault value.
pub struct VaultStore {
    vaults: Vec<Vault>,
}

/// Owners are pairwise distinct, so each owner names at most one slot.
pub open spec fn unique_owners(s: Seq<Vault>) -> bool {
    forall|i: int, j: int|
        0 <= i < j < s.len() ==> #[trigger] s[i].owner_addr@ != #[trigger] s[j].owner_addr@
}

/// The map from owner identity to vault value that a sequence of vaults
/// represents.
pub open spec fn store_map(s: Seq<Vault>) -> Map<Seq<char>, VaultView>
    decreases s.len(),
{
    if s.len() == 0 {
        Map::empty()
    } else {
        store_map(s.drop_last()).insert(s.last().owner_addr@, s.last()@)
    }
}

impl View for VaultStore {
    type V = Map<Seq<char>, VaultView>;

    closed spec fn view(&self) -> Map<Seq<char>, VaultView> {
        store_map(self.vaults@)
    }
}

impl VaultStore {
    /// Every slot holds a well-formed vault and owners are distinct.
    pub closed spec fn wf(self) -> bool {
        &&& unique_owners(self.vaults@)
        &&& forall|i: int| 0 <= i < self.vaults@.len() ==> (#[trigger] self.vaults@[i])@.wf()
    }

    /// An empty store.
    pub fn new() -> (r: VaultStore)
        ensures
            r.wf(),
            r@ == Map::<Seq<char>, VaultView>::empty(),
    {
        VaultStore { vaults: Vec::new() }
    }

    fn find_vault(&self, owner: &String) -> (r: Option<usize>)
        ensures
            match r {
                Option::Some(i) => i < self.vaults@.len() && self.vaults@[i as int].owner_addr@
                    == owner@,
                Option::None => forall|j: int|
                    0 <= j < self.vaults@.len() ==> (#[trigger] self.vaults@[j]).owner_addr@
                        != owner@,
            },
    {
        let mut i: usize = 0;
        while i < self.vaults.len()
            invariant
                i <= self.vaults@.len(),
                forall|j: int| 0 <= j < i ==> (#[trigger] self.vaults@[j]).owner_addr@ != owner@,
            decreases self.vaults@.len() - i,
        {
            if self.vaults[i].owner_addr == *owner {
                return Option::Some(i);
            }
            i = i + 1;
        }
        Option::None
    }

    /// Look the owner's vault up, returning a copy of its record.
    pub fn load(&self, owner: &String) -> (r: Result<Vault, ContractError>)
        requires
            self.wf(),
        ensures
            self@.contains_key(owner@) ==> (r matches Ok(v) && v@ == self@[owner@] && v@.wf()),
            !self@.contains_key(owner@) ==> r == Err::<Vault, ContractError>(
                ContractError::NotFound,
            ),
    {
        proof {
            lemma_store_map_key(self.vaults@, owner@);
        }
        match self.find_vault(owner) {
            Option::Some(i) => {
                proof {
                    lemma_store_map_get(self.vaults@, i as int);
                }
                Ok(self.vaults[i].clone())
            },
            Option::None => Err(ContractError::NotFound),
        }
    }

    /// Create a vault for `owner` with nothing collected. When the owner
    /// already has one, nothing changes and the existing vault is
    /// reported.
    pub fn create(&mut self, owner: String) -> (r: CreateOutcome)
        requires
            old(self).wf(),
        ensures
            final(self).wf(),
            old(self)@.contains_key(owner@) ==> r == CreateOutcome::AlreadyExists && *final(self)
                == *old(self),
            !old(self)@.contains_key(owner@) ==> r == CreateOutcome::Created && final(self)@ == old(
                self,
            )@.insert(
                owner@,
                VaultView { owner_addr: owner@, collected: 0, ledger_list: Seq::empty() },
            ),
    {
        proof {
            lemma_store_map_key(self.vaults@, owner@);
        }
        match self.find_vault(&owner) {
            Option::Some(_) => CreateOutcome::AlreadyExists,
            Option::None => {
                let ghost s0 = self.vaults@;
                let v = Vault { owner_addr: owner, collected: 0, ledger_list: Vec::new() };
                proof {
                    lemma_store_map_push(s0, v);
                }
                self.vaults.push(v);
                proof {
                    assert forall|i: int, j: int|
                        0 <= i < j < self.vaults@.len() implies (#[trigger] self.vaults@[i]).owner_addr@
                        != (#[trigger] self.vaults@[j]).owner_addr@ by {
                        if j == s0.len() {
                            assert(self.vaults@[i] == s0[i]);
                        } else {
                            assert(self.vaults@[i] == s0[i]);
                            assert(self.vaults@[j] == s0[j]);
                        }
                    }
                    assert(sum_amounts(Seq::<Ledger>::empty()) == 0);
                    assert forall|i: int| 0 <= i < self.vaults@.len() implies (
                    #[trigger] self.vaults@[i])@.wf() by {
                        if i < s0.len() {
                            assert(self.vaults@[i] == s0[i]);
                        }
                    }
                }
                CreateOutcome::Created
            },
        }
    }

    /// Replace the owner's stored vault wholesale, inserting it when the
    /// slot is empty.
    pub fn save_vault(&mut self, vault: Vault)
        requires
            old(self).wf(),
            vault@.wf(),
        ensures
            final(self).wf(),
            final(self)@ == old(self)@.insert(vault.owner_addr@, vault@),
    {
        let ghost s0 = self.vaults@;
        match self.find_vault(&vault.owner_addr) {
            Option::Some(i) => {
                proof {
                    lemma_store_map_update(s0, i as int, vault);
                }
                self.vaults[i] = vault;
                proof {
                    assert(self.vaults@ == s0.update(i as int, vault));
                    assert forall|p: int, q: int|
                        0 <= p < q < self.vaults@.len() implies (#[trigger] self.vaults@[p]).owner_addr@
                        != (#[trigger] self.vaults@[q]).owner_addr@ by {
                        assert(s0[p].owner_addr@ != s0[q].owner_addr@);
                    }
                    assert forall|p: int| 0 <= p < self.vaults@.len() implies (
                    #[trigger] self.vaults@[p])@.wf() by {
                        if p != i {
                            assert(self.vaults@[p] == s0[p]);
                        }
                    }
                }
            },
            Option::None => {
                proof {
                    lemma_store_map_push(s0, vault);
                }
                self.vaults.push(vault);
                proof {
                    assert forall|p: int, q: int|
                        0 <= p < q < self.vaults@.len() implies (#[trigger] self.vaults@[p]).owner_addr@
                        != (#[trigger] self.vaults@[q]).owner_addr@ by {
                        if q == s0.len() {
                            assert(self.vaults@[p] == s0[p]);
                        } else {
                            assert(self.vaults@[p] == s0[p]);
                            assert(self.vaults@[q] == s0[q]);
                        }
                    }
                    assert forall|p: int| 0 <= p < self.vaults@.len() implies (
                    #[trigger] self.vaults@[p])@.wf() by {
                        if p < s0.len() {
                            assert(self.vaults@[p] == s0[p]);
                        }
                    }
                }
            },
        }
    }
}

impl VaultStore {
    /// Every slot is keyed by the identity of the vault it holds.
    pub proof fn lemma_owner_keys(&self)
        ensures
            forall|o: Seq<char>| #[trigger] self@.contains_key(o) ==> self@[o].owner_addr == o,
    {
        lemma_store_map_owner(self.vaults@);
    }
}

proof fn lemma_store_map_owner(s: Seq<Vault>)
    ensures
        forall|o: Seq<char>| #[trigger] store_map(s).contains_key(o) ==> store_map(s)[o].owner_addr
            == o,
    decreases s.len(),
{
    if s.len() > 0 {
        lemma_store_map_owner(s.drop_last());
        assert forall|o: Seq<char>| #[trigger] store_map(s).contains_key(o) implies store_map(
            s,
        )[o].owner_addr == o by {
            if o != s.last().owner_addr@ {
                assert(store_map(s.drop_last()).contains_key(o));
            }
        }
    }
}

/// Outcome of a vault-creation request.
#[derive(Clone, Copy, Debug, PartialEq, Eq, Structural)]
pub enum CreateOutcome {
    Created,
    AlreadyExists,
}

pub proof fn lemma_store_map_key(s: Seq<Vault>, o: Seq<char>)
    ensures
        store_map(s).contains_key(o) <==> (exists|i: int|
            0 <= i < s.len() && (#[trigger] s[i]).owner_addr@ == o),
    decreases s.len(),
{
    if s.len() > 0 {
        lemma_store_map_key(s.drop_last(), o);
        if s.last().owner_addr@ == o {
            assert((s[s.len() - 1]).owner_addr@ == o);
        } else {
            if store_map(s).contains_key(o) {
                let i = choose|i: int|
                    0 <= i < s.drop_last().len() && (#[trigger] s.drop_last()[i]).owner_addr@ == o;
                assert((s[i]).owner_addr@ == o);
            }
            if exists|i: int| 0 <= i < s.len() && (#[trigger] s[i]).owner_addr@ == o {
                let i = choose|i: int| 0 <= i < s.len() && (#[trigger] s[i]).owner_addr@ == o;
                assert(i < s.len() - 1);
                assert((s.drop_last()[i]).owner_addr@ == o);
            }
        }
    }
}

pub proof fn lemma_store_map_get(s: Seq<Vault>, i: int)
    requires
        0 <= i < s.len(),
        unique_owners(s),
    ensures
        store_map(s).contains_key(s[i].owner_addr@),
        store_map(s)[s[i].owner_addr@] == s[i]@,
    decreases s.len(),
{
    if i == s.len() - 1 {
        assert(s.last() == s[i]);
    } else {
        assert forall|p: int, q: int|
            0 <= p < q < s.drop_last().len() implies (#[trigger] s.drop_last()[p]).owner_addr@ != (
        #[trigger] s.drop_last()[q]).owner_addr@ by {
            assert(s[p].owner_addr@ != s[q].owner_addr@);
        }
        lemma_store_map_get(s.drop_last(), i);
        assert(s.drop_last()[i] == s[i]);
        assert(s.last().owner_addr@ != s[i].owner_addr@);
    }
}

pub proof fn lemma_store_map_push(s: Seq<Vault>, v: Vault)
    ensures
        store_map(s.push(v)) == store_map(s).insert(v.owner_addr@, v@),
{
    assert(s.push(v).drop_last() =~= s);
    assert(s.push(v).last() == v);
}

pub proof fn lemma_store_map_update(s: Seq<Vault>, i: int, v: Vault)
    requires
        0 <= i < s.len(),
        unique_owners(s),
        v.owner_addr@ == s[i].owner_addr@,
    ensures
        store_map(s.update(i, v)) == store_map(s).insert(v.owner_addr@, v@),
    decreases s.len(),
{
    let t = s.update(i, v);
    if i == s.len() - 1 {
        assert(t.drop_last() =~= s.drop_last());
        assert(t.last() == v);
        assert(store_map(s).insert(v.owner_addr@, v@) =~= store_map(s.drop_last()).insert(
            v.owner_addr@,
            v@,
        ));
    } else {
        assert(t.drop_last() =~= s.drop_last().update(i, v));
        assert(t.last() == s.last());
        assert forall|p: int, q: int|
            0 <= p < q < s.drop_last().len() implies (#[trigger] s.drop_last()[p]).owner_addr@ != (
        #[trigger] s.drop_last()[q]).owner_addr@ by {
            assert(s[p].owner_addr@ != s[q].owner_addr@);
        }
        assert(s.drop_last()[i] == s[i]);
        lemma_store_map_update(s.drop_last(), i, v);
        assert(s.last().owner_addr@ != v.owner_addr@);
        assert(store_map(s.drop_last()).insert(v.owner_addr@, v@).insert(
            s.last().owner_addr@,
            s.last()@,
        ) =~= store_map(s.drop_last()).insert(s.last().owner_addr@, s.last()@).insert(
            v.owner_addr@,
            v@,
        ));
    }
}

} // verus!
