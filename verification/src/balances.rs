//! The currency in which bets are placed: each account's free balance and
//! the part of its funds that is reserved, with the operations that the
//! bets pallet uses to reserve funds and pay them out.
use vstd::prelude::*;
use std::collections::HashMap;
use crate::types::{AccountId, Balance, BalanceStatus, BalancesError, DispatchError};

verus! {

broadcast use vstd::std_specs::hash::group_hash_axioms;

/// The funds of one account.
#[derive(Clone, Copy, Debug, PartialEq, Eq, Structural)]
pub struct AccountData {
    /// Funds that the account may spend or reserve.
    pub free: Balance,
    /// Funds held for a purpose, such as a bet, that the account cannot spend.
    pub reserved: Balance,
}

/// The accounts of the chain and their funds. The total issuance is the
/// sum of the funds of all accounts, each counted once.
pub struct Balances {
    accounts: HashMap<AccountId, AccountData>,
    total_issuance: Balance,
    /// The accounts, each listed once, in the order they were opened.
    ids: Ghost<Seq<AccountId>>,
}

/// The free balance of `who`; an account that does not exist has none.
pub open spec fn free_of(m: Map<AccountId, AccountData>, who: AccountId) -> int {
    if m.contains_key(who) { m[who].free as int } else { 0 }
}

/// The reserved balance of `who`; an account that does not exist has none.
pub open spec fn reserved_of(m: Map<AccountId, AccountData>, who: AccountId) -> int {
    if m.contains_key(who) { m[who].reserved as int } else { 0 }
}

/// All the funds of `who`, free and reserved.
pub open spec fn total_of(m: Map<AccountId, AccountData>, who: AccountId) -> int {
    free_of(m, who) + reserved_of(m, who)
}

/// The smaller of `a` and `b`.
pub open spec fn min_int(a: int, b: int) -> int {
    if a <= b { a } else { b }
}

/// The accounts `m` with the funds of `who` set to `free` and `reserved`.
pub open spec fn with_account(
    m: Map<AccountId, AccountData>,
    who: AccountId,
    free: int,
    reserved: int,
) -> Map<AccountId, AccountData> {
    m.insert(who, AccountData { free: free as u64, reserved: reserved as u64 })
}

/// Reserving `value` of the free balance of `who`: a zero value changes
/// nothing; a free balance below `value` is refused; otherwise the value
/// moves from the free to the reserved balance.
pub open spec fn reserve_spec(m: Map<AccountId, AccountData>, who: AccountId, value: Balance) -> (
    Result<(), DispatchError>,
    Map<AccountId, AccountData>,
) {
    if value == 0 {
        (Ok(()), m)
    } else if free_of(m, who) < value {
        (Err(DispatchError::Balances(BalancesError::InsufficientBalance)), m)
    } else if reserved_of(m, who) + value > u64::MAX {
        (Err(DispatchError::Balances(BalancesError::Overflow)), m)
    } else {
        (
            Ok(()),
            with_account(m, who, free_of(m, who) - value, reserved_of(m, who) + value),
        )
    }
}

/// Moving up to `value` of the reserved balance of `who` back to its free
/// balance; the result is the part of `value` that was not reserved.
pub open spec fn unreserve_spec(m: Map<AccountId, AccountData>, who: AccountId, value: Balance) -> (
    Balance,
    Map<AccountId, AccountData>,
) {
    if value == 0 || !m.contains_key(who) {
        (value, m)
    } else {
        let actual = min_int(value as int, reserved_of(m, who));
        let free = if free_of(m, who) + actual > u64::MAX {
            u64::MAX as int
        } else {
            free_of(m, who) + actual
        };
        ((value - actual) as u64, with_account(m, who, free, reserved_of(m, who) - actual))
    }
}

/// Moving up to `value` of the reserved balance of `slashed` to the free or
/// reserved balance of `beneficiary`, which must exist; the result is the
/// part of `value` that was not moved.
pub open spec fn repatriate_spec(
    m: Map<AccountId, AccountData>,
    slashed: AccountId,
    beneficiary: AccountId,
    value: Balance,
    status: BalanceStatus,
) -> (Result<Balance, DispatchError>, Map<AccountId, AccountData>) {
    let actual = min_int(value as int, reserved_of(m, slashed));
    if value == 0 {
        (Ok(0), m)
    } else if slashed == beneficiary {
        match status {
            BalanceStatus::Free => {
                let (rest, m2) = unreserve_spec(m, slashed, value);
                (Ok(rest), m2)
            },
            BalanceStatus::Reserved => (Ok((value - actual) as u64), m),
        }
    } else if !m.contains_key(beneficiary) {
        (Err(DispatchError::Balances(BalancesError::DeadAccount)), m)
    } else {
        match status {
            BalanceStatus::Free => if free_of(m, beneficiary) + actual > u64::MAX {
                (Err(DispatchError::Balances(BalancesError::Overflow)), m)
            } else {
                let m1 = if m.contains_key(slashed) {
                    with_account(m, slashed, free_of(m, slashed), reserved_of(m, slashed) - actual)
                } else {
                    m
                };
                (
                    Ok((value - actual) as u64),
                    with_account(
                        m1,
                        beneficiary,
                        free_of(m, beneficiary) + actual,
                        reserved_of(m, beneficiary),
                    ),
                )
            },
            BalanceStatus::Reserved => if reserved_of(m, beneficiary) + actual > u64::MAX {
                (Err(DispatchError::Balances(BalancesError::Overflow)), m)
            } else {
                let m1 = if m.contains_key(slashed) {
                    with_account(m, slashed, free_of(m, slashed), reserved_of(m, slashed) - actual)
                } else {
                    m
                };
                (
                    Ok((value - actual) as u64),
                    with_account(
                        m1,
                        beneficiary,
                        free_of(m, beneficiary),
                        reserved_of(m, beneficiary) + actual,
                    ),
                )
            },
        }
    }
}

/// The sum of the funds, free and reserved, of the accounts `ids` in `m`.
pub open spec fn totals_sum(m: Map<AccountId, AccountData>, ids: Seq<AccountId>) -> int
    decreases ids.len(),
{
    if ids.len() == 0 {
        0
    } else {
        totals_sum(m, ids.drop_last()) + total_of(m, ids.last())
    }
}

/// The accounts of `endowed`, in order.
pub open spec fn endowed_ids(endowed: Seq<(AccountId, Balance)>) -> Seq<AccountId>
    decreases endowed.len(),
{
    if endowed.len() == 0 {
        Seq::empty()
    } else {
        endowed_ids(endowed.drop_last()).push(endowed.last().0)
    }
}

/// The accounts of `endowed` are its entries' accounts, one for each.
proof fn lemma_endowed_ids(endowed: Seq<(AccountId, Balance)>)
    ensures
        endowed_ids(endowed).len() == endowed.len(),
        forall|k: int| 0 <= k < endowed.len() ==> #[trigger] endowed_ids(endowed)[k] == endowed[k].0,
    decreases endowed.len(),
{
    if endowed.len() > 0 {
        lemma_endowed_ids(endowed.drop_last());
        let p = endowed_ids(endowed.drop_last());
        assert forall|k: int| 0 <= k < endowed.len() implies #[trigger] endowed_ids(endowed)[k]
            == endowed[k].0 by {
            if k < endowed.len() - 1 {
                assert(endowed_ids(endowed)[k] == p[k]);
                assert(endowed.drop_last()[k] == endowed[k]);
            }
        }
    }
}

/// Whether `a` is one of `ids`: the same as being the last or one of the
/// others.
proof fn lemma_contains_last(ids: Seq<AccountId>, a: AccountId)
    requires
        ids.len() > 0,
    ensures
        ids.contains(a) <==> (ids.drop_last().contains(a) || ids.last() == a),
        ids.no_duplicates() ==> ids.drop_last().no_duplicates(),
        ids.no_duplicates() ==> !ids.drop_last().contains(ids.last()),
{
    let p = ids.drop_last();
    if ids.contains(a) {
        let k = choose|k: int| 0 <= k < ids.len() && ids[k] == a;
        if k < ids.len() - 1 {
            assert(p[k] == a);
        }
    }
    if p.contains(a) {
        let k = choose|k: int| 0 <= k < p.len() && p[k] == a;
        assert(ids[k] == a);
    }
    if ids.no_duplicates() {
        assert forall|i: int, j: int| 0 <= i < p.len() && 0 <= j < p.len() && i != j implies p[i]
            != p[j] by {
            assert(p[i] == ids[i] && p[j] == ids[j]);
        }
        if p.contains(ids.last()) {
            let k = choose|k: int| 0 <= k < p.len() && p[k] == ids.last();
            assert(ids[k] == ids[ids.len() - 1]);
        }
    }
}

/// Setting the funds of `a` to `d` changes the sum over `ids` by the
/// change of `a`'s funds, when `a` is one of them, and not otherwise.
proof fn lemma_totals_sum_insert(
    m: Map<AccountId, AccountData>,
    ids: Seq<AccountId>,
    a: AccountId,
    d: AccountData,
)
    requires
        ids.no_duplicates(),
    ensures
        totals_sum(m.insert(a, d), ids) == totals_sum(m, ids) + (if ids.contains(a) {
            d.free + d.reserved - total_of(m, a)
        } else {
            0
        }),
    decreases ids.len(),
{
    if ids.len() > 0 {
        lemma_contains_last(ids, a);
        lemma_totals_sum_insert(m, ids.drop_last(), a, d);
    }
}

/// The funds of an account among `ids`, and of two of them, are at most
/// the sum over `ids`.
proof fn lemma_total_le_sum(m: Map<AccountId, AccountData>, ids: Seq<AccountId>, a: AccountId, b: AccountId)
    requires
        ids.no_duplicates(),
        ids.contains(a),
    ensures
        total_of(m, a) <= totals_sum(m, ids),
        b != a && ids.contains(b) ==> total_of(m, a) + total_of(m, b) <= totals_sum(m, ids),
    decreases ids.len(),
{
    let p = ids.drop_last();
    lemma_contains_last(ids, a);
    lemma_contains_last(ids, b);
    lemma_totals_sum_nonneg(m, p);
    if ids.last() == a {
        if b != a && ids.contains(b) {
            lemma_total_le_sum(m, p, b, b);
        }
    } else {
        lemma_total_le_sum(m, p, a, b);
    }
}

/// A sum of funds is not negative.
proof fn lemma_totals_sum_nonneg(m: Map<AccountId, AccountData>, ids: Seq<AccountId>)
    ensures
        totals_sum(m, ids) >= 0,
    decreases ids.len(),
{
    if ids.len() > 0 {
        lemma_totals_sum_nonneg(m, ids.drop_last());
    }
}

/// The sum of the amounts in `endowed`.
pub open spec fn endowment_sum(endowed: Seq<(AccountId, Balance)>) -> int
    decreases endowed.len(),
{
    if endowed.len() == 0 {
        0
    } else {
        endowment_sum(endowed.drop_last()) + endowed.last().1
    }
}

/// The accounts that `endowed` opens, each with its amount free.
pub open spec fn endowed_map(endowed: Seq<(AccountId, Balance)>) -> Map<AccountId, AccountData>
    decreases endowed.len(),
{
    if endowed.len() == 0 {
        Map::empty()
    } else {
        endowed_map(endowed.drop_last()).insert(
            endowed.last().0,
            AccountData { free: endowed.last().1, reserved: 0 },
        )
    }
}

impl View for Balances {
    type V = Map<AccountId, AccountData>;

    closed spec fn view(&self) -> Map<AccountId, AccountData> {
        self.accounts@
    }
}

impl Balances {
    /// The accounts are listed once each, and the total issuance is the sum
    /// of their funds.
    #[verifier::type_invariant]
    spec fn consistent(self) -> bool {
        &&& self.ids@.no_duplicates()
        &&& forall|a: AccountId| #[trigger] self.accounts@.contains_key(a) <==> self.ids@.contains(a)
        &&& self.total_issuance == totals_sum(self.accounts@, self.ids@)
    }

    /// The total of all funds.
    pub closed spec fn issuance(&self) -> Balance {
        self.total_issuance
    }

    /// The accounts, each listed once, in the order they were opened.
    pub closed spec fn account_ids(&self) -> Seq<AccountId> {
        self.ids@
    }

    /// Opens the accounts of `endowed`, each with its amount free; no
    /// account may be endowed twice. The total issuance is the sum of the
    /// amounts, which must fit in a `Balance`.
    pub fn new(endowed: &Vec<(AccountId, Balance)>) -> (r: Balances)
        requires
            endowed_ids(endowed@).no_duplicates(),
            endowment_sum(endowed@) <= u64::MAX,
        ensures
            r@ == endowed_map(endowed@),
            r.account_ids() == endowed_ids(endowed@),
            r.issuance() == endowment_sum(endowed@),
    {
        let mut accounts: HashMap<AccountId, AccountData> = HashMap::new();
        let mut total: u64 = 0;
        let mut i: usize = 0;
        proof {
            lemma_endowed_ids(endowed@);
            assert(endowed@.take(0) =~= Seq::<(AccountId, Balance)>::empty());
        }
        while i < endowed.len()
            invariant
                i <= endowed@.len(),
                accounts@ == endowed_map(endowed@.take(i as int)),
                total == endowment_sum(endowed@.take(i as int)),
                total == totals_sum(accounts@, endowed_ids(endowed@.take(i as int))),
                forall|a: AccountId| #[trigger]
                    accounts@.contains_key(a) <==> endowed_ids(endowed@.take(i as int)).contains(a),
                endowed_ids(endowed@).no_duplicates(),
                endowed_ids(endowed@.take(i as int)) == endowed_ids(endowed@).take(i as int),
                endowment_sum(endowed@) <= u64::MAX,
            decreases endowed@.len() - i,
        {
            let ghost before = endowed_ids(endowed@.take(i as int));
            let ghost all = endowed_ids(endowed@);
            proof {
                lemma_endowment_sum_prefix(endowed@, i as int + 1);
                lemma_endowed_ids(endowed@);
                assert(endowed@.take(i as int + 1).drop_last() == endowed@.take(i as int));
                assert(endowed_ids(endowed@.take(i as int + 1)) == before.push(endowed@[i as int].0));
                assert(all.take(i as int + 1) == all.take(i as int).push(all[i as int]));
                assert(before.no_duplicates()) by {
                    assert forall|x: int, y: int| 0 <= x < before.len() && 0 <= y < before.len() && x != y implies before[x] != before[y] by {
                        assert(before[x] == all[x] && before[y] == all[y]);
                    }
                }
                assert(!before.contains(endowed@[i as int].0)) by {
                    if before.contains(endowed@[i as int].0) {
                        let k = choose|k: int| 0 <= k < before.len() && before[k] == endowed@[i as int].0;
                        assert(all[k] == all[i as int]);
                    }
                }
            }
            let (who, amount) = endowed[i];
            let ghost old_accounts = accounts@;
            let data = AccountData { free: amount, reserved: 0 };
            proof {
                lemma_totals_sum_insert(old_accounts, before, who, data);
            }
            accounts.insert(who, data);
            total = total + amount;
            i = i + 1;
            proof {
                let now = endowed_ids(endowed@.take(i as int));
                assert(now.drop_last() == before);
                assert forall|a: AccountId| #[trigger] accounts@.contains_key(a) <==> now.contains(a) by {
                    lemma_contains_last(now, a);
                }
            }
        }
        proof {
            assert(endowed@.take(endowed@.len() as int) == endowed@);
            lemma_endowed_ids(endowed@);
            assert(endowed_ids(endowed@).take(endowed@.len() as int) == endowed_ids(endowed@));
        }
        Balances { accounts, total_issuance: total, ids: Ghost(endowed_ids(endowed@)) }
    }

    /// A copy of the accounts, to restore when a call is refused after it
    /// changed them.
    pub fn snapshot(&self) -> (r: Balances)
        ensures
            r@ == self@,
            r.issuance() == self.issuance(),
            r.account_ids() == self.account_ids(),
    {
        proof {
            use_type_invariant(self);
        }
        Balances { accounts: self.accounts.clone(), total_issuance: self.total_issuance, ids: Ghost(self.ids@) }
    }

    /// The free balance of `who`.
    pub fn free_balance(&self, who: AccountId) -> (r: Balance)
        ensures
            r == free_of(self@, who),
    {
        match self.accounts.get(&who) {
            Some(data) => data.free,
            None => 0,
        }
    }

    /// The reserved balance of `who`.
    pub fn reserved_balance(&self, who: AccountId) -> (r: Balance)
        ensures
            r == reserved_of(self@, who),
    {
        match self.accounts.get(&who) {
            Some(data) => data.reserved,
            None => 0,
        }
    }

    /// The total of all funds: the sum of the funds, free and reserved, of
    /// every account, each counted once.
    pub fn total_issuance(&self) -> (r: Balance)
        ensures
            r == self.issuance(),
            r == totals_sum(self@, self.account_ids()),
            self.account_ids().no_duplicates(),
            forall|a: AccountId| #[trigger] self@.contains_key(a) <==> self.account_ids().contains(a),
    {
        proof {
            use_type_invariant(self);
        }
        self.total_issuance
    }

    /// Whether `value` of the free balance of `who` can be reserved.
    pub fn can_reserve(&self, who: AccountId, value: Balance) -> (r: bool)
        ensures
            r == (free_of(self@, who) >= value),
    {
        self.free_balance(who) >= value
    }

    /// A ledger with no accounts.
    fn empty() -> (r: Balances)
        ensures
            r@ == Map::<AccountId, AccountData>::empty(),
    {
        let accounts: HashMap<AccountId, AccountData> = HashMap::new();
        proof {
            assert(forall|a: AccountId| !#[trigger] Seq::<AccountId>::empty().contains(a));
        }
        Balances { accounts, total_issuance: 0, ids: Ghost(Seq::empty()) }
    }

    /// Sets the funds of the existing account `a` to `da`, then those of the
    /// existing account `b` to `db`, keeping the sum of their funds.
    fn set_funds(&mut self, a: AccountId, da: AccountData, b: AccountId, db: AccountData)
        requires
            old(self)@.contains_key(a),
            old(self)@.contains_key(b),
            a == b ==> db.free + db.reserved == total_of(old(self)@, a),
            a != b ==> da.free + da.reserved + db.free + db.reserved == total_of(old(self)@, a)
                + total_of(old(self)@, b),
        ensures
            final(self)@ == old(self)@.insert(a, da).insert(b, db),
            final(self).issuance() == old(self).issuance(),
            final(self).account_ids() == old(self).account_ids(),
    {
        let mut taken = Balances::empty();
        std::mem::swap(self, &mut taken);
        proof {
            use_type_invariant(&taken);
        }
        let Balances { mut accounts, total_issuance, ids } = taken;
        let ghost m = accounts@;
        proof {
            lemma_totals_sum_insert(m, ids@, a, da);
            lemma_totals_sum_insert(m.insert(a, da), ids@, b, db);
        }
        accounts.insert(a, da);
        accounts.insert(b, db);
        proof {
            assert(forall|k: AccountId| #[trigger] accounts@.contains_key(k) <==> m.contains_key(k));
        }
        *self = Balances { accounts, total_issuance, ids };
    }

    /// Moves `value` from the free to the reserved balance of `who`.
    pub fn reserve(&mut self, who: AccountId, value: Balance) -> (r: Result<(), DispatchError>)
        ensures
            (r, final(self)@) == reserve_spec(old(self)@, who, value),
            final(self).issuance() == old(self).issuance(),
            final(self).account_ids() == old(self).account_ids(),
    {
        if value == 0 {
            return Ok(());
        }
        let free = self.free_balance(who);
        let reserved = self.reserved_balance(who);
        if free < value {
            return Err(DispatchError::Balances(BalancesError::InsufficientBalance));
        }
        match reserved.checked_add(value) {
            None => Err(DispatchError::Balances(BalancesError::Overflow)),
            Some(new_reserved) => {
                let data = AccountData { free: free - value, reserved: new_reserved };
                self.set_funds(who, data, who, data);
                proof {
                    assert(old(self)@.insert(who, data).insert(who, data) == old(self)@.insert(who, data));
                }
                Ok(())
            },
        }
    }

    /// Moves up to `value` from the reserved to the free balance of `who`;
    /// gives back the part of `value` that was not reserved.
    pub fn unreserve(&mut self, who: AccountId, value: Balance) -> (r: Balance)
        ensures
            (r, final(self)@) == unreserve_spec(old(self)@, who, value),
            final(self).issuance() == old(self).issuance(),
            final(self).account_ids() == old(self).account_ids(),
    {
        proof {
            use_type_invariant(&*self);
        }
        if value == 0 {
            return value;
        }
        match self.accounts.get(&who) {
            None => value,
            Some(data) => {
                let data = *data;
                let actual = if value <= data.reserved { value } else { data.reserved };
                proof {
                    lemma_total_le_sum(self.accounts@, self.ids@, who, who);
                }
                let free = data.free.saturating_add(actual);
                let new_data = AccountData { free, reserved: data.reserved - actual };
                self.set_funds(who, new_data, who, new_data);
                proof {
                    assert(old(self)@.insert(who, new_data).insert(who, new_data) == old(self)@.insert(
                        who,
                        new_data,
                    ));
                }
                value - actual
            },
        }
    }

    /// Moves up to `value` of the reserved balance of `slashed` to the free
    /// or reserved balance of `beneficiary`; gives back the part of `value`
    /// that was not moved.
    pub fn repatriate_reserved(
        &mut self,
        slashed: AccountId,
        beneficiary: AccountId,
        value: Balance,
        status: BalanceStatus,
    ) -> (r: Result<Balance, DispatchError>)
        ensures
            (r, final(self)@) == repatriate_spec(old(self)@, slashed, beneficiary, value, status),
            final(self).issuance() == old(self).issuance(),
            final(self).account_ids() == old(self).account_ids(),
    {
        if value == 0 {
            return Ok(0);
        }
        let slashed_reserved = self.reserved_balance(slashed);
        let actual = if value <= slashed_reserved { value } else { slashed_reserved };
        if slashed == beneficiary {
            return match status {
                BalanceStatus::Free => Ok(self.unreserve(slashed, value)),
                BalanceStatus::Reserved => Ok(value - actual),
            };
        }
        let to = match self.accounts.get(&beneficiary) {
            None => {
                return Err(DispatchError::Balances(BalancesError::DeadAccount));
            },
            Some(data) => *data,
        };
        let new_to = match status {
            BalanceStatus::Free => match to.free.checked_add(actual) {
                None => {
                    return Err(DispatchError::Balances(BalancesError::Overflow));
                },
                Some(free) => AccountData { free, reserved: to.reserved },
            },
            BalanceStatus::Reserved => match to.reserved.checked_add(actual) {
                None => {
                    return Err(DispatchError::Balances(BalancesError::Overflow));
                },
                Some(reserved) => AccountData { free: to.free, reserved },
            },
        };
        match self.accounts.get(&slashed) {
            Some(from) => {
                let from = *from;
                let new_from = AccountData { free: from.free, reserved: from.reserved - actual };
                self.set_funds(slashed, new_from, beneficiary, new_to);
            },
            None => {
                self.set_funds(beneficiary, new_to, beneficiary, new_to);
                proof {
                    assert(old(self)@.insert(beneficiary, new_to).insert(beneficiary, new_to)
                        == old(self)@.insert(beneficiary, new_to));
                }
            },
        }
        Ok(value - actual)
    }
}

/// The sum of a prefix of `endowed` is at most the sum of all of it.
proof fn lemma_endowment_sum_prefix(endowed: Seq<(AccountId, Balance)>, n: int)
    requires
        0 <= n <= endowed.len(),
    ensures
        endowment_sum(endowed.take(n)) <= endowment_sum(endowed),
    decreases endowed.len(),
{
    if n < endowed.len() {
        assert(endowed.drop_last().take(n) == endowed.take(n));
        lemma_endowment_sum_prefix(endowed.drop_last(), n);
    } else {
        assert(endowed.take(n) == endowed);
    }
}

} // verus!
