//! The balance store itself and the arithmetic of credits and debits.

use vstd::prelude::*;

verus! {

/// Account identifier.
pub type AccountId = String;

/// One stored balance.
pub struct AccountBalance {
    pub account_id: AccountId,
    pub balance: u128,
}

/// The balances that a sequence of entries holds: later entries win.
pub open spec fn entries_map(entries: Seq<AccountBalance>) -> Map<Seq<char>, u128>
    decreases entries.len(),
{
    if entries.len() == 0 {
        Map::empty()
    } else {
        entries_map(entries.drop_last()).insert(entries.last().account_id@, entries.last().balance)
    }
}

/// No account occurs twice.
pub open spec fn distinct_accounts(entries: Seq<AccountBalance>) -> bool {
    forall|i: int, j: int|
        0 <= i < j < entries.len() ==> entries[i].account_id@ != entries[j].account_id@
}

/// Sum of the values of a finite map.
pub open spec fn map_sum(m: Map<Seq<char>, u128>) -> nat
    decreases m.dom().len(),
    when m.dom().finite()
{
    if m.dom().len() == 0 {
        0
    } else {
        let k = m.dom().choose();
        m[k] as nat + map_sum(m.remove(k))
    }
}

/// Any key can be taken out of the sum first.
pub proof fn lemma_map_sum_remove(m: Map<Seq<char>, u128>, k: Seq<char>)
    requires
        m.dom().finite(),
        m.dom().contains(k),
    ensures
        map_sum(m) == m[k] as nat + map_sum(m.remove(k)),
    decreases m.dom().len(),
{
    let c = m.dom().choose();
    if c != k {
        let mc = m.remove(c);
        let mk = m.remove(k);
        lemma_map_sum_remove(mc, k);
        lemma_map_sum_remove(mk, c);
        assert(mc.remove(k) =~= mk.remove(c));
    }
}

/// Writing a key replaces its share of the sum.
pub proof fn lemma_map_sum_insert(m: Map<Seq<char>, u128>, k: Seq<char>, v: u128)
    requires
        m.dom().finite(),
    ensures
        map_sum(m.insert(k, v)) == v as nat + map_sum(m.remove(k)),
        m.dom().contains(k) ==> map_sum(m) == m[k] as nat + map_sum(m.remove(k)),
        !m.dom().contains(k) ==> map_sum(m) == map_sum(m.remove(k)),
{
    lemma_map_sum_remove(m.insert(k, v), k);
    assert(m.insert(k, v).remove(k) =~= m.remove(k));
    if m.dom().contains(k) {
        lemma_map_sum_remove(m, k);
    } else {
        assert(m.remove(k) =~= m);
    }
}

/// What `entries_map` holds, entry by entry.
pub proof fn lemma_entries_map(entries: Seq<AccountBalance>)
    ensures
        entries_map(entries).dom().finite(),
        forall|k: Seq<char>| #[trigger]
            entries_map(entries).dom().contains(k) <==> exists|i: int|
                0 <= i < entries.len() && #[trigger] entries[i].account_id@ == k,
        distinct_accounts(entries) ==> forall|i: int|
            0 <= i < entries.len() ==> #[trigger] entries_map(entries)[entries[i].account_id@]
                == entries[i].balance,
    decreases entries.len(),
{
    if entries.len() > 0 {
        let init = entries.drop_last();
        lemma_entries_map(init);
        let last = entries.last();
        assert forall|k: Seq<char>| #[trigger]
            entries_map(entries).dom().contains(k) implies exists|i: int|
            0 <= i < entries.len() && #[trigger] entries[i].account_id@ == k by {
            if k == last.account_id@ {
                assert(entries[entries.len() - 1].account_id@ == k);
            } else {
                let i = choose|i: int| 0 <= i < init.len() && #[trigger] init[i].account_id@ == k;
                assert(entries[i].account_id@ == k);
            }
        }
        assert forall|k: Seq<char>|
            (exists|i: int| 0 <= i < entries.len() && #[trigger] entries[i].account_id@ == k)
            implies #[trigger] entries_map(entries).dom().contains(k) by {
            let i = choose|i: int| 0 <= i < entries.len() && #[trigger] entries[i].account_id@ == k;
            if i < entries.len() - 1 {
                assert(init[i].account_id@ == k);
            }
        }
        if distinct_accounts(entries) {
            assert(distinct_accounts(init)) by {
                assert forall|i: int, j: int| 0 <= i < j < init.len() implies init[i].account_id@
                    != init[j].account_id@ by {
                    assert(entries[i].account_id@ != entries[j].account_id@);
                }
            }
            assert forall|i: int| 0 <= i < entries.len() implies #[trigger] entries_map(
                entries,
            )[entries[i].account_id@] == entries[i].balance by {
                if i < entries.len() - 1 {
                    assert(init[i] == entries[i]);
                    assert(entries[i].account_id@ != entries[entries.len() - 1].account_id@);
                    assert(entries_map(init)[init[i].account_id@] == init[i].balance);
                }
            }
        }
    }
}

/// Replacing the balance of the entry at `i` writes that account's balance.
pub proof fn lemma_entries_map_update(entries: Seq<AccountBalance>, i: int, entry: AccountBalance)
    requires
        distinct_accounts(entries),
        0 <= i < entries.len(),
        entry.account_id@ == entries[i].account_id@,
    ensures
        distinct_accounts(entries.update(i, entry)),
        entries_map(entries.update(i, entry)) == entries_map(entries).insert(
            entry.account_id@,
            entry.balance,
        ),
{
    let after = entries.update(i, entry);
    assert(distinct_accounts(after)) by {
        assert forall|a: int, b: int| 0 <= a < b < after.len() implies after[a].account_id@
            != after[b].account_id@ by {
            assert(entries[a].account_id@ != entries[b].account_id@);
        }
    }
    lemma_entries_map(entries);
    lemma_entries_map(after);
    let want = entries_map(entries).insert(entry.account_id@, entry.balance);
    assert forall|k: Seq<char>| entries_map(after).dom().contains(k) <==> want.dom().contains(
        k,
    ) by {
        if entries_map(after).dom().contains(k) {
            let j = choose|j: int| 0 <= j < after.len() && #[trigger] after[j].account_id@ == k;
            assert(entries[j].account_id@ == k);
        }
        if want.dom().contains(k) && k != entry.account_id@ {
            let j = choose|j: int| 0 <= j < entries.len() && #[trigger] entries[j].account_id@ == k;
            assert(after[j].account_id@ == k);
        }
        if k == entry.account_id@ {
            assert(after[i].account_id@ == k);
        }
    }
    assert forall|k: Seq<char>| entries_map(after).dom().contains(k) implies entries_map(
        after,
    )[k] == want[k] by {
        let j = choose|j: int| 0 <= j < after.len() && #[trigger] after[j].account_id@ == k;
        assert(entries_map(after)[after[j].account_id@] == after[j].balance);
        if j != i {
            assert(entries_map(entries)[entries[j].account_id@] == entries[j].balance);
            assert(entries[j].account_id@ != entries[i].account_id@);
        }
    }
    assert(entries_map(after) =~= want);
}

/// Appending an entry for a new account writes that account's balance.
pub proof fn lemma_entries_map_push(entries: Seq<AccountBalance>, entry: AccountBalance)
    requires
        distinct_accounts(entries),
        !entries_map(entries).dom().contains(entry.account_id@),
    ensures
        distinct_accounts(entries.push(entry)),
        entries_map(entries.push(entry)) == entries_map(entries).insert(
            entry.account_id@,
            entry.balance,
        ),
{
    let after = entries.push(entry);
    lemma_entries_map(entries);
    assert(after.drop_last() =~= entries);
    assert forall|a: int, b: int| 0 <= a < b < after.len() implies after[a].account_id@
        != after[b].account_id@ by {
        if b == entries.len() {
            assert(entries[a].account_id@ != entry.account_id@);
        } else {
            assert(entries[a].account_id@ != entries[b].account_id@);
        }
    }
}

/// Taking the entry at `i` out removes that account.
pub proof fn lemma_entries_map_remove(entries: Seq<AccountBalance>, i: int)
    requires
        distinct_accounts(entries),
        0 <= i < entries.len(),
    ensures
        distinct_accounts(entries.remove(i)),
        entries_map(entries.remove(i)) == entries_map(entries).remove(entries[i].account_id@),
{
    let after = entries.remove(i);
    assert(distinct_accounts(after)) by {
        assert forall|a: int, b: int| 0 <= a < b < after.len() implies after[a].account_id@
            != after[b].account_id@ by {
            let a0 = if a < i { a } else { a + 1 };
            let b0 = if b < i { b } else { b + 1 };
            assert(entries[a0].account_id@ != entries[b0].account_id@);
        }
    }
    lemma_entries_map(entries);
    lemma_entries_map(after);
    let gone = entries[i].account_id@;
    let want = entries_map(entries).remove(gone);
    assert forall|k: Seq<char>| entries_map(after).dom().contains(k) <==> want.dom().contains(
        k,
    ) by {
        if entries_map(after).dom().contains(k) {
            let j = choose|j: int| 0 <= j < after.len() && #[trigger] after[j].account_id@ == k;
            let j0 = if j < i { j } else { j + 1 };
            assert(entries[j0].account_id@ == k);
            if j0 < i {
                assert(entries[j0].account_id@ != entries[i].account_id@);
            } else {
                assert(entries[i].account_id@ != entries[j0].account_id@);
            }
        }
        if want.dom().contains(k) {
            let j = choose|j: int| 0 <= j < entries.len() && #[trigger] entries[j].account_id@ == k;
            let j1 = if j < i { j } else { j - 1 };
            assert(after[j1].account_id@ == k);
        }
    }
    assert forall|k: Seq<char>| entries_map(after).dom().contains(k) implies entries_map(
        after,
    )[k] == want[k] by {
        let j = choose|j: int| 0 <= j < after.len() && #[trigger] after[j].account_id@ == k;
        let j0 = if j < i { j } else { j + 1 };
        assert(entries_map(after)[after[j].account_id@] == after[j].balance);
        assert(entries_map(entries)[entries[j0].account_id@] == entries[j0].balance);
    }
    assert(entries_map(after) =~= want);
}

/// Why a credit or a debit was refused.
#[derive(Debug, Clone, Copy, PartialEq, Eq, Structural)]
pub enum BalanceError {
    /// The account's balance or the total supply would exceed 128 bits.
    Overflow,
    /// The account holds less than the amount to take.
    InsufficientBalance,
    /// The total supply is less than the amount to take.
    TotalSupplyUnderflow,
}

/// Why an account could not be removed.
#[derive(Debug, Clone, Copy, PartialEq, Eq, Structural)]
pub enum RemoveError {
    /// The account still holds a balance and removal was not forced.
    PositiveBalance,
}

/// The store as the contracts see it.
pub struct FungibleTokenView {
    /// Balance of every registered account.
    pub balances: Map<Seq<char>, u128>,
    /// The total-supply counter.
    pub total_supply: u128,
    /// Storage bytes that one account entry takes.
    pub account_storage_usage: u64,
    /// Number of accounts that a migration has processed.
    pub accounts_counter: u64,
}

impl FungibleTokenView {
    /// Balance of `account`, zero where it is not registered.
    pub open spec fn balance_of(self, account: Seq<char>) -> u128 {
        if self.balances.dom().contains(account) {
            self.balances[account]
        } else {
            0
        }
    }

    /// Sum of all balances.
    pub open spec fn balance_sum(self) -> nat {
        map_sum(self.balances)
    }

    /// The total-supply counter equals the sum of all balances.
    pub open spec fn supply_consistent(self) -> bool {
        self.balance_sum() == self.total_supply
    }

    /// The store with `balance` written for `account`.
    pub open spec fn with_balance(self, account: Seq<char>, balance: u128) -> Self {
        FungibleTokenView { balances: self.balances.insert(account, balance), ..self }
    }

    /// Whether `amount` can be credited to `account`.
    pub open spec fn can_credit(self, account: Seq<char>, amount: u128) -> bool {
        self.balance_of(account) + amount <= u128::MAX && self.total_supply + amount <= u128::MAX
    }

    /// The store after `amount` was credited to `account`.
    pub open spec fn credited(self, account: Seq<char>, amount: u128) -> Self {
        FungibleTokenView {
            balances: self.balances.insert(account, (self.balance_of(account) + amount) as u128),
            total_supply: (self.total_supply + amount) as u128,
            ..self
        }
    }

    /// The store after `amount` was taken from `account`.
    pub open spec fn debited(self, account: Seq<char>, amount: u128) -> Self {
        FungibleTokenView {
            balances: self.balances.insert(account, (self.balance_of(account) - amount) as u128),
            total_supply: (self.total_supply - amount) as u128,
            ..self
        }
    }

    /// The store without `account`; the total supply stays as it was.
    pub open spec fn without(self, account: Seq<char>) -> Self {
        FungibleTokenView { balances: self.balances.remove(account), ..self }
    }
}

/// A credit that does not overflow keeps the total supply equal to the sum
/// of the balances.
pub proof fn lemma_credit_keeps_supply(v: FungibleTokenView, account: Seq<char>, amount: u128)
    requires
        v.balances.dom().finite(),
        v.can_credit(account, amount),
    ensures
        v.credited(account, amount).balance_sum() == v.balance_sum() + amount,
        v.supply_consistent() ==> v.credited(account, amount).supply_consistent(),
{
    lemma_map_sum_insert(v.balances, account, (v.balance_of(account) + amount) as u128);
}

/// A debit that the account and the supply can bear keeps the total supply
/// equal to the sum of the balances.
pub proof fn lemma_debit_keeps_supply(v: FungibleTokenView, account: Seq<char>, amount: u128)
    requires
        v.balances.dom().finite(),
        v.balance_of(account) >= amount,
        v.total_supply >= amount,
    ensures
        v.debited(account, amount).balance_sum() == v.balance_sum() - amount,
        v.supply_consistent() ==> v.debited(account, amount).supply_consistent(),
{
    lemma_map_sum_insert(v.balances, account, (v.balance_of(account) - amount) as u128);
}

/// A credit or a debit of an amount on an account.
pub enum BalanceOp {
    Credit { account: Seq<char>, amount: u128 },
    Debit { account: Seq<char>, amount: u128 },
}

/// The store after one operation: a credit or a debit that is refused leaves
/// it as it was.
pub open spec fn balance_step(v: FungibleTokenView, op: BalanceOp) -> FungibleTokenView {
    match op {
        BalanceOp::Credit { account, amount } => if v.can_credit(account, amount) {
            v.credited(account, amount)
        } else {
            v
        },
        BalanceOp::Debit { account, amount } => if v.balance_of(account) >= amount
            && v.total_supply >= amount {
            v.debited(account, amount)
        } else {
            v
        },
    }
}

/// The store after a sequence of operations.
pub open spec fn balance_run(v: FungibleTokenView, ops: Seq<BalanceOp>) -> FungibleTokenView
    decreases ops.len(),
{
    if ops.len() == 0 {
        v
    } else {
        balance_step(balance_run(v, ops.drop_last()), ops.last())
    }
}

/// Whatever credits and debits follow one another, after each of them the
/// total supply equals the sum of the balances, provided it did at the
/// start.
pub proof fn lemma_supply_consistent_throughout(v: FungibleTokenView, ops: Seq<BalanceOp>, n: int)
    requires
        v.balances.dom().finite(),
        v.supply_consistent(),
        0 <= n <= ops.len(),
    ensures
        balance_run(v, ops.take(n)).balances.dom().finite(),
        balance_run(v, ops.take(n)).supply_consistent(),
    decreases n,
{
    if n > 0 {
        lemma_supply_consistent_throughout(v, ops, n - 1);
        assert(ops.take(n).drop_last() =~= ops.take(n - 1));
        let before = balance_run(v, ops.take(n - 1));
        match ops.take(n).last() {
            BalanceOp::Credit { account, amount } => {
                if before.can_credit(account, amount) {
                    lemma_credit_keeps_supply(before, account, amount);
                }
            },
            BalanceOp::Debit { account, amount } => {
                if before.balance_of(account) >= amount && before.total_supply >= amount {
                    lemma_debit_keeps_supply(before, account, amount);
                }
            },
        }
    }
}

/// Removing an account takes its balance out of the sum: with a zero
/// balance the store stays consistent, with a positive one the total supply
/// exceeds the sum from then on.
pub proof fn lemma_remove_burns(v: FungibleTokenView, account: Seq<char>)
    requires
        v.balances.dom().finite(),
    ensures
        v.without(account).balance_sum() + v.balance_of(account) == v.balance_sum(),
        v.without(account).total_supply == v.total_supply,
        v.supply_consistent() && v.balance_of(account) == 0 ==> v.without(
            account,
        ).supply_consistent(),
{
    lemma_map_sum_insert(v.balances, account, 0);
}

/// Balances by account, with the total-supply counter and the storage
/// bookkeeping.
pub struct FungibleToken {
    accounts_eth: Vec<AccountBalance>,
    total_eth_supply_on_near: u128,
    account_storage_usage: u64,
    statistics_aurora_accounts_counter: u64,
}

impl View for FungibleToken {
    type V = FungibleTokenView;

    closed spec fn view(&self) -> FungibleTokenView {
        FungibleTokenView {
            balances: entries_map(self.accounts_eth@),
            total_supply: self.total_eth_supply_on_near,
            account_storage_usage: self.account_storage_usage,
            accounts_counter: self.statistics_aurora_accounts_counter,
        }
    }
}

impl FungibleToken {
    /// No account is stored twice. Every constructor establishes this and
    /// every method keeps it.
    pub closed spec fn wf(&self) -> bool {
        distinct_accounts(self.accounts_eth@)
    }

    /// A store without accounts, all counters zero.
    pub fn new() -> (ft: Self)
        ensures
            ft.wf(),
            ft@.balances == Map::<Seq<char>, u128>::empty(),
            ft@.total_supply == 0,
            ft@.account_storage_usage == 0,
            ft@.accounts_counter == 0,
            ft@.supply_consistent(),
    {
        FungibleToken {
            accounts_eth: Vec::new(),
            total_eth_supply_on_near: 0,
            account_storage_usage: 0,
            statistics_aurora_accounts_counter: 0,
        }
    }

    /// The balances form a finite map.
    pub proof fn lemma_finite(&self)
        ensures
            self@.balances.dom().finite(),
    {
        lemma_entries_map(self.accounts_eth@);
    }

    /// Position of `account_id` among the entries.
    fn find(&self, account_id: &AccountId) -> (pos: Option<usize>)
        requires
            self.wf(),
        ensures
            match pos {
                Some(i) => i < self.accounts_eth@.len() && self.accounts_eth@[i as int].account_id@
                    == account_id@ && self@.balances.dom().contains(account_id@)
                    && self@.balances[account_id@] == self.accounts_eth@[i as int].balance,
                None => !self@.balances.dom().contains(account_id@),
            },
    {
        proof {
            lemma_entries_map(self.accounts_eth@);
        }
        let mut i: usize = 0;
        while i < self.accounts_eth.len()
            invariant
                self.wf(),
                i <= self.accounts_eth@.len(),
                forall|j: int| 0 <= j < i ==> self.accounts_eth@[j].account_id@ != account_id@,
            decreases self.accounts_eth@.len() - i,
        {
            if self.accounts_eth[i].account_id == *account_id {
                proof {
                    lemma_entries_map(self.accounts_eth@);
                }
                return Some(i);
            }
            i += 1;
        }
        None
    }

    /// Write `balance` for `account_id`, whatever it held before. The total
    /// supply is left alone.
    pub fn accounts_insert(&mut self, account_id: &AccountId, balance: u128)
        requires
            old(self).wf(),
        ensures
            final(self).wf(),
            final(self)@ == old(self)@.with_balance(account_id@, balance),
    {
        let entry = AccountBalance { account_id: account_id.clone(), balance };
        match self.find(account_id) {
            Some(i) => {
                proof {
                    lemma_entries_map_update(self.accounts_eth@, i as int, entry);
                }
                self.accounts_eth.set(i, entry);
            },
            None => {
                proof {
                    lemma_entries_map_push(self.accounts_eth@, entry);
                }
                self.accounts_eth.push(entry);
            },
        }
    }

    /// Drop the entry of `account_id`, if there is one. The total supply is
    /// left alone.
    pub fn accounts_remove(&mut self, account_id: &AccountId)
        requires
            old(self).wf(),
        ensures
            final(self).wf(),
            final(self)@ == old(self)@.without(account_id@),
    {
        match self.find(account_id) {
            Some(i) => {
                proof {
                    lemma_entries_map_remove(self.accounts_eth@, i as int);
                }
                self.accounts_eth.remove(i);
            },
            None => {
                assert(self@.balances.remove(account_id@) =~= self@.balances);
            },
        }
    }

    /// Credit `amount` to `account_id` and to the total supply. An unknown
    /// account starts from zero. Nothing changes when either sum would not fit
    /// in 128 bits.
    pub fn credit(&mut self, account_id: &AccountId, amount: u128) -> (res: Result<
        (),
        BalanceError,
    >)
        requires
            old(self).wf(),
        ensures
            final(self).wf(),
            old(self)@.can_credit(account_id@, amount) ==> res == Ok::<(), BalanceError>(())
                && final(self)@ == old(self)@.credited(account_id@, amount),
            !old(self)@.can_credit(account_id@, amount) ==> res == Err::<(), BalanceError>(
                BalanceError::Overflow,
            ) && final(self)@ == old(self)@,
            final(self)@ == balance_step(
                old(self)@,
                BalanceOp::Credit { account: account_id@, amount },
            ),
            old(self)@.supply_consistent() ==> final(self)@.supply_consistent(),
    {
        let balance = self.balance_of(account_id);
        if amount > u128::MAX - balance || amount > u128::MAX - self.total_eth_supply_on_near {
            return Err(BalanceError::Overflow);
        }
        proof {
            self.lemma_finite();
            lemma_credit_keeps_supply(self@, account_id@, amount);
        }
        self.accounts_insert(account_id, balance + amount);
        self.total_eth_supply_on_near = self.total_eth_supply_on_near + amount;
        Ok(())
    }

    /// Take `amount` from `account_id` and from the total supply. Nothing
    /// changes when the account or the supply holds less than `amount`.
    pub fn debit(&mut self, account_id: &AccountId, amount: u128) -> (res: Result<
        (),
        BalanceError,
    >)
        requires
            old(self).wf(),
        ensures
            final(self).wf(),
            res == if old(self)@.balance_of(account_id@) < amount {
                Err::<(), BalanceError>(BalanceError::InsufficientBalance)
            } else if old(self)@.total_supply < amount {
                Err::<(), BalanceError>(BalanceError::TotalSupplyUnderflow)
            } else {
                Ok::<(), BalanceError>(())
            },
            res.is_ok() ==> final(self)@ == old(self)@.debited(account_id@, amount),
            res.is_err() ==> final(self)@ == old(self)@,
            final(self)@ == balance_step(
                old(self)@,
                BalanceOp::Debit { account: account_id@, amount },
            ),
            old(self)@.supply_consistent() ==> final(self)@.supply_consistent(),
    {
        let balance = self.balance_of(account_id);
        if balance < amount {
            return Err(BalanceError::InsufficientBalance);
        }
        if self.total_eth_supply_on_near < amount {
            return Err(BalanceError::TotalSupplyUnderflow);
        }
        proof {
            self.lemma_finite();
            lemma_debit_keeps_supply(self@, account_id@, amount);
        }
        self.accounts_insert(account_id, balance - amount);
        self.total_eth_supply_on_near = self.total_eth_supply_on_near - amount;
        Ok(())
    }

    /// Delete the entry of `account_id` and return the balance it held. An
    /// unknown account gives `None`. A positive balance is only given up when
    /// `force` is set, and is then burnt: the total supply keeps counting it.
    pub fn remove(&mut self, account_id: &AccountId, force: bool) -> (res: Result<
        Option<u128>,
        RemoveError,
    >)
        requires
            old(self).wf(),
        ensures
            final(self).wf(),
            res == if !old(self)@.balances.dom().contains(account_id@) {
                Ok::<Option<u128>, RemoveError>(None)
            } else if old(self)@.balances[account_id@] == 0 || force {
                Ok::<Option<u128>, RemoveError>(Some(old(self)@.balances[account_id@]))
            } else {
                Err::<Option<u128>, RemoveError>(RemoveError::PositiveBalance)
            },
            final(self)@ == if res is Ok {
                old(self)@.without(account_id@)
            } else {
                old(self)@
            },
            res == Ok::<Option<u128>, RemoveError>(Some(0u128)) && old(self)@.supply_consistent()
                ==> final(self)@.supply_consistent(),
    {
        match self.get_account_eth_balance(account_id) {
            None => {
                assert(self@.balances.remove(account_id@) =~= self@.balances);
                Ok(None)
            },
            Some(balance) => {
                if balance == 0 || force {
                    proof {
                        self.lemma_finite();
                        lemma_remove_burns(self@, account_id@);
                    }
                    self.accounts_remove(account_id);
                    Ok(Some(balance))
                } else {
                    Err(RemoveError::PositiveBalance)
                }
            },
        }
    }

    /// Overwrite the total-supply counter.
    pub(crate) fn set_total_supply(&mut self, supply: u128)
        requires
            old(self).wf(),
        ensures
            final(self).wf(),
            final(self)@ == (FungibleTokenView { total_supply: supply, ..old(self)@ }),
    {
        self.total_eth_supply_on_near = supply;
    }

    /// Overwrite the storage bytes that one account entry takes.
    pub(crate) fn set_account_storage_usage(&mut self, usage: u64)
        requires
            old(self).wf(),
        ensures
            final(self).wf(),
            final(self)@ == (FungibleTokenView { account_storage_usage: usage, ..old(self)@ }),
    {
        self.account_storage_usage = usage;
    }

    /// Overwrite the number of accounts that a migration has processed.
    pub(crate) fn set_accounts_counter(&mut self, counter: u64)
        requires
            old(self).wf(),
        ensures
            final(self).wf(),
            final(self)@ == (FungibleTokenView { accounts_counter: counter, ..old(self)@ }),
    {
        self.statistics_aurora_accounts_counter = counter;
    }

    /// The total-supply counter.
    pub fn total_supply(&self) -> (supply: u128)
        ensures
            supply == self@.total_supply,
    {
        self.total_eth_supply_on_near
    }

    /// Storage bytes that one account entry takes.
    pub fn account_storage_usage(&self) -> (usage: u64)
        ensures
            usage == self@.account_storage_usage,
    {
        self.account_storage_usage
    }

    /// Number of accounts that a migration has processed.
    pub fn accounts_counter(&self) -> (counter: u64)
        ensures
            counter == self@.accounts_counter,
    {
        self.statistics_aurora_accounts_counter
    }

    /// Whether `account_id` is registered.
    pub fn contains_account(&self, account_id: &AccountId) -> (found: bool)
        requires
            self.wf(),
        ensures
            found == self@.balances.dom().contains(account_id@),
    {
        self.find(account_id).is_some()
    }

    /// Balance of a registered account, `None` for an unknown one.
    pub fn get_account_eth_balance(&self, account_id: &AccountId) -> (balance: Option<u128>)
        requires
            self.wf(),
        ensures
            balance == if self@.balances.dom().contains(account_id@) {
                Some(self@.balances[account_id@])
            } else {
                None
            },
    {
        match self.find(account_id) {
            Some(i) => Some(self.accounts_eth[i].balance),
            None => None,
        }
    }

    /// Balance of `account_id`, zero for an unknown account.
    pub fn balance_of(&self, account_id: &AccountId) -> (balance: u128)
        requires
            self.wf(),
        ensures
            balance == self@.balance_of(account_id@),
    {
        match self.find(account_id) {
            Some(i) => self.accounts_eth[i].balance,
            None => 0,
        }
    }
}

} // verus!
