//! What holds of the migration passes whatever the snapshot and however it
//! is cut into batches.

use crate::migration::{
    account_mismatch, apply_accounts, check_outcome, counter_mismatch, empty_ledger,
    first_account_mismatch, first_unused_proof, migrated, CheckOutcome, LedgerView,
    MigrationInputView,
};
use vstd::prelude::*;

verus! {

/// No account occurs twice among the entries.
pub open spec fn distinct_keys(entries: Seq<(Seq<char>, u128)>) -> bool {
    forall|i: int, j: int| 0 <= i < j < entries.len() ==> entries[i].0 != entries[j].0
}

/// The amount of the last entry for `account`, if there is one.
pub open spec fn last_amount(entries: Seq<(Seq<char>, u128)>, account: Seq<char>) -> Option<u128>
    decreases entries.len(),
{
    if entries.len() == 0 {
        None
    } else if entries.last().0 == account {
        Some(entries.last().1)
    } else {
        last_amount(entries.drop_last(), account)
    }
}

/// The batch carries no counter.
pub open spec fn carries_no_counter(data: MigrationInputView) -> bool {
    data.total_supply is None && data.account_storage_usage is None && data.accounts_counter is None
}

/// None of the batches carries a counter.
pub open spec fn carry_no_counter(batches: Seq<MigrationInputView>) -> bool {
    forall|i: int| 0 <= i < batches.len() ==> carries_no_counter(#[trigger] batches[i])
}

/// The stores after the batches were applied in turn.
pub open spec fn migrated_all(state: LedgerView, batches: Seq<MigrationInputView>) -> LedgerView
    decreases batches.len(),
{
    if batches.len() == 0 {
        state
    } else {
        migrated(migrated_all(state, batches.drop_last()), batches.last())
    }
}

/// The entries of all batches, in the order of the batches.
pub open spec fn all_accounts(batches: Seq<MigrationInputView>) -> Seq<(Seq<char>, u128)>
    decreases batches.len(),
{
    if batches.len() == 0 {
        Seq::empty()
    } else {
        all_accounts(batches.drop_last()) + batches.last().accounts
    }
}

/// The proofs of all batches, in the order of the batches.
pub open spec fn all_proofs(batches: Seq<MigrationInputView>) -> Seq<Seq<char>>
    decreases batches.len(),
{
    if batches.len() == 0 {
        Seq::empty()
    } else {
        all_proofs(batches.drop_last()) + batches.last().used_proofs
    }
}

/// After the entries were written, an account holds the amount of its last
/// entry, and an account without an entry holds what it held before.
pub proof fn lemma_apply_accounts_lookup(
    balances: Map<Seq<char>, u128>,
    entries: Seq<(Seq<char>, u128)>,
    account: Seq<char>,
)
    ensures
        apply_accounts(balances, entries).dom().contains(account) <==> (last_amount(
            entries,
            account,
        ) is Some || balances.dom().contains(account)),
        last_amount(entries, account) matches Some(v) ==> apply_accounts(balances, entries)[account]
            == v,
        last_amount(entries, account) is None ==> apply_accounts(balances, entries)[account]
            == balances[account],
    decreases entries.len(),
{
    if entries.len() > 0 {
        lemma_apply_accounts_lookup(balances, entries.drop_last(), account);
    }
}

/// An account has a last entry exactly when it has an entry, and where no
/// account occurs twice every entry is the last one of its account.
pub proof fn lemma_last_amount(entries: Seq<(Seq<char>, u128)>)
    ensures
        forall|k: Seq<char>| #[trigger]
            last_amount(entries, k) is Some <==> exists|i: int|
                0 <= i < entries.len() && #[trigger] entries[i].0 == k,
        distinct_keys(entries) ==> forall|i: int|
            0 <= i < entries.len() ==> last_amount(entries, #[trigger] entries[i].0) == Some(
                entries[i].1,
            ),
    decreases entries.len(),
{
    if entries.len() > 0 {
        let init = entries.drop_last();
        let n = entries.len() - 1;
        lemma_last_amount(init);
        assert forall|k: Seq<char>| #[trigger] last_amount(entries, k) is Some implies exists|
            i: int,
        |
            0 <= i < entries.len() && #[trigger] entries[i].0 == k by {
            if entries[n].0 == k {
            } else {
                assert(last_amount(init, k) is Some);
                let i = choose|i: int| 0 <= i < init.len() && #[trigger] init[i].0 == k;
                assert(entries[i].0 == k);
            }
        }
        assert forall|k: Seq<char>|
            (exists|i: int| 0 <= i < entries.len() && #[trigger] entries[i].0 == k)
            implies #[trigger] last_amount(entries, k) is Some by {
            let i = choose|i: int| 0 <= i < entries.len() && #[trigger] entries[i].0 == k;
            if entries[n].0 != k {
                assert(init[i].0 == k);
                assert(last_amount(init, k) is Some);
            }
        }
        if distinct_keys(entries) {
            assert(distinct_keys(init)) by {
                assert forall|i: int, j: int| 0 <= i < j < init.len() implies init[i].0
                    != init[j].0 by {
                    assert(entries[i].0 != entries[j].0);
                }
            }
            assert forall|i: int| 0 <= i < entries.len() implies last_amount(
                entries,
                #[trigger] entries[i].0,
            ) == Some(entries[i].1) by {
                if i < n {
                    assert(entries[i].0 != entries[n].0);
                    assert(init[i] == entries[i]);
                    assert(last_amount(init, init[i].0) == Some(init[i].1));
                }
            }
        }
    }
}

/// Writing one run of entries after another is writing the two runs joined.
pub proof fn lemma_apply_accounts_concat(
    balances: Map<Seq<char>, u128>,
    first: Seq<(Seq<char>, u128)>,
    second: Seq<(Seq<char>, u128)>,
)
    ensures
        apply_accounts(balances, first + second) == apply_accounts(
            apply_accounts(balances, first),
            second,
        ),
    decreases second.len(),
{
    if second.len() == 0 {
        assert(first + second =~= first);
    } else {
        lemma_apply_accounts_concat(balances, first, second.drop_last());
        assert((first + second).drop_last() =~= first + second.drop_last());
    }
}

/// Two runs of entries that hold the same entries, each account once, write
/// the same balances, in whatever order they come.
pub proof fn lemma_same_entries_same_balances(
    balances: Map<Seq<char>, u128>,
    first: Seq<(Seq<char>, u128)>,
    second: Seq<(Seq<char>, u128)>,
)
    requires
        distinct_keys(first),
        distinct_keys(second),
        first.to_set() == second.to_set(),
    ensures
        apply_accounts(balances, first) == apply_accounts(balances, second),
{
    lemma_last_amount(first);
    lemma_last_amount(second);
    assert forall|k: Seq<char>| last_amount(first, k) == last_amount(second, k) by {
        if last_amount(first, k) is Some {
            let i = choose|i: int| 0 <= i < first.len() && #[trigger] first[i].0 == k;
            assert(first.to_set().contains(first[i]));
            assert(second.contains(first[i]));
            let j = choose|j: int| 0 <= j < second.len() && second[j] == first[i];
            assert(last_amount(second, second[j].0) == Some(second[j].1));
            assert(last_amount(first, first[i].0) == Some(first[i].1));
        } else if last_amount(second, k) is Some {
            let j = choose|j: int| 0 <= j < second.len() && #[trigger] second[j].0 == k;
            assert(second.to_set().contains(second[j]));
            assert(first.contains(second[j]));
            let i = choose|i: int| 0 <= i < first.len() && first[i] == second[j];
            assert(first[i].0 == k);
        }
    }
    let one = apply_accounts(balances, first);
    let other = apply_accounts(balances, second);
    assert forall|k: Seq<char>| one.dom().contains(k) <==> other.dom().contains(k) by {
        lemma_apply_accounts_lookup(balances, first, k);
        lemma_apply_accounts_lookup(balances, second, k);
    }
    assert forall|k: Seq<char>| one.dom().contains(k) implies one[k] == other[k] by {
        lemma_apply_accounts_lookup(balances, first, k);
        lemma_apply_accounts_lookup(balances, second, k);
    }
    assert(one =~= other);
}

/// The identifiers of two runs joined are those of the one and of the other.
pub proof fn lemma_concat_to_set(first: Seq<Seq<char>>, second: Seq<Seq<char>>)
    ensures
        (first + second).to_set() == first.to_set().union(second.to_set()),
{
    let both = first + second;
    assert forall|k: Seq<char>| both.to_set().contains(k) <==> first.to_set().union(
        second.to_set(),
    ).contains(k) by {
        if both.contains(k) {
            let i = choose|i: int| 0 <= i < both.len() && both[i] == k;
            if i < first.len() {
                assert(first[i] == k);
            } else {
                assert(second[i - first.len()] == k);
            }
        }
        if first.contains(k) {
            let i = choose|i: int| 0 <= i < first.len() && first[i] == k;
            assert(both[i] == k);
        }
        if second.contains(k) {
            let i = choose|i: int| 0 <= i < second.len() && second[i] == k;
            assert(both[first.len() + i] == k);
        }
    }
    assert(both.to_set() =~= first.to_set().union(second.to_set()));
}

/// The last value that is there, if any is.
pub open spec fn last_some<T>(values: Seq<Option<T>>) -> Option<T>
    decreases values.len(),
{
    if values.len() == 0 {
        None
    } else if values.last() is Some {
        values.last()
    } else {
        last_some(values.drop_last())
    }
}

/// The total supply of the last batch that carries one.
pub open spec fn carried_total_supply(batches: Seq<MigrationInputView>) -> Option<u128> {
    last_some(batches.map_values(|b: MigrationInputView| b.total_supply))
}

/// The storage bytes per account of the last batch that carries them.
pub open spec fn carried_storage_usage(batches: Seq<MigrationInputView>) -> Option<u64> {
    last_some(batches.map_values(|b: MigrationInputView| b.account_storage_usage))
}

/// The number of processed accounts of the last batch that carries one.
pub open spec fn carried_accounts_counter(batches: Seq<MigrationInputView>) -> Option<u64> {
    last_some(batches.map_values(|b: MigrationInputView| b.accounts_counter))
}

/// The one batch that does what the batches do when applied in turn: all
/// their entries, all their proofs, and of each counter the last that a batch
/// carries.
pub open spec fn joined(batches: Seq<MigrationInputView>) -> MigrationInputView {
    MigrationInputView {
        accounts: all_accounts(batches),
        total_supply: carried_total_supply(batches),
        account_storage_usage: carried_storage_usage(batches),
        accounts_counter: carried_accounts_counter(batches),
        used_proofs: all_proofs(batches),
    }
}

/// Batches applied in turn do what the one batch does that joins them.
pub proof fn lemma_migrated_all(state: LedgerView, batches: Seq<MigrationInputView>)
    ensures
        migrated_all(state, batches) == migrated(state, joined(batches)),
    decreases batches.len(),
{
    let supplies = batches.map_values(|b: MigrationInputView| b.total_supply);
    let usages = batches.map_values(|b: MigrationInputView| b.account_storage_usage);
    let counters = batches.map_values(|b: MigrationInputView| b.accounts_counter);
    if batches.len() == 0 {
        assert(all_proofs(batches).to_set() =~= Set::<Seq<char>>::empty());
        assert(state.used_proofs.union(Set::<Seq<char>>::empty()) =~= state.used_proofs);
    } else {
        let init = batches.drop_last();
        let last = batches.last();
        lemma_migrated_all(state, init);
        lemma_apply_accounts_concat(state.ft.balances, all_accounts(init), last.accounts);
        lemma_concat_to_set(all_proofs(init), last.used_proofs);
        assert(state.used_proofs.union(all_proofs(init).to_set()).union(last.used_proofs.to_set())
            =~= state.used_proofs.union(
            all_proofs(init).to_set().union(last.used_proofs.to_set()),
        ));
        assert(supplies.drop_last() =~= init.map_values(|b: MigrationInputView| b.total_supply));
        assert(usages.drop_last() =~= init.map_values(
            |b: MigrationInputView| b.account_storage_usage,
        ));
        assert(counters.drop_last() =~= init.map_values(
            |b: MigrationInputView| b.accounts_counter,
        ));
        assert(supplies.last() == last.total_supply);
        assert(usages.last() == last.account_storage_usage);
        assert(counters.last() == last.accounts_counter);
    }
}

/// Where every value that is there is the same one, and one is there if
/// that one is, the last value that is there is that one.
pub proof fn lemma_last_some<T>(values: Seq<Option<T>>, value: Option<T>)
    requires
        forall|i: int| 0 <= i < values.len() ==> (#[trigger] values[i]) is None || values[i] == value,
        value is Some ==> exists|i: int| 0 <= i < values.len() && (#[trigger] values[i]) is Some,
    ensures
        last_some(values) == value,
    decreases values.len(),
{
    if values.len() > 0 {
        let init = values.drop_last();
        assert(values[values.len() - 1] == values.last());
        if values.last() is None {
            assert forall|i: int| 0 <= i < init.len() implies (#[trigger] init[i]) is None
                || init[i] == value by {
                assert(init[i] == values[i]);
            }
            if value is Some {
                let k = choose|k: int| 0 <= k < values.len() && (#[trigger] values[k]) is Some;
                assert(init[k] is Some);
            }
            lemma_last_some(init, value);
        }
    }
}

/// Batches that carry no counter join to a batch that carries none.
pub proof fn lemma_no_counter(batches: Seq<MigrationInputView>)
    requires
        carry_no_counter(batches),
    ensures
        carries_no_counter(joined(batches)),
{
    let supplies = batches.map_values(|b: MigrationInputView| b.total_supply);
    let usages = batches.map_values(|b: MigrationInputView| b.account_storage_usage);
    let counters = batches.map_values(|b: MigrationInputView| b.accounts_counter);
    assert forall|i: int| 0 <= i < batches.len() implies (#[trigger] supplies[i]) is None by {
        assert(carries_no_counter(batches[i]));
    }
    assert forall|i: int| 0 <= i < batches.len() implies (#[trigger] usages[i]) is None by {
        assert(carries_no_counter(batches[i]));
    }
    assert forall|i: int| 0 <= i < batches.len() implies (#[trigger] counters[i]) is None by {
        assert(carries_no_counter(batches[i]));
    }
    lemma_last_some(supplies, None);
    lemma_last_some(usages, None);
    lemma_last_some(counters, None);
}

/// Whether the batches are a cut of the snapshot: together they hold its
/// entries and its proofs, each account once, and each counter that a batch
/// carries is the snapshot's, which some batch carries if the snapshot does.
pub open spec fn slicing_of(batches: Seq<MigrationInputView>, snapshot: MigrationInputView) -> bool {
    &&& distinct_keys(snapshot.accounts)
    &&& distinct_keys(all_accounts(batches))
    &&& all_accounts(batches).to_set() == snapshot.accounts.to_set()
    &&& all_proofs(batches).to_set() == snapshot.used_proofs.to_set()
    &&& forall|i: int|
        0 <= i < batches.len() ==> {
            &&& (#[trigger] batches[i]).total_supply is None || batches[i].total_supply
                == snapshot.total_supply
            &&& batches[i].account_storage_usage is None || batches[i].account_storage_usage
                == snapshot.account_storage_usage
            &&& batches[i].accounts_counter is None || batches[i].accounts_counter
                == snapshot.accounts_counter
        }
    &&& snapshot.total_supply is Some ==> exists|i: int|
        0 <= i < batches.len() && (#[trigger] batches[i]).total_supply is Some
    &&& snapshot.account_storage_usage is Some ==> exists|i: int|
        0 <= i < batches.len() && (#[trigger] batches[i]).account_storage_usage is Some
    &&& snapshot.accounts_counter is Some ==> exists|i: int|
        0 <= i < batches.len() && (#[trigger] batches[i]).accounts_counter is Some
}

/// A cut of a snapshot carries the snapshot's counters.
pub proof fn lemma_slicing_counters(batches: Seq<MigrationInputView>, snapshot: MigrationInputView)
    requires
        slicing_of(batches, snapshot),
    ensures
        carried_total_supply(batches) == snapshot.total_supply,
        carried_storage_usage(batches) == snapshot.account_storage_usage,
        carried_accounts_counter(batches) == snapshot.accounts_counter,
{
    let supplies = batches.map_values(|b: MigrationInputView| b.total_supply);
    let usages = batches.map_values(|b: MigrationInputView| b.account_storage_usage);
    let counters = batches.map_values(|b: MigrationInputView| b.accounts_counter);
    assert forall|i: int| 0 <= i < supplies.len() implies (#[trigger] supplies[i]) is None
        || supplies[i] == snapshot.total_supply by {
        assert(supplies[i] == batches[i].total_supply);
    }
    assert forall|i: int| 0 <= i < usages.len() implies (#[trigger] usages[i]) is None || usages[i]
        == snapshot.account_storage_usage by {
        assert(usages[i] == batches[i].account_storage_usage);
    }
    assert forall|i: int| 0 <= i < counters.len() implies (#[trigger] counters[i]) is None
        || counters[i] == snapshot.accounts_counter by {
        assert(counters[i] == batches[i].accounts_counter);
    }
    if snapshot.total_supply is Some {
        let k = choose|k: int| 0 <= k < batches.len() && (#[trigger] batches[k]).total_supply is Some;
        assert(supplies[k] is Some);
    }
    if snapshot.account_storage_usage is Some {
        let k = choose|k: int|
            0 <= k < batches.len() && (#[trigger] batches[k]).account_storage_usage is Some;
        assert(usages[k] is Some);
    }
    if snapshot.accounts_counter is Some {
        let k = choose|k: int|
            0 <= k < batches.len() && (#[trigger] batches[k]).accounts_counter is Some;
        assert(counters[k] is Some);
    }
    lemma_last_some(supplies, snapshot.total_supply);
    lemma_last_some(usages, snapshot.account_storage_usage);
    lemma_last_some(counters, snapshot.accounts_counter);
}

/// However a snapshot is cut into batches, and in whatever order its entries
/// and proofs come, applying the batches in turn leaves the stores as
/// applying the whole snapshot at once does.
pub proof fn lemma_slicing_is_snapshot(
    state: LedgerView,
    batches: Seq<MigrationInputView>,
    snapshot: MigrationInputView,
)
    requires
        slicing_of(batches, snapshot),
    ensures
        migrated_all(state, batches) == migrated(state, snapshot),
{
    lemma_migrated_all(state, batches);
    lemma_slicing_counters(batches, snapshot);
    lemma_same_entries_same_balances(state.ft.balances, all_accounts(batches), snapshot.accounts);
}

/// Two cuts of one snapshot leave the stores in the same state: the balances,
/// the registered accounts, the consumed proofs and the counters do not
/// depend on where the batches end.
pub proof fn lemma_slicing_independence(
    state: LedgerView,
    first: Seq<MigrationInputView>,
    second: Seq<MigrationInputView>,
    snapshot: MigrationInputView,
)
    requires
        slicing_of(first, snapshot),
        slicing_of(second, snapshot),
    ensures
        migrated_all(state, first) == migrated_all(state, second),
{
    lemma_slicing_is_snapshot(state, first, snapshot);
    lemma_slicing_is_snapshot(state, second, snapshot);
}

/// After a snapshot was applied to stores without accounts, the registered
/// accounts are those of the snapshot, each with the amount of its entry, and
/// each counter that the snapshot carries is the stored one. So it is after
/// every cut of the snapshot.
pub proof fn lemma_migrated_from_empty(snapshot: MigrationInputView, account: Seq<char>)
    requires
        distinct_keys(snapshot.accounts),
    ensures
        migrated(empty_ledger(), snapshot).ft.balances.dom().contains(account) <==> exists|i: int|
            0 <= i < snapshot.accounts.len() && (#[trigger] snapshot.accounts[i]).0 == account,
        forall|i: int|
            0 <= i < snapshot.accounts.len() && (#[trigger] snapshot.accounts[i]).0 == account
                ==> migrated(empty_ledger(), snapshot).ft.balances[account]
                == snapshot.accounts[i].1,
        snapshot.total_supply matches Some(v) ==> migrated(
            empty_ledger(),
            snapshot,
        ).ft.total_supply == v,
        snapshot.account_storage_usage matches Some(v) ==> migrated(
            empty_ledger(),
            snapshot,
        ).ft.account_storage_usage == v,
        snapshot.accounts_counter matches Some(v) ==> migrated(
            empty_ledger(),
            snapshot,
        ).ft.accounts_counter == v,
{
    lemma_apply_accounts_lookup(empty_ledger().ft.balances, snapshot.accounts, account);
    lemma_last_amount(snapshot.accounts);
    if exists|i: int|
        0 <= i < snapshot.accounts.len() && (#[trigger] snapshot.accounts[i]).0 == account {
        let i = choose|i: int|
            0 <= i < snapshot.accounts.len() && (#[trigger] snapshot.accounts[i]).0 == account;
        assert(snapshot.accounts[i].0 == account);
    }
    assert forall|i: int|
        0 <= i < snapshot.accounts.len() && (#[trigger] snapshot.accounts[i]).0
            == account implies migrated(empty_ledger(), snapshot).ft.balances[account]
        == snapshot.accounts[i].1 by {
        assert(last_amount(snapshot.accounts, snapshot.accounts[i].0) == Some(
            snapshot.accounts[i].1,
        ));
    }
}

/// Applying a batch a second time changes nothing.
pub proof fn lemma_migrate_idempotent(state: LedgerView, data: MigrationInputView)
    ensures
        migrated(migrated(state, data), data) == migrated(state, data),
{
    let once = apply_accounts(state.ft.balances, data.accounts);
    let twice = apply_accounts(once, data.accounts);
    assert forall|k: Seq<char>| twice.dom().contains(k) <==> once.dom().contains(k) by {
        lemma_apply_accounts_lookup(state.ft.balances, data.accounts, k);
        lemma_apply_accounts_lookup(once, data.accounts, k);
    }
    assert forall|k: Seq<char>| twice.dom().contains(k) implies twice[k] == once[k] by {
        lemma_apply_accounts_lookup(state.ft.balances, data.accounts, k);
        lemma_apply_accounts_lookup(once, data.accounts, k);
    }
    assert(twice =~= once);
    assert(state.used_proofs.union(data.used_proofs.to_set()).union(data.used_proofs.to_set())
        =~= state.used_proofs.union(data.used_proofs.to_set()));
}

/// No proof is reported exactly when the ledger holds every proof of the
/// batch; a reported proof is one of the batch that the ledger lacks.
pub proof fn lemma_first_unused_proof(ledger: Set<Seq<char>>, proofs: Seq<Seq<char>>)
    ensures
        first_unused_proof(ledger, proofs) is None <==> forall|i: int|
            0 <= i < proofs.len() ==> ledger.contains(#[trigger] proofs[i]),
        first_unused_proof(ledger, proofs) matches Some(p) ==> proofs.contains(p)
            && !ledger.contains(p),
    decreases proofs.len(),
{
    if proofs.len() > 0 {
        let rest = proofs.drop_first();
        lemma_first_unused_proof(ledger, rest);
        if ledger.contains(proofs.first()) {
            if first_unused_proof(ledger, rest) is None {
                assert forall|i: int| 0 <= i < proofs.len() implies ledger.contains(
                    #[trigger] proofs[i],
                ) by {
                    if i > 0 {
                        assert(rest[i - 1] == proofs[i]);
                    }
                }
            } else {
                let p = first_unused_proof(ledger, rest)->0;
                let j = choose|j: int| 0 <= j < rest.len() && rest[j] == p;
                assert(proofs[j + 1] == p);
            }
            if forall|i: int| 0 <= i < proofs.len() ==> ledger.contains(#[trigger] proofs[i]) {
                assert forall|i: int| 0 <= i < rest.len() implies ledger.contains(
                    #[trigger] rest[i],
                ) by {
                    assert(rest[i] == proofs[i + 1]);
                }
            }
        } else {
            assert(proofs[0] == proofs.first());
        }
    }
}

/// The entries before the one at `at` agree with the balances, so the
/// report is about the entry at `at`, if that one disagrees.
pub proof fn lemma_first_account_mismatch_at(
    balances: Map<Seq<char>, u128>,
    entries: Seq<(Seq<char>, u128)>,
    at: int,
)
    requires
        0 <= at <= entries.len(),
        forall|i: int| 0 <= i < at ==> account_mismatch(balances, #[trigger] entries[i]) is None,
    ensures
        first_account_mismatch(balances, entries) == first_account_mismatch(
            balances,
            entries.skip(at),
        ),
        at < entries.len() && account_mismatch(balances, entries[at]) is Some
            ==> first_account_mismatch(balances, entries) == account_mismatch(
            balances,
            entries[at],
        ),
    decreases at,
{
    if at == 0 {
        assert(entries.skip(0) =~= entries);
    } else {
        lemma_first_account_mismatch_at(balances, entries, at - 1);
        let rest = entries.skip(at - 1);
        assert(rest.first() == entries[at - 1]);
        assert(rest.drop_first() =~= entries.skip(at));
    }
    if at < entries.len() {
        assert(entries.skip(at).first() == entries[at]);
    }
}

/// No account is reported exactly when every entry agrees with the balances,
/// and a report about an account is never a success.
pub proof fn lemma_first_account_mismatch_none(
    balances: Map<Seq<char>, u128>,
    entries: Seq<(Seq<char>, u128)>,
)
    ensures
        first_account_mismatch(balances, entries) is None <==> forall|i: int|
            0 <= i < entries.len() ==> account_mismatch(balances, #[trigger] entries[i]) is None,
        first_account_mismatch(balances, entries) matches Some(outcome) ==> outcome
            is AccountNotExist || outcome is AccountAmount,
    decreases entries.len(),
{
    if entries.len() > 0 {
        let rest = entries.drop_first();
        lemma_first_account_mismatch_none(balances, rest);
        assert(entries[0] == entries.first());
        if account_mismatch(balances, entries.first()) is None {
            if first_account_mismatch(balances, rest) is None {
                assert forall|i: int| 0 <= i < entries.len() implies account_mismatch(
                    balances,
                    #[trigger] entries[i],
                ) is None by {
                    if i > 0 {
                        assert(rest[i - 1] == entries[i]);
                    }
                }
            }
            if forall|i: int|
                0 <= i < entries.len() ==> account_mismatch(balances, #[trigger] entries[i])
                    is None {
                assert forall|i: int| 0 <= i < rest.len() implies account_mismatch(
                    balances,
                    #[trigger] rest[i],
                ) is None by {
                    assert(rest[i] == entries[i + 1]);
                }
            }
        }
    }
}

/// Every entry and every proof of a batch is among those of all batches.
pub proof fn lemma_batch_is_part(batches: Seq<MigrationInputView>, at: int)
    requires
        0 <= at < batches.len(),
    ensures
        forall|j: int|
            0 <= j < batches[at].accounts.len() ==> all_accounts(batches).contains(
                #[trigger] batches[at].accounts[j],
            ),
        forall|j: int|
            0 <= j < batches[at].used_proofs.len() ==> all_proofs(batches).contains(
                #[trigger] batches[at].used_proofs[j],
            ),
    decreases batches.len(),
{
    let init = batches.drop_last();
    let last = batches.last();
    if at == batches.len() - 1 {
        assert forall|j: int| 0 <= j < last.accounts.len() implies all_accounts(batches).contains(
            #[trigger] last.accounts[j],
        ) by {
            assert(all_accounts(batches)[all_accounts(init).len() + j] == last.accounts[j]);
        }
        assert forall|j: int| 0 <= j < last.used_proofs.len() implies all_proofs(batches).contains(
            #[trigger] last.used_proofs[j],
        ) by {
            assert(all_proofs(batches)[all_proofs(init).len() + j] == last.used_proofs[j]);
        }
    } else {
        lemma_batch_is_part(init, at);
        assert(init[at] == batches[at]);
        assert forall|j: int|
            0 <= j < batches[at].accounts.len() implies all_accounts(batches).contains(
            #[trigger] batches[at].accounts[j],
        ) by {
            let e = batches[at].accounts[j];
            assert(all_accounts(init).contains(e));
            let idx = choose|idx: int| 0 <= idx < all_accounts(init).len() && all_accounts(init)[idx] == e;
            assert(all_accounts(batches)[idx] == e);
        }
        assert forall|j: int|
            0 <= j < batches[at].used_proofs.len() implies all_proofs(batches).contains(
            #[trigger] batches[at].used_proofs[j],
        ) by {
            let p = batches[at].used_proofs[j];
            assert(all_proofs(init).contains(p));
            let idx = choose|idx: int| 0 <= idx < all_proofs(init).len() && all_proofs(init)[idx] == p;
            assert(all_proofs(batches)[idx] == p);
        }
    }
}

/// Stores that hold the last amount of every entry of `written`, and every
/// proof of the batch, agree with a batch whose entries are among `written`.
proof fn lemma_part_agrees(
    state: LedgerView,
    written: Seq<(Seq<char>, u128)>,
    before: Map<Seq<char>, u128>,
    data: MigrationInputView,
)
    requires
        distinct_keys(written),
        state.ft.balances == apply_accounts(before, written),
        forall|j: int| 0 <= j < data.accounts.len() ==> written.contains(#[trigger] data.accounts[j]),
        forall|j: int|
            0 <= j < data.used_proofs.len() ==> state.used_proofs.contains(
                #[trigger] data.used_proofs[j],
            ),
    ensures
        check_outcome(state, data) == counter_mismatch(state.ft, data),
{
    lemma_first_unused_proof(state.used_proofs, data.used_proofs);
    lemma_last_amount(written);
    assert forall|j: int| 0 <= j < data.accounts.len() implies account_mismatch(
        state.ft.balances,
        #[trigger] data.accounts[j],
    ) is None by {
        let e = data.accounts[j];
        assert(written.contains(e));
        let idx = choose|idx: int| 0 <= idx < written.len() && written[idx] == e;
        assert(last_amount(written, written[idx].0) == Some(written[idx].1));
        lemma_apply_accounts_lookup(before, written, e.0);
    }
    lemma_first_account_mismatch_none(state.ft.balances, data.accounts);
}

/// A pass over stores that were built by applying a snapshot's batches, and
/// then a last batch that may carry the counters, finds every one of these
/// batches in agreement, provided no account occurs twice in the snapshot.
pub proof fn lemma_check_after_migration(
    state: LedgerView,
    batches: Seq<MigrationInputView>,
    last: MigrationInputView,
    at: int,
)
    requires
        carry_no_counter(batches),
        distinct_keys(all_accounts(batches) + last.accounts),
        0 <= at < batches.len(),
    ensures
        check_outcome(migrated(migrated_all(state, batches), last), batches[at])
            == CheckOutcome::Success,
        check_outcome(migrated(migrated_all(state, batches), last), last) == CheckOutcome::Success,
{
    let end = migrated(migrated_all(state, batches), last);
    let written = all_accounts(batches) + last.accounts;
    lemma_migrated_all(state, batches);
    lemma_no_counter(batches);
    lemma_apply_accounts_concat(state.ft.balances, all_accounts(batches), last.accounts);
    lemma_batch_is_part(batches, at);
    assert forall|j: int| 0 <= j < batches[at].accounts.len() implies written.contains(
        #[trigger] batches[at].accounts[j],
    ) by {
        let e = batches[at].accounts[j];
        assert(all_accounts(batches).contains(e));
        let idx = choose|idx: int|
            0 <= idx < all_accounts(batches).len() && all_accounts(batches)[idx] == e;
        assert(written[idx] == e);
    }
    assert forall|j: int| 0 <= j < batches[at].used_proofs.len() implies end.used_proofs.contains(
        #[trigger] batches[at].used_proofs[j],
    ) by {
        assert(all_proofs(batches).contains(batches[at].used_proofs[j]));
    }
    lemma_part_agrees(end, written, state.ft.balances, batches[at]);
    assert forall|j: int| 0 <= j < last.accounts.len() implies written.contains(
        #[trigger] last.accounts[j],
    ) by {
        assert(written[all_accounts(batches).len() + j] == last.accounts[j]);
    }
    assert forall|j: int| 0 <= j < last.used_proofs.len() implies end.used_proofs.contains(
        #[trigger] last.used_proofs[j],
    ) by {
        assert(last.used_proofs.contains(last.used_proofs[j]));
    }
    lemma_part_agrees(end, written, state.ft.balances, last);
}

/// Where a batch agrees with the stores and one of its accounts then holds
/// another balance, the pass reports that account, with the amount of the
/// batch and the balance found.
pub proof fn lemma_check_detects_corruption(
    state: LedgerView,
    data: MigrationInputView,
    at: int,
    actual: u128,
)
    requires
        check_outcome(state, data) == CheckOutcome::Success,
        distinct_keys(data.accounts),
        0 <= at < data.accounts.len(),
        actual != data.accounts[at].1,
    ensures
        check_outcome(
            LedgerView { ft: state.ft.with_balance(data.accounts[at].0, actual), ..state },
            data,
        ) == (CheckOutcome::AccountAmount {
            account_id: data.accounts[at].0,
            expected: data.accounts[at].1,
            actual,
        }),
{
    let changed = state.ft.with_balance(data.accounts[at].0, actual);
    lemma_first_account_mismatch_none(state.ft.balances, data.accounts);
    assert forall|i: int| 0 <= i < at implies account_mismatch(
        changed.balances,
        #[trigger] data.accounts[i],
    ) is None by {
        assert(account_mismatch(state.ft.balances, data.accounts[i]) is None);
        assert(data.accounts[i].0 != data.accounts[at].0);
    }
    lemma_first_account_mismatch_at(changed.balances, data.accounts, at);
}

} // verus!
