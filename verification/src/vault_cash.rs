//! Vault liquidity read from raw storage writes.
//!
//! A vault keeps its available liquidity ("cash") in a packed storage slot.
//! Every write to that slot by a deposit, withdrawal, borrow or repayment
//! gives an absolute snapshot of the vault's balance of its asset. Within a
//! transaction only one snapshot per vault and token is kept: a later write
//! replaces the held one when its ordinal is greater and its value differs.

use vstd::prelude::*;
use crate::address::{address_bytes, address_text, decode_address, store_address, text_bytes};
use crate::keyed::{first_index, lemma_first_index, lemma_first_index_absent, lemma_first_index_found};
use crate::model::{
    copy_bytes, lemma_views_push, same_bytes, views, Call, Function, StorageChange,
    TransactionTrace,
};
use crate::registry::{
    latest, vault_asset_key, vault_asset_key_text, vault_key, vault_key_text, RegistryStore,
};

verus! {

/// The key of the storage slot that holds a vault's cash: slot two.
pub open spec fn cash_slot_key() -> Seq<u8> {
    Seq::new(32, |i: int| if i == 31 { 2u8 } else { 0u8 })
}

/// The cash field of a slot as a 32-byte big-endian number: the fourteen
/// bytes that start twelve bytes into the slot, behind eighteen zero bytes.
pub open spec fn cash_value(slot: Seq<u8>) -> Seq<u8> {
    Seq::new(32, |i: int| if i < 18 { 0u8 } else { slot[i - 6] })
}

/// The key of the storage slot that holds a vault's cash.
pub fn get_storage_key_for_vault_cash() -> (key: Vec<u8>)
    ensures
        key@ == cash_slot_key(),
{
    let mut key: Vec<u8> = Vec::new();
    let mut i: usize = 0;
    while i < 31
        invariant
            i <= 31,
            key@.len() == i,
            forall|j: int| 0 <= j < i ==> key@[j] == 0,
        decreases 31 - i,
    {
        key.push(0u8);
        i += 1;
    }
    key.push(2u8);
    assert(key@ =~= cash_slot_key());
    key
}

/// Reads the cash field out of a slot's value. A value too short to hold the
/// field has none.
pub fn decode_cash(slot: &[u8]) -> (cash: Option<Vec<u8>>)
    ensures
        cash is Some <==> slot@.len() >= 26,
        cash matches Some(value) ==> value@ == cash_value(slot@),
{
    if slot.len() < 26 {
        return None;
    }
    let mut value: Vec<u8> = Vec::new();
    let mut i: usize = 0;
    while i < 32
        invariant
            i <= 32,
            slot@.len() >= 26,
            value@.len() == i,
            forall|j: int| 0 <= j < i ==> value@[j] == cash_value(slot@)[j],
        decreases 32 - i,
    {
        if i < 18 {
            value.push(0u8);
        } else {
            value.push(slot[i - 6]);
        }
        i += 1;
    }
    assert(value@ =~= cash_value(slot@));
    Some(value)
}

/// The cash field occupies the last fourteen bytes of the decoded value, in
/// the order it had in the slot, and nothing else of the slot reaches it.
pub proof fn lemma_cash_value_layout(slot: Seq<u8>)
    requires
        slot.len() >= 26,
    ensures
        cash_value(slot).len() == 32,
        cash_value(slot).subrange(18, 32) == slot.subrange(12, 26),
        forall|i: int| 0 <= i < 18 ==> cash_value(slot)[i] == 0,
{
    assert(cash_value(slot).subrange(18, 32) =~= slot.subrange(12, 26));
}

/// The decoded value spells the number that the cash field spells.
pub proof fn lemma_cash_value_number(slot: Seq<u8>)
    requires
        slot.len() >= 26,
    ensures
        crate::amount::unsigned_be(cash_value(slot)) == crate::amount::unsigned_be(
            slot.subrange(12, 26),
        ),
{
    assert(cash_value(slot) =~= Seq::new(18, |i: int| 0u8) + slot.subrange(12, 26));
    crate::amount::lemma_unsigned_be_leading_zeros(18, slot.subrange(12, 26));
}

/// Two slots that agree on the cash field decode to the same value, whatever
/// their other bytes hold.
pub proof fn lemma_cash_value_depends_on_field_only(first: Seq<u8>, second: Seq<u8>)
    requires
        first.len() >= 26,
        second.len() >= 26,
        first.subrange(12, 26) == second.subrange(12, 26),
    ensures
        cash_value(first) == cash_value(second),
{
    assert forall|i: int| 0 <= i < 32 implies cash_value(first)[i] == cash_value(second)[i] by {
        if i >= 18 {
            assert(first.subrange(12, 26)[i - 18] == first[i - 6]);
            assert(second.subrange(12, 26)[i - 18] == second[i - 6]);
        }
    }
    assert(cash_value(first) =~= cash_value(second));
}

/// Where the field already sits in a slot's last fourteen bytes, the decoded
/// value ends in those same bytes.
pub proof fn lemma_cash_value_of_trailing_field(slot: Seq<u8>)
    requires
        slot.len() == 32,
        slot.subrange(12, 26) == slot.subrange(18, 32),
    ensures
        cash_value(slot).subrange(18, 32) == slot.subrange(18, 32),
        forall|i: int| 0 <= i < 18 ==> cash_value(slot)[i] == 0,
{
    lemma_cash_value_layout(slot);
}

/// The final balance of one token in one vault.
#[derive(Debug, PartialEq, Eq)]
pub struct VaultBalance {
    pub ordinal: u64,
    pub value: Vec<u8>,
}

/// The snapshot held for one vault and token.
#[derive(Debug, PartialEq, Eq)]
pub struct VaultCash {
    pub vault: Vec<u8>,
    pub token: Vec<u8>,
    pub balance: VaultBalance,
}

/// The view of a [`VaultCash`].
pub struct VaultCashView {
    pub vault: Seq<u8>,
    pub token: Seq<u8>,
    pub ordinal: u64,
    pub value: Seq<u8>,
}

impl View for VaultCash {
    type V = VaultCashView;

    open spec fn view(&self) -> VaultCashView {
        VaultCashView {
            vault: self.vault@,
            token: self.token@,
            ordinal: self.balance.ordinal,
            value: self.balance.value@,
        }
    }
}

/// The vault and token of every snapshot.
pub open spec fn snapshot_keys(entries: Seq<VaultCashView>) -> Seq<(Seq<u8>, Seq<u8>)> {
    entries.map_values(|entry: VaultCashView| (entry.vault, entry.token))
}

/// The position of the snapshot held for a vault and token: the first entry
/// that names both.
pub open spec fn held_at(entries: Seq<VaultCashView>, vault: Seq<u8>, token: Seq<u8>) -> Option<int> {
    first_index(snapshot_keys(entries), (vault, token))
}

/// The snapshots after one storage write has been taken into account for a
/// vault and its token. A write to another slot, or one too short to hold the
/// field, changes nothing. The first write for a vault and token is kept as it
/// is; a further one replaces the held snapshot only if its ordinal is greater
/// and its value differs.
pub open spec fn account(
    entries: Seq<VaultCashView>,
    change: StorageChange,
    vault: Seq<u8>,
    token: Seq<u8>,
) -> Seq<VaultCashView> {
    if change.key@ != cash_slot_key() || change.new_value@.len() < 26 {
        entries
    } else {
        let cash = cash_value(change.new_value@);
        match held_at(entries, vault, token) {
            Some(i) => if entries[i].ordinal < change.ordinal && entries[i].value != cash {
                entries.update(
                    i,
                    VaultCashView { vault, token, ordinal: change.ordinal, value: cash },
                )
            } else {
                entries
            },
            None => entries.push(
                VaultCashView { vault, token, ordinal: change.ordinal, value: cash },
            ),
        }
    }
}

/// The snapshots after a list of writes is taken into account for one vault
/// and token, in the order of the list.
pub open spec fn account_all(
    entries: Seq<VaultCashView>,
    changes: Seq<StorageChange>,
    vault: Seq<u8>,
    token: Seq<u8>,
) -> Seq<VaultCashView>
    decreases changes.len(),
{
    if changes.len() == 0 {
        entries
    } else {
        account(account_all(entries, changes.drop_last(), vault, token), changes.last(), vault, token)
    }
}

/// The last write wins: of writes to the cash slot that arrive by ascending
/// ordinal, one snapshot is left, and it holds the cash of the last write.
pub proof fn lemma_last_write_wins(changes: Seq<StorageChange>, vault: Seq<u8>, token: Seq<u8>)
    requires
        changes.len() > 0,
        forall|i: int|
            0 <= i < changes.len() ==> (#[trigger] changes[i]).key@ == cash_slot_key()
                && changes[i].new_value@.len() >= 26,
        forall|i: int, j: int|
            0 <= i < j < changes.len() ==> (#[trigger] changes[i]).ordinal
                < (#[trigger] changes[j]).ordinal,
    ensures
        account_all(Seq::empty(), changes, vault, token).len() == 1,
        account_all(Seq::empty(), changes, vault, token)[0].vault == vault,
        account_all(Seq::empty(), changes, vault, token)[0].token == token,
        account_all(Seq::empty(), changes, vault, token)[0].value == cash_value(
            changes.last().new_value@,
        ),
        account_all(Seq::empty(), changes, vault, token)[0].ordinal <= changes.last().ordinal,
    decreases changes.len(),
{
    let earlier = account_all(Seq::empty(), changes.drop_last(), vault, token);
    assert(changes[changes.len() - 1] == changes.last());
    if changes.len() == 1 {
        assert(changes.drop_last() =~= Seq::<StorageChange>::empty());
        lemma_first_index(snapshot_keys(Seq::<VaultCashView>::empty()), (vault, token));
    } else {
        assert forall|i: int| 0 <= i < changes.drop_last().len() implies (
        #[trigger] changes.drop_last()[i]).key@ == cash_slot_key()
            && changes.drop_last()[i].new_value@.len() >= 26 by {
            assert(changes.drop_last()[i] == changes[i]);
        }
        assert forall|i: int, j: int| 0 <= i < j < changes.drop_last().len() implies (
        #[trigger] changes.drop_last()[i]).ordinal < (#[trigger] changes.drop_last()[j]).ordinal by {
            assert(changes.drop_last()[i] == changes[i]);
            assert(changes.drop_last()[j] == changes[j]);
        }
        lemma_last_write_wins(changes.drop_last(), vault, token);
        lemma_first_index(snapshot_keys(earlier), (vault, token));
        assert(changes.drop_last().last() == changes[changes.len() - 2]);
        assert(changes[changes.len() - 2].ordinal < changes[changes.len() - 1].ordinal);
    }
}

/// The snapshots of a transaction, one per vault and token, in the order in
/// which the pairs were first written.
pub struct VaultBalances {
    entries: Vec<VaultCash>,
}

impl View for VaultBalances {
    type V = Seq<VaultCashView>;

    closed spec fn view(&self) -> Seq<VaultCashView> {
        views(self.entries@)
    }
}

impl VaultBalances {
    /// No snapshots.
    pub fn new() -> (balances: Self)
        ensures
            balances@ == Seq::<VaultCashView>::empty(),
    {
        let balances = VaultBalances { entries: Vec::new() };
        assert(balances@ =~= Seq::<VaultCashView>::empty());
        balances
    }

    /// The number of snapshots.
    pub fn len(&self) -> (len: usize)
        ensures
            len == self@.len(),
    {
        self.entries.len()
    }

    /// Whether there is no snapshot.
    pub fn is_empty(&self) -> (empty: bool)
        ensures
            empty == (self@.len() == 0),
    {
        self.entries.len() == 0
    }

    /// The snapshot at a position, if there are that many.
    pub fn get(&self, position: usize) -> (entry: Option<&VaultCash>)
        ensures
            match entry {
                Some(found) => position < self@.len() && found@ == self@[position as int],
                None => position >= self@.len(),
            },
    {
        if position < self.entries.len() {
            Some(&self.entries[position])
        } else {
            None
        }
    }

    /// The snapshot at a position within the list.
    pub(crate) fn snapshot(&self, position: usize) -> (entry: &VaultCash)
        requires
            position < self@.len(),
        ensures
            entry@ == self@[position as int],
    {
        &self.entries[position]
    }

    /// The snapshot held for a vault and token, if there is one.
    pub fn balance_of(&self, vault: &[u8], token: &[u8]) -> (balance: Option<&VaultBalance>)
        ensures
            match balance {
                Some(held) => held_at(self@, vault@, token@) matches Some(i) && held.ordinal
                    == self@[i].ordinal && held.value@ == self@[i].value,
                None => held_at(self@, vault@, token@) is None,
            },
    {
        match self.position_of(vault, token) {
            Some(i) => Some(&self.entries[i].balance),
            None => None,
        }
    }

    /// The position of the snapshot for a vault and token.
    fn position_of(&self, vault: &[u8], token: &[u8]) -> (position: Option<usize>)
        ensures
            match position {
                Some(i) => held_at(self@, vault@, token@) == Some(i as int) && i < self@.len(),
                None => held_at(self@, vault@, token@) is None,
            },
    {
        let ghost keys = snapshot_keys(self@);
        let mut i: usize = 0;
        while i < self.entries.len()
            invariant
                i <= self.entries.len(),
                keys == snapshot_keys(self@),
                forall|j: int| 0 <= j < i ==> keys[j] != (vault@, token@),
            decreases self.entries.len() - i,
        {
            let entry = &self.entries[i];
            assert(keys[i as int] == (entry.vault@, entry.token@));
            if same_bytes(entry.vault.as_slice(), vault) && same_bytes(
                entry.token.as_slice(),
                token,
            ) {
                proof {
                    lemma_first_index_found(keys, (vault@, token@), i as int);
                }
                return Some(i);
            }
            i += 1;
        }
        proof {
            lemma_first_index_absent(keys, (vault@, token@));
        }
        None
    }
}

/// Takes one storage write into account for a vault and its token.
pub fn add_change_if_accounted(
    vault_balances: &mut VaultBalances,
    change: &StorageChange,
    vault_address: &[u8],
    token_address: &[u8],
)
    ensures
        final(vault_balances)@ == account(
            old(vault_balances)@,
            *change,
            vault_address@,
            token_address@,
        ),
{
    let slot_key = get_storage_key_for_vault_cash();
    if !same_bytes(change.key.as_slice(), slot_key.as_slice()) {
        return ;
    }
    let cash_value = match decode_cash(change.new_value.as_slice()) {
        Some(value) => value,
        None => {
            return ;
        },
    };
    match vault_balances.position_of(vault_address, token_address) {
        Some(i) => {
            let held = &vault_balances.entries[i];
            assert(vault_balances@[i as int] == held@);
            if held.balance.ordinal < change.ordinal && !same_bytes(
                held.balance.value.as_slice(),
                cash_value.as_slice(),
            ) {
                let replacement = VaultCash {
                    vault: copy_bytes(vault_address),
                    token: copy_bytes(token_address),
                    balance: VaultBalance { ordinal: change.ordinal, value: cash_value },
                };
                let ghost before = vault_balances.entries@;
                vault_balances.entries.set(i, replacement);
                assert(views(vault_balances.entries@) =~= views(before).update(
                    i as int,
                    replacement@,
                ));
            }
        },
        None => {
            let entry = VaultCash {
                vault: copy_bytes(vault_address),
                token: copy_bytes(token_address),
                balance: VaultBalance { ordinal: change.ordinal, value: cash_value },
            };
            proof {
                lemma_views_push(vault_balances.entries@, entry);
            }
            vault_balances.entries.push(entry);
        },
    }
}

/// Whether a call is one of the operations that move a vault's cash, with its
/// state kept.
pub open spec fn moves_cash(call: Call) -> bool {
    !call.state_reverted && (call.function == Function::Deposit || call.function
        == Function::Withdraw || call.function == Function::Borrow || call.function
        == Function::RepayWithShares)
}

/// The snapshots after one storage write of a cash-moving call. Only a write
/// to a registered vault whose asset is registered counts; the token is the
/// asset as the registry names it.
pub open spec fn scan_change(
    entries: Seq<VaultCashView>,
    change: StorageChange,
    registry: Seq<(Seq<char>, Seq<char>)>,
) -> Seq<VaultCashView> {
    let vault = address_text(change.address@);
    if latest(registry, vault_key_text(vault)) is Some {
        match latest(registry, vault_asset_key_text(vault)) {
            Some(asset) => account(
                entries,
                change,
                change.address@,
                address_bytes(text_bytes(asset)),
            ),
            None => entries,
        }
    } else {
        entries
    }
}

/// The snapshots after the storage writes of one call, in the order the call
/// lists them.
pub open spec fn scan_changes(
    entries: Seq<VaultCashView>,
    changes: Seq<StorageChange>,
    registry: Seq<(Seq<char>, Seq<char>)>,
) -> Seq<VaultCashView>
    decreases changes.len(),
{
    if changes.len() == 0 {
        entries
    } else {
        scan_change(scan_changes(entries, changes.drop_last(), registry), changes.last(), registry)
    }
}

/// The snapshots after the calls of a transaction, in the order the
/// transaction lists them.
pub open spec fn scan_calls(
    entries: Seq<VaultCashView>,
    calls: Seq<Call>,
    registry: Seq<(Seq<char>, Seq<char>)>,
) -> Seq<VaultCashView>
    decreases calls.len(),
{
    if calls.len() == 0 {
        entries
    } else {
        let before = scan_calls(entries, calls.drop_last(), registry);
        if moves_cash(calls.last()) {
            scan_changes(before, calls.last().storage_changes@, registry)
        } else {
            before
        }
    }
}

/// Whether a call is one of the operations that move a vault's cash, with its
/// state kept.
pub fn is_cash_operation(call: &Call) -> (moves: bool)
    ensures
        moves == moves_cash(*call),
{
    !call.state_reverted && (call.function == Function::Deposit || call.function
        == Function::Withdraw || call.function == Function::Borrow || call.function
        == Function::RepayWithShares)
}

/// The final cash of every registered vault that a transaction wrote to.
pub fn get_eulerswap_vaults_balances(
    transaction: &TransactionTrace,
    components_store: &RegistryStore,
) -> (vault_balances: VaultBalances)
    ensures
        vault_balances@ == scan_calls(Seq::empty(), transaction.calls@, components_store@),
{
    let mut vault_balances = VaultBalances::new();
    let calls = &transaction.calls;
    let mut c: usize = 0;
    while c < calls.len()
        invariant
            c <= calls.len(),
            calls == &transaction.calls,
            vault_balances@ == scan_calls(
                Seq::empty(),
                calls@.take(c as int),
                components_store@,
            ),
        decreases calls.len() - c,
    {
        let call = &calls[c];
        let ghost before = vault_balances@;
        proof {
            let longer = calls@.take(c + 1);
            assert(longer.drop_last() =~= calls@.take(c as int));
            assert(longer.last() == *call);
        }
        if is_cash_operation(call) {
            let changes = &call.storage_changes;
            let mut s: usize = 0;
            while s < changes.len()
                invariant
                    s <= changes.len(),
                    vault_balances@ == scan_changes(
                        before,
                        changes@.take(s as int),
                        components_store@,
                    ),
                decreases changes.len() - s,
            {
                let change = &changes[s];
                proof {
                    let longer = changes@.take(s + 1);
                    assert(longer.drop_last() =~= changes@.take(s as int));
                    assert(longer.last() == *change);
                }
                let vault = store_address(change.address.as_slice());
                if components_store.get_last(vault_key(vault.as_str()).as_str()).is_some() {
                    match components_store.get_last(vault_asset_key(vault.as_str()).as_str()) {
                        Some(asset_address) => {
                            let token = decode_address(asset_address.as_str());
                            add_change_if_accounted(
                                &mut vault_balances,
                                change,
                                change.address.as_slice(),
                                token.as_slice(),
                            );
                        },
                        None => {},
                    }
                }
                s += 1;
            }
            assert(changes@.take(changes@.len() as int) =~= changes@);
        }
        c += 1;
    }
    assert(calls@.take(calls@.len() as int) =~= calls@);
    vault_balances
}

} // verus!
