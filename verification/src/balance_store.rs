//! Absolute balances.
//!
//! The store keeps one running total per component and token. A total starts
//! at zero and only ever changes by a delta being added to it. What the
//! consumer is told is the total after each delta, never less than zero.

use vstd::prelude::*;
use crate::amount::{
    lemma_signed_be_sign, lemma_signed_encoding_value, magnitude_bytes_be,
    magnitude_encoding, signed_be, signed_encoding, sum_signed_bytes_be,
};
use crate::keyed::{first_index, lemma_first_index, lemma_first_index_absent, lemma_first_index_found};
use crate::model::{
    copy_bytes, lemma_take_all, lemma_take_step, lemma_views_push, lemma_views_update,
    same_bytes, views, BalanceChange, BalanceChangeView, BalanceDeltaView,
    BlockBalanceDeltas, TransactionBalanceChanges, TransactionBalanceChangesView,
};

verus! {

/// The running total of one component and token, as the shortest
/// two's-complement encoding of the sum of its deltas.
pub struct BalanceTotal {
    pub component_id: Vec<u8>,
    pub token: Vec<u8>,
    pub total: Vec<u8>,
}

/// The view of a [`BalanceTotal`].
pub struct BalanceTotalView {
    pub component_id: Seq<u8>,
    pub token: Seq<u8>,
    pub total: Seq<u8>,
}

impl View for BalanceTotal {
    type V = BalanceTotalView;

    open spec fn view(&self) -> BalanceTotalView {
        BalanceTotalView {
            component_id: self.component_id@,
            token: self.token@,
            total: self.total@,
        }
    }
}

/// The component and token of every entry.
pub open spec fn total_keys(entries: Seq<BalanceTotalView>) -> Seq<(Seq<u8>, Seq<u8>)> {
    entries.map_values(|entry: BalanceTotalView| (entry.component_id, entry.token))
}

/// The totals that a list of entries stands for.
pub open spec fn totals_of(entries: Seq<BalanceTotalView>) -> Map<(Seq<u8>, Seq<u8>), int> {
    Map::new(
        |key: (Seq<u8>, Seq<u8>)| first_index(total_keys(entries), key) is Some,
        |key: (Seq<u8>, Seq<u8>)| signed_be(entries[first_index(total_keys(entries), key).unwrap()].total),
    )
}

/// The balance that a component holds of a token: zero until a delta
/// arrives.
pub open spec fn balance_of(
    totals: Map<(Seq<u8>, Seq<u8>), int>,
    component_id: Seq<u8>,
    token: Seq<u8>,
) -> int {
    if totals.contains_key((component_id, token)) {
        totals[(component_id, token)]
    } else {
        0
    }
}

/// The totals after an amount is added to the balance of a component and
/// token.
pub open spec fn with_amount(
    totals: Map<(Seq<u8>, Seq<u8>), int>,
    component_id: Seq<u8>,
    token: Seq<u8>,
    amount: int,
) -> Map<(Seq<u8>, Seq<u8>), int> {
    totals.insert((component_id, token), balance_of(totals, component_id, token) + amount)
}

/// The totals after a delta is applied.
pub open spec fn with_delta(
    totals: Map<(Seq<u8>, Seq<u8>), int>,
    delta: BalanceDeltaView,
) -> Map<(Seq<u8>, Seq<u8>), int> {
    with_amount(totals, delta.component_id, delta.token, signed_be(delta.delta))
}

/// The totals after a list of deltas is applied in order.
pub open spec fn with_deltas(
    totals: Map<(Seq<u8>, Seq<u8>), int>,
    deltas: Seq<BalanceDeltaView>,
) -> Map<(Seq<u8>, Seq<u8>), int>
    decreases deltas.len(),
{
    if deltas.len() == 0 {
        totals
    } else {
        with_delta(with_deltas(totals, deltas.drop_last()), deltas.last())
    }
}

/// An absolute balance as the consumer is told it: the big-endian bytes of
/// the total, and of zero where the total is negative.
pub open spec fn absolute_encoding(total: int) -> Seq<u8> {
    if total < 0 {
        seq![0u8]
    } else {
        magnitude_encoding(total as nat)
    }
}

/// The record of the balance that a delta leaves behind.
pub open spec fn balance_record(
    totals: Map<(Seq<u8>, Seq<u8>), int>,
    delta: BalanceDeltaView,
) -> TransactionBalanceChangesView {
    TransactionBalanceChangesView {
        tx: delta.tx,
        balance_changes: seq![
            BalanceChangeView {
                token: delta.token,
                balance: absolute_encoding(
                    balance_of(totals, delta.component_id, delta.token) + signed_be(delta.delta),
                ),
                component_id: delta.component_id,
            },
        ],
    }
}

/// The records that a list of deltas leaves behind: one per delta, in order,
/// each with the balance as it stands once the delta is applied.
pub open spec fn balance_records(
    totals: Map<(Seq<u8>, Seq<u8>), int>,
    deltas: Seq<BalanceDeltaView>,
) -> Seq<TransactionBalanceChangesView>
    decreases deltas.len(),
{
    if deltas.len() == 0 {
        Seq::empty()
    } else {
        balance_records(totals, deltas.drop_last()).push(
            balance_record(with_deltas(totals, deltas.drop_last()), deltas.last()),
        )
    }
}

/// The store of absolute balances. Its view maps each component and token
/// that a delta has reached to its running total.
pub struct BalanceStore {
    entries: Vec<BalanceTotal>,
}

impl View for BalanceStore {
    type V = Map<(Seq<u8>, Seq<u8>), int>;

    closed spec fn view(&self) -> Map<(Seq<u8>, Seq<u8>), int> {
        totals_of(views(self.entries@))
    }
}

impl BalanceStore {
    /// A store without balances.
    pub fn new() -> (store: Self)
        ensures
            store@ == Map::<(Seq<u8>, Seq<u8>), int>::empty(),
    {
        let store = BalanceStore { entries: Vec::new() };
        proof {
            assert forall|key: (Seq<u8>, Seq<u8>)| !store@.contains_key(key) by {
                lemma_first_index_absent(total_keys(views(store.entries@)), key);
            }
            assert(store@ =~= Map::<(Seq<u8>, Seq<u8>), int>::empty());
        }
        store
    }

    /// The position of the entry for a component and token.
    fn position_of(&self, component_id: &[u8], token: &[u8]) -> (position: Option<usize>)
        ensures
            match position {
                Some(i) => i < self.entries@.len() && first_index(
                    total_keys(views(self.entries@)),
                    (component_id@, token@),
                ) == Some(i as int),
                None => first_index(
                    total_keys(views(self.entries@)),
                    (component_id@, token@),
                ) is None,
            },
    {
        let ghost keys = total_keys(views(self.entries@));
        let mut i: usize = 0;
        while i < self.entries.len()
            invariant
                i <= self.entries.len(),
                keys == total_keys(views(self.entries@)),
                forall|j: int| 0 <= j < i ==> keys[j] != (component_id@, token@),
            decreases self.entries.len() - i,
        {
            assert(keys[i as int] == (
                self.entries@[i as int].component_id@,
                self.entries@[i as int].token@,
            ));
            if same_bytes(self.entries[i].component_id.as_slice(), component_id) && same_bytes(
                self.entries[i].token.as_slice(),
                token,
            ) {
                proof {
                    lemma_first_index_found(keys, (component_id@, token@), i as int);
                }
                return Some(i);
            }
            i += 1;
        }
        proof {
            lemma_first_index_absent(keys, (component_id@, token@));
        }
        None
    }

    /// The running total of a component and token, if a delta has reached
    /// it, in its shortest two's-complement big-endian encoding.
    pub fn get_last(&self, component_id: &[u8], token: &[u8]) -> (total: Option<Vec<u8>>)
        ensures
            match total {
                Some(encoded) => self@.contains_key((component_id@, token@)) && encoded@
                    == signed_encoding(self@[(component_id@, token@)]),
                None => !self@.contains_key((component_id@, token@)),
            },
    {
        match self.position_of(component_id, token) {
            Some(i) => {
                assert(views(self.entries@)[i as int] == self.entries@[i as int]@);
                let nothing: Vec<u8> = Vec::new();
                Some(sum_signed_bytes_be(self.entries[i].total.as_slice(), nothing.as_slice()))
            },
            None => None,
        }
    }

    /// Adds a delta to the running total of a component and token and
    /// returns the new total.
    pub fn add(&mut self, component_id: &[u8], token: &[u8], delta: &[u8]) -> (total: Vec<u8>)
        ensures
            final(self)@ == with_amount(old(self)@, component_id@, token@, signed_be(delta@)),
            total@ == signed_encoding(
                balance_of(old(self)@, component_id@, token@) + signed_be(delta@),
            ),
    {
        let ghost before = views(self.entries@);
        let ghost key = (component_id@, token@);
        match self.position_of(component_id, token) {
            Some(i) => {
                assert(before[i as int] == self.entries@[i as int]@);
                let total = sum_signed_bytes_be(self.entries[i].total.as_slice(), delta);
                let entry = BalanceTotal {
                    component_id: copy_bytes(component_id),
                    token: copy_bytes(token),
                    total: copy_bytes(total.as_slice()),
                };
                proof {
                    lemma_views_update(self.entries@, i as int, entry);
                    lemma_signed_encoding_value(signed_be(before[i as int].total) + signed_be(delta@));
                    lemma_first_index(total_keys(before), key);
                }
                self.entries.set(i, entry);
                proof {
                    let after = views(self.entries@);
                    assert(after == before.update(i as int, entry@));
                    assert(total_keys(after) =~= total_keys(before));
                    let expected = with_amount(
                        old(self)@,
                        component_id@,
                        token@,
                        signed_be(delta@),
                    );
                    assert forall|other: (Seq<u8>, Seq<u8>)| #[trigger]
                        self@.contains_key(other) implies self@[other] == expected[other] by {
                        lemma_first_index(total_keys(before), other);
                        let at = first_index(total_keys(before), other).unwrap();
                        if other != key {
                            assert(total_keys(before)[at] == other);
                            assert(at != i);
                            assert(after[at] == before[at]);
                        }
                    }
                    assert(self@ =~= expected);
                }
                total
            },
            None => {
                let nothing: Vec<u8> = Vec::new();
                let total = sum_signed_bytes_be(nothing.as_slice(), delta);
                let entry = BalanceTotal {
                    component_id: copy_bytes(component_id),
                    token: copy_bytes(token),
                    total: copy_bytes(total.as_slice()),
                };
                proof {
                    lemma_views_push(self.entries@, entry);
                    lemma_signed_encoding_value(signed_be(delta@));
                }
                self.entries.push(entry);
                proof {
                    let after = views(self.entries@);
                    assert(total_keys(after) =~= total_keys(before).push(key));
                    assert(total_keys(after).drop_last() =~= total_keys(before));
                    assert forall|other: (Seq<u8>, Seq<u8>)|
                        first_index(total_keys(after), other) == (if first_index(
                            total_keys(before),
                            other,
                        ) is Some {
                            first_index(total_keys(before), other)
                        } else if other == key {
                            Some(before.len() as int)
                        } else {
                            None
                        }) by {}
                    assert forall|other: (Seq<u8>, Seq<u8>)|
                        first_index(total_keys(before), other) is Some implies 0 <= first_index(
                        total_keys(before),
                        other,
                    ).unwrap() < before.len() by {
                        lemma_first_index(total_keys(before), other);
                    }
                    assert(self@ =~= with_amount(old(self)@, component_id@, token@, signed_be(delta@)));
                }
                total
            },
        }
    }
}

/// The absolute balance that a running total stands for, as the consumer is
/// told it.
pub fn absolute_balance(total: &[u8]) -> (balance: Vec<u8>)
    ensures
        balance@ == absolute_encoding(signed_be(total@)),
{
    proof {
        lemma_signed_be_sign(total@);
    }
    if total.len() > 0 && total[0] >= 0x80 {
        let mut zero: Vec<u8> = Vec::new();
        zero.push(0u8);
        assert(zero@ =~= seq![0u8]);
        zero
    } else {
        magnitude_bytes_be(total)
    }
}

/// Adds the deltas of a block to the running totals, in order, and reports
/// the balance that each of them leaves behind.
pub fn store_balances(deltas: &BlockBalanceDeltas, store: &mut BalanceStore) -> (changed: Vec<
    TransactionBalanceChanges,
>)
    ensures
        final(store)@ == with_deltas(old(store)@, deltas@),
        views(changed@) == balance_records(old(store)@, deltas@),
{
    let ghost listed = deltas@;
    let mut changed: Vec<TransactionBalanceChanges> = Vec::new();
    let mut i: usize = 0;
    proof {
        lemma_take_all(listed);
    }
    assert(views(changed@) =~= balance_records(old(store)@, listed.take(0)));
    while i < deltas.balance_deltas.len()
        invariant
            i <= deltas.balance_deltas.len(),
            listed == deltas@,
            store@ == with_deltas(old(store)@, listed.take(i as int)),
            views(changed@) == balance_records(old(store)@, listed.take(i as int)),
        decreases deltas.balance_deltas.len() - i,
    {
        let delta = &deltas.balance_deltas[i];
        proof {
            lemma_take_step(listed, i as int);
            assert(listed[i as int] == delta@);
        }
        let ghost before = store@;
        let total = store.add(
            delta.component_id.as_slice(),
            delta.token.as_slice(),
            delta.delta.as_slice(),
        );
        proof {
            lemma_signed_encoding_value(
                balance_of(before, delta@.component_id, delta@.token) + signed_be(delta@.delta),
            );
        }
        let mut balance_changes: Vec<BalanceChange> = Vec::new();
        balance_changes.push(
            BalanceChange {
                token: copy_bytes(delta.token.as_slice()),
                balance: absolute_balance(total.as_slice()),
                component_id: copy_bytes(delta.component_id.as_slice()),
            },
        );
        let record = TransactionBalanceChanges { tx: delta.tx.clone(), balance_changes };
        proof {
            assert(record@.balance_changes =~= balance_record(before, delta@).balance_changes);
            lemma_views_push(changed@, record);
        }
        changed.push(record);
        i += 1;
    }
    proof {
        lemma_take_all(listed);
    }
    changed
}

/// What a delta adds to the balance of a component and token: its amount if
/// it names them, nothing otherwise.
pub open spec fn contribution(delta: BalanceDeltaView, component_id: Seq<u8>, token: Seq<u8>) -> int {
    if delta.component_id == component_id && delta.token == token {
        signed_be(delta.delta)
    } else {
        0
    }
}

/// What a list of deltas adds in all to the balance of a component and
/// token.
pub open spec fn net_change(
    deltas: Seq<BalanceDeltaView>,
    component_id: Seq<u8>,
    token: Seq<u8>,
) -> int
    decreases deltas.len(),
{
    if deltas.len() == 0 {
        0
    } else {
        net_change(deltas.drop_last(), component_id, token) + contribution(
            deltas.last(),
            component_id,
            token,
        )
    }
}

/// Whether some delta of a list names a component and token.
pub open spec fn reaches(deltas: Seq<BalanceDeltaView>, component_id: Seq<u8>, token: Seq<u8>) -> bool {
    exists|i: int|
        0 <= i < deltas.len() && (#[trigger] deltas[i]).component_id == component_id
            && deltas[i].token == token
}

/// Every delta is counted once: a balance after a list of deltas is the
/// balance before it plus everything the list adds to it, and a total exists
/// exactly where one existed before or a delta arrived.
pub proof fn lemma_with_deltas_totals(
    totals: Map<(Seq<u8>, Seq<u8>), int>,
    deltas: Seq<BalanceDeltaView>,
    component_id: Seq<u8>,
    token: Seq<u8>,
)
    ensures
        balance_of(with_deltas(totals, deltas), component_id, token) == balance_of(
            totals,
            component_id,
            token,
        ) + net_change(deltas, component_id, token),
        with_deltas(totals, deltas).contains_key((component_id, token)) <==> totals.contains_key(
            (component_id, token),
        ) || reaches(deltas, component_id, token),
    decreases deltas.len(),
{
    if deltas.len() > 0 {
        let earlier = deltas.drop_last();
        lemma_with_deltas_totals(totals, earlier, component_id, token);
        if reaches(earlier, component_id, token) {
            let i = choose|i: int|
                0 <= i < earlier.len() && (#[trigger] earlier[i]).component_id == component_id
                    && earlier[i].token == token;
            assert(deltas[i] == earlier[i]);
        }
        if reaches(deltas, component_id, token) {
            let i = choose|i: int|
                0 <= i < deltas.len() && (#[trigger] deltas[i]).component_id == component_id
                    && deltas[i].token == token;
            if i < earlier.len() {
                assert(earlier[i] == deltas[i]);
            }
        }
        if deltas.last().component_id == component_id && deltas.last().token == token {
            assert(deltas[deltas.len() - 1] == deltas.last());
        }
    }
}

/// The fold is associative: applying two lists one after the other is
/// applying them joined.
pub proof fn lemma_with_deltas_joined(
    totals: Map<(Seq<u8>, Seq<u8>), int>,
    first: Seq<BalanceDeltaView>,
    second: Seq<BalanceDeltaView>,
)
    ensures
        with_deltas(totals, first + second) == with_deltas(with_deltas(totals, first), second),
    decreases second.len(),
{
    if second.len() == 0 {
        assert(first + second =~= first);
    } else {
        assert((first + second).drop_last() =~= first + second.drop_last());
        assert((first + second).last() == second.last());
        lemma_with_deltas_joined(totals, first, second.drop_last());
    }
}

/// What a list adds is what it adds without one of its deltas, and that
/// delta's share.
proof fn lemma_net_change_without(
    deltas: Seq<BalanceDeltaView>,
    position: int,
    component_id: Seq<u8>,
    token: Seq<u8>,
)
    requires
        0 <= position < deltas.len(),
    ensures
        net_change(deltas, component_id, token) == net_change(
            deltas.remove(position),
            component_id,
            token,
        ) + contribution(deltas[position], component_id, token),
    decreases deltas.len(),
{
    if position == deltas.len() - 1 {
        assert(deltas.remove(position) =~= deltas.drop_last());
    } else {
        assert(deltas.remove(position).drop_last() =~= deltas.drop_last().remove(position));
        assert(deltas.remove(position).last() == deltas.last());
        lemma_net_change_without(deltas.drop_last(), position, component_id, token);
    }
}

/// What a list of deltas adds to a balance does not depend on their order.
pub proof fn lemma_net_change_rearranged(
    first: Seq<BalanceDeltaView>,
    second: Seq<BalanceDeltaView>,
    component_id: Seq<u8>,
    token: Seq<u8>,
)
    requires
        first.to_multiset() == second.to_multiset(),
    ensures
        net_change(first, component_id, token) == net_change(second, component_id, token),
    decreases first.len(),
{
    broadcast use vstd::multiset::group_multiset_axioms;

    first.to_multiset_ensures();
    second.to_multiset_ensures();
    if first.len() == 0 {
        assert(second.len() == 0);
    } else {
        let last = first.last();
        let earlier = first.drop_last();
        assert(first =~= earlier.push(last));
        earlier.to_multiset_ensures();
        assert(first.to_multiset() =~= earlier.to_multiset().insert(last));
        assert(second.to_multiset().count(last) > 0);
        assert(second.contains(last));
        let position = second.index_of(last);
        assert(second[position] == last);
        assert(second.remove(position).to_multiset() =~= second.to_multiset().remove(last));
        assert(earlier.to_multiset() =~= second.remove(position).to_multiset());
        lemma_net_change_rearranged(earlier, second.remove(position), component_id, token);
        lemma_net_change_without(second, position, component_id, token);
    }
}

/// The final totals do not depend on the order of the deltas.
pub proof fn lemma_with_deltas_rearranged(
    totals: Map<(Seq<u8>, Seq<u8>), int>,
    first: Seq<BalanceDeltaView>,
    second: Seq<BalanceDeltaView>,
)
    requires
        first.to_multiset() == second.to_multiset(),
    ensures
        with_deltas(totals, first) == with_deltas(totals, second),
{
    let left = with_deltas(totals, first);
    let right = with_deltas(totals, second);
    first.to_multiset_ensures();
    second.to_multiset_ensures();
    assert forall|key: (Seq<u8>, Seq<u8>)| left.contains_key(key) == right.contains_key(key) by {
        lemma_with_deltas_totals(totals, first, key.0, key.1);
        lemma_with_deltas_totals(totals, second, key.0, key.1);
        if reaches(first, key.0, key.1) {
            let i = choose|i: int|
                0 <= i < first.len() && (#[trigger] first[i]).component_id == key.0
                    && first[i].token == key.1;
            assert(first.contains(first[i]));
            assert(second.to_multiset().count(first[i]) > 0);
            assert(second.contains(first[i]));
            let j = second.index_of(first[i]);
            assert(second[j] == first[i]);
        }
        if reaches(second, key.0, key.1) {
            let i = choose|i: int|
                0 <= i < second.len() && (#[trigger] second[i]).component_id == key.0
                    && second[i].token == key.1;
            assert(second.contains(second[i]));
            assert(first.to_multiset().count(second[i]) > 0);
            assert(first.contains(second[i]));
            let j = first.index_of(second[i]);
            assert(first[j] == second[i]);
        }
    }
    assert forall|key: (Seq<u8>, Seq<u8>)| left.contains_key(key) implies left[key]
        == right[key] by {
        lemma_with_deltas_totals(totals, first, key.0, key.1);
        lemma_with_deltas_totals(totals, second, key.0, key.1);
        lemma_net_change_rearranged(first, second, key.0, key.1);
    }
    assert(left =~= right);
}

/// Applying a list of deltas a second time adds its net change a second
/// time.
pub proof fn lemma_with_deltas_twice(
    totals: Map<(Seq<u8>, Seq<u8>), int>,
    deltas: Seq<BalanceDeltaView>,
    component_id: Seq<u8>,
    token: Seq<u8>,
)
    ensures
        balance_of(with_deltas(with_deltas(totals, deltas), deltas), component_id, token)
            == balance_of(totals, component_id, token) + 2 * net_change(
            deltas,
            component_id,
            token,
        ),
{
    lemma_with_deltas_totals(totals, deltas, component_id, token);
    lemma_with_deltas_totals(with_deltas(totals, deltas), deltas, component_id, token);
}

/// Applying a list of deltas a second time leaves the totals as they are
/// where the list changes no balance in all.
pub proof fn lemma_with_deltas_again(
    totals: Map<(Seq<u8>, Seq<u8>), int>,
    deltas: Seq<BalanceDeltaView>,
)
    requires
        forall|component_id: Seq<u8>, token: Seq<u8>| #[trigger]
            net_change(deltas, component_id, token) == 0,
    ensures
        with_deltas(with_deltas(totals, deltas), deltas) == with_deltas(totals, deltas),
{
    let once = with_deltas(totals, deltas);
    let twice = with_deltas(once, deltas);
    assert forall|key: (Seq<u8>, Seq<u8>)| once.contains_key(key) == twice.contains_key(key) by {
        lemma_with_deltas_totals(totals, deltas, key.0, key.1);
        lemma_with_deltas_totals(once, deltas, key.0, key.1);
    }
    assert forall|key: (Seq<u8>, Seq<u8>)| once.contains_key(key) implies once[key]
        == twice[key] by {
        lemma_with_deltas_totals(once, deltas, key.0, key.1);
        assert(net_change(deltas, key.0, key.1) == 0);
    }
    assert(once =~= twice);
}

/// The records follow the deltas: there is one per delta, in the order of the
/// deltas, for the delta's transaction, component and token, and it holds the
/// balance as it stands after the deltas up to and including its own.
pub proof fn lemma_balance_records_follow_deltas(
    totals: Map<(Seq<u8>, Seq<u8>), int>,
    deltas: Seq<BalanceDeltaView>,
    position: int,
)
    requires
        0 <= position < deltas.len(),
    ensures
        balance_records(totals, deltas).len() == deltas.len(),
        balance_records(totals, deltas)[position] == (TransactionBalanceChangesView {
            tx: deltas[position].tx,
            balance_changes: seq![
                BalanceChangeView {
                    token: deltas[position].token,
                    balance: absolute_encoding(
                        balance_of(
                            with_deltas(totals, deltas.take(position + 1)),
                            deltas[position].component_id,
                            deltas[position].token,
                        ),
                    ),
                    component_id: deltas[position].component_id,
                },
            ],
        }),
    decreases deltas.len(),
{
    lemma_balance_records_len(totals, deltas);
    if position == deltas.len() - 1 {
        assert(deltas.take(position + 1) =~= deltas);
    } else {
        lemma_balance_records_len(totals, deltas.drop_last());
        lemma_balance_records_follow_deltas(totals, deltas.drop_last(), position);
        assert(deltas.drop_last().take(position + 1) =~= deltas.take(position + 1));
    }
}

/// There is one record per delta.
proof fn lemma_balance_records_len(
    totals: Map<(Seq<u8>, Seq<u8>), int>,
    deltas: Seq<BalanceDeltaView>,
)
    ensures
        balance_records(totals, deltas).len() == deltas.len(),
    decreases deltas.len(),
{
    if deltas.len() > 0 {
        lemma_balance_records_len(totals, deltas.drop_last());
    }
}

} // verus!
