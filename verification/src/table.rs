//! An open-addressed hash table from strings to values with linear
//! probing and tombstones, and the definition of where a key belongs.
use vstd::prelude::*;
use vstd::arithmetic::power2::pow2;
use std::rc::Rc;
use crate::bytes::bytes_equal;
use crate::objects::LoxString;
use crate::value::Value;

verus! {

/// What a string is known by in a table: its content and its hash.
pub type Key = (Seq<u8>, usize);

/// One slot of a table. A slot with a key is in use. A slot without a key
/// is vacant if its value is `Nil`, and a tombstone, the mark that a
/// deletion leaves, if its value is `true`.
#[derive(Debug)]
pub struct Entry {
    pub key: Option<Rc<LoxString>>,
    pub value: Value,
}

impl Entry {
    /// The slot was never used since the table last grew.
    pub open spec fn vacant(&self) -> bool {
        self.key is None && self.value is Nil
    }

    /// The slot held a key that was deleted.
    pub open spec fn tombstone(&self) -> bool {
        self.key is None && self.value == Value::Bool(true)
    }

    /// The slot holds the given key.
    pub open spec fn holds(&self, key: Key) -> bool {
        self.key matches Some(k) && k@ == key
    }

    /// Another handle on the same entry.
    pub fn duplicate(&self) -> (entry: Entry)
        ensures
            entry == *self,
    {
        Entry {
            key: match &self.key {
                Some(k) => Some(k.clone()),
                None => None,
            },
            value: self.value.duplicate(),
        }
    }
}

/// Whether the number is a power of two that fits a machine word.
pub open spec fn power_of_two(n: usize) -> bool {
    exists|e: nat| e < usize::BITS && n == #[trigger] pow2(e)
}

/// The slot at which the search for a hash starts.
pub open spec fn home_slot(hash: usize, capacity: usize) -> int {
    (hash & ((capacity - 1) as usize)) as int
}

/// The slot that is `step` slots after `home`, going round at the end.
pub open spec fn probe(capacity: int, home: int, step: int) -> int {
    if home + step < capacity {
        home + step
    } else {
        home + step - capacity
    }
}

/// The number of steps from `home` to `slot`, going round at the end.
pub open spec fn distance(capacity: int, home: int, slot: int) -> int {
    if slot >= home {
        slot - home
    } else {
        slot - home + capacity
    }
}

/// The home slot of the key in slot `i`.
pub open spec fn home_of(slots: Seq<Entry>, i: int) -> int {
    home_slot(slots[i].key.unwrap().hash, slots.len() as usize)
}

/// The number of steps after which a search for `key` that has come
/// `step` steps from `home` stops: at the first slot that is vacant or
/// holds the key.
pub open spec fn probe_stop(slots: Seq<Entry>, key: Key, home: int, step: int) -> int
    decreases slots.len() - step,
{
    if step < 0 || step >= slots.len() {
        step
    } else {
        let e = slots[probe(slots.len() as int, home, step)];
        if e.vacant() || e.holds(key) {
            step
        } else {
            probe_stop(slots, key, home, step + 1)
        }
    }
}

/// The number of steps from `home` to the first tombstone at or after
/// `step` and before `stop`; `stop` if there is none.
pub open spec fn first_tombstone(slots: Seq<Entry>, home: int, step: int, stop: int) -> int
    decreases stop - step,
{
    if step < 0 || step >= stop {
        stop
    } else if slots[probe(slots.len() as int, home, step)].tombstone() {
        step
    } else {
        first_tombstone(slots, home, step + 1, stop)
    }
}

/// The slot that belongs to `key`. The search starts at the key's home
/// slot and goes from slot to slot. If it meets the key, that slot is
/// the result. If it meets a vacant slot first, the key is not there, and
/// the result is the first tombstone that the search passed, or else the
/// vacant slot.
pub open spec fn find_slot(slots: Seq<Entry>, key: Key) -> int {
    let capacity = slots.len() as int;
    let home = home_slot(key.1, slots.len() as usize);
    let stop = probe_stop(slots, key, home, 0);
    if stop < capacity && slots[probe(capacity, home, stop)].holds(key) {
        probe(capacity, home, stop)
    } else {
        probe(capacity, home, first_tombstone(slots, home, 0, stop))
    }
}

/// The number of slots that are not vacant: keys and tombstones.
pub open spec fn occupied(slots: Seq<Entry>) -> nat
    decreases slots.len(),
{
    if slots.len() == 0 {
        0
    } else {
        occupied(slots.drop_last()) + if slots.last().vacant() {
            0nat
        } else {
            1nat
        }
    }
}

/// Whether some slot holds the key.
pub open spec fn contains(slots: Seq<Entry>, key: Key) -> bool {
    exists|i: int| 0 <= i < slots.len() && #[trigger] slots[i].holds(key)
}

/// A slot that holds the key, if there is one.
pub open spec fn slot_of(slots: Seq<Entry>, key: Key) -> int {
    choose|i: int| 0 <= i < slots.len() && #[trigger] slots[i].holds(key)
}

/// The map that the slots stand for.
pub open spec fn map_of(slots: Seq<Entry>) -> Map<Key, Value> {
    Map::new(|k: Key| contains(slots, k), |k: Key| slots[slot_of(slots, k)].value)
}

/// The keys in slots `i` and `j` differ.
pub open spec fn distinct(slots: Seq<Entry>, i: int, j: int) -> bool {
    slots[i].key is Some && slots[j].key is Some ==> slots[i].key.unwrap()@
        != slots[j].key.unwrap()@
}

/// No slot that a search passes on its first `s` steps towards the key in
/// slot `i` is vacant: the search reaches the key.
pub open spec fn reachable(slots: Seq<Entry>, i: int, s: int) -> bool {
    slots[i].key is Some && 0 <= s < distance(slots.len() as int, home_of(slots, i), i)
        ==> !slots[probe(slots.len() as int, home_of(slots, i), s)].vacant()
}

/// What holds of the slots of every table: a slot without a key is vacant
/// or a tombstone, no key stands in two slots, and every key can be
/// reached from its home slot.
pub open spec fn slots_wf(slots: Seq<Entry>) -> bool {
    &&& slots.len() <= usize::MAX
    &&& forall|i: int|
        0 <= i < slots.len() && (#[trigger] slots[i]).key is None ==> slots[i].vacant()
            || slots[i].tombstone()
    &&& forall|i: int, j: int|
        0 <= i < slots.len() && 0 <= j < slots.len() && i != j ==> #[trigger] distinct(
            slots,
            i,
            j,
        )
    &&& forall|i: int, s: int| 0 <= i < slots.len() ==> #[trigger] reachable(slots, i, s)
}

pub proof fn lemma_home_in_range(hash: usize, capacity: usize)
    requires
        capacity > 0,
    ensures
        0 <= home_slot(hash, capacity) < capacity,
{
    let mask: usize = (capacity - 1) as usize;
    assert(hash & mask <= mask) by (bit_vector);
}

/// With a capacity that is a power of two, the home slot of a hash is the
/// remainder of the hash by the capacity: probing is linear, modulo the
/// capacity.
pub proof fn law_home_is_remainder(x: usize, capacity: usize)
    requires
        power_of_two(capacity),
    ensures
        home_slot(x, capacity) == x % capacity,
{
    let e: nat = choose|e: nat| e < usize::BITS && capacity == #[trigger] pow2(e);
    vstd::arithmetic::power2::lemma_pow2_pos(e);
    vstd::bits::lemma_usize_low_bits_mask_is_mod(x, e);
    assert(vstd::bits::low_bits_mask(e) == pow2(e) - 1);
}

pub proof fn lemma_occupied_bound(slots: Seq<Entry>)
    ensures
        occupied(slots) <= slots.len(),
        occupied(slots) < slots.len() ==> exists|i: int|
            0 <= i < slots.len() && (#[trigger] slots[i]).vacant(),
        (forall|i: int| 0 <= i < slots.len() ==> (#[trigger] slots[i]).vacant()) ==> occupied(slots)
            == 0,
    decreases slots.len(),
{
    if slots.len() > 0 {
        let rest = slots.drop_last();
        lemma_occupied_bound(rest);
        if occupied(slots) < slots.len() {
            if slots.last().vacant() {
                assert(slots[slots.len() - 1].vacant());
            } else {
                let i = choose|i: int| 0 <= i < rest.len() && (#[trigger] rest[i]).vacant();
                assert(slots[i].vacant());
            }
        }
        if forall|i: int| 0 <= i < slots.len() ==> (#[trigger] slots[i]).vacant() {
            assert forall|i: int| 0 <= i < rest.len() implies (#[trigger] rest[i]).vacant() by {
                assert(slots[i].vacant());
            }
        }
    }
}

pub proof fn lemma_occupied_update(slots: Seq<Entry>, i: int, e: Entry)
    requires
        0 <= i < slots.len(),
    ensures
        occupied(slots.update(i, e)) + (if slots[i].vacant() {
            0int
        } else {
            1int
        }) == occupied(slots) + (if e.vacant() {
            0int
        } else {
            1int
        }),
    decreases slots.len(),
{
    let new = slots.update(i, e);
    if i == slots.len() - 1 {
        assert(new.drop_last() =~= slots.drop_last());
    } else {
        lemma_occupied_update(slots.drop_last(), i, e);
        assert(new.drop_last() =~= slots.drop_last().update(i, e));
    }
}

/// What the steps of a search are like: before it stops, no slot is
/// vacant or holds the key; where it stops within the table, the slot is
/// one or the other.
pub proof fn lemma_probe_stop(slots: Seq<Entry>, key: Key, home: int, step: int)
    requires
        0 <= home < slots.len(),
        0 <= step <= slots.len(),
    ensures
        step <= probe_stop(slots, key, home, step) <= slots.len(),
        forall|t: int|
            step <= t < probe_stop(slots, key, home, step) ==> {
                let e = #[trigger] slots[probe(slots.len() as int, home, t)];
                !e.vacant() && !e.holds(key)
            },
        probe_stop(slots, key, home, step) < slots.len() ==> {
            let e = slots[probe(slots.len() as int, home, probe_stop(slots, key, home, step))];
            e.vacant() || e.holds(key)
        },
    decreases slots.len() - step,
{
    if step < slots.len() {
        let e = slots[probe(slots.len() as int, home, step)];
        if !(e.vacant() || e.holds(key)) {
            lemma_probe_stop(slots, key, home, step + 1);
        }
    }
}

/// A search stops at the key if the key is in the table.
pub proof fn lemma_probe_finds(slots: Seq<Entry>, key: Key, i: int, step: int)
    requires
        slots_wf(slots),
        0 <= i < slots.len(),
        slots[i].holds(key),
        0 <= step <= distance(
            slots.len() as int,
            home_slot(key.1, slots.len() as usize),
            i,
        ),
    ensures
        probe_stop(slots, key, home_slot(key.1, slots.len() as usize), step) == distance(
            slots.len() as int,
            home_slot(key.1, slots.len() as usize),
            i,
        ),
    decreases distance(slots.len() as int, home_slot(key.1, slots.len() as usize), i) - step,
{
    let capacity = slots.len() as int;
    let home = home_slot(key.1, slots.len() as usize);
    lemma_home_in_range(key.1, slots.len() as usize);
    let d = distance(capacity, home, i);
    if step < d {
        let p = probe(capacity, home, step);
        assert(reachable(slots, i, step));
        assert(distinct(slots, i, p));
        lemma_probe_finds(slots, key, i, step + 1);
    }
}

/// A search stops before it has gone round if the table has a vacant slot.
pub proof fn lemma_probe_stops_at_vacant(slots: Seq<Entry>, key: Key, home: int, v: int)
    requires
        0 <= home < slots.len(),
        0 <= v < slots.len(),
        slots[v].vacant(),
    ensures
        probe_stop(slots, key, home, 0) <= distance(slots.len() as int, home, v),
        probe_stop(slots, key, home, 0) < slots.len(),
{
    lemma_probe_stop(slots, key, home, 0);
    let d = distance(slots.len() as int, home, v);
    if probe_stop(slots, key, home, 0) > d {
        assert(probe(slots.len() as int, home, d) == v);
        assert(!slots[probe(slots.len() as int, home, d)].vacant());
    }
}

pub proof fn lemma_first_tombstone(slots: Seq<Entry>, home: int, step: int, stop: int)
    requires
        0 <= step <= stop,
    ensures
        step <= first_tombstone(slots, home, step, stop) <= stop,
        forall|t: int|
            step <= t < first_tombstone(slots, home, step, stop) ==> !(#[trigger] slots[probe(
                slots.len() as int,
                home,
                t,
            )]).tombstone(),
        first_tombstone(slots, home, step, stop) < stop ==> slots[probe(
            slots.len() as int,
            home,
            first_tombstone(slots, home, step, stop),
        )].tombstone(),
    decreases stop - step,
{
    if step < stop && !slots[probe(slots.len() as int, home, step)].tombstone() {
        lemma_first_tombstone(slots, home, step + 1, stop);
    }
}

/// Where a key belongs: in the slot that holds it, or else in a slot
/// without a key that a search for it reaches.
pub proof fn lemma_find_slot(slots: Seq<Entry>, key: Key)
    requires
        slots_wf(slots),
        exists|v: int| 0 <= v < slots.len() && (#[trigger] slots[v]).vacant(),
    ensures
        0 <= find_slot(slots, key) < slots.len(),
        contains(slots, key) ==> slots[find_slot(slots, key)].holds(key),
        !contains(slots, key) ==> slots[find_slot(slots, key)].key is None,
        forall|s: int|
            0 <= s < distance(
                slots.len() as int,
                home_slot(key.1, slots.len() as usize),
                find_slot(slots, key),
            ) ==> !(#[trigger] slots[probe(
                slots.len() as int,
                home_slot(key.1, slots.len() as usize),
                s,
            )]).vacant(),
{
    let capacity = slots.len() as int;
    let home = home_slot(key.1, slots.len() as usize);
    lemma_home_in_range(key.1, slots.len() as usize);
    let v = choose|v: int| 0 <= v < slots.len() && (#[trigger] slots[v]).vacant();
    lemma_probe_stops_at_vacant(slots, key, home, v);
    lemma_probe_stop(slots, key, home, 0);
    let stop = probe_stop(slots, key, home, 0);
    lemma_first_tombstone(slots, home, 0, stop);
    if contains(slots, key) {
        let i = choose|i: int| 0 <= i < slots.len() && #[trigger] slots[i].holds(key);
        lemma_probe_finds(slots, key, i, 0);
    } else {
        let e = slots[probe(capacity, home, stop)];
        assert(!e.holds(key));
    }
}

/// The value that the map gives for the key in slot `i` is the value in
/// that slot.
pub proof fn lemma_map_at(slots: Seq<Entry>, i: int)
    requires
        slots_wf(slots),
        0 <= i < slots.len(),
        slots[i].key is Some,
    ensures
        map_of(slots).contains_key(slots[i].key.unwrap()@),
        map_of(slots)[slots[i].key.unwrap()@] == slots[i].value,
{
    let key = slots[i].key.unwrap()@;
    assert(slots[i].holds(key));
    let j = slot_of(slots, key);
    if j != i {
        assert(distinct(slots, i, j));
    }
}

/// A table without occupied slots holds no key.
pub proof fn lemma_nothing_occupied(slots: Seq<Entry>, key: Key)
    requires
        occupied(slots) == 0,
    ensures
        !contains(slots, key),
    decreases slots.len(),
{
    if slots.len() > 0 {
        let rest = slots.drop_last();
        lemma_nothing_occupied(rest, key);
        if contains(slots, key) {
            let i = choose|i: int| 0 <= i < slots.len() && #[trigger] slots[i].holds(key);
            if i < rest.len() {
                assert(rest[i].holds(key));
            }
        }
    }
}

/// The slots after `entry`, which has a key, was put where its key
/// belongs.
pub open spec fn store(slots: Seq<Entry>, entry: Entry) -> Seq<Entry> {
    slots.update(find_slot(slots, entry.key.unwrap()@), entry)
}

/// Putting an entry where its key belongs keeps the slots well formed,
/// makes the map give the entry's value for its key and leaves the other
/// keys alone. One more slot is occupied only if the slot was vacant.
pub proof fn lemma_store(slots: Seq<Entry>, entry: Entry)
    requires
        slots_wf(slots),
        exists|v: int| 0 <= v < slots.len() && (#[trigger] slots[v]).vacant(),
        entry.key is Some,
    ensures
        slots_wf(store(slots, entry)),
        map_of(store(slots, entry)) == map_of(slots).insert(entry.key.unwrap()@, entry.value),
        occupied(store(slots, entry)) == occupied(slots) + if slots[find_slot(
            slots,
            entry.key.unwrap()@,
        )].vacant() {
            1int
        } else {
            0int
        },
        contains(slots, entry.key.unwrap()@) == map_of(slots).contains_key(entry.key.unwrap()@),
{
    let key = entry.key.unwrap()@;
    let r = find_slot(slots, key);
    let new = store(slots, entry);
    let capacity = slots.len() as int;
    lemma_find_slot(slots, key);
    lemma_occupied_update(slots, r, entry);
    assert(new[r].holds(key));
    assert forall|i: int, j: int|
        0 <= i < new.len() && 0 <= j < new.len() && i != j implies #[trigger] distinct(
        new,
        i,
        j,
    ) by {
        assert(distinct(slots, i, j));
        if i == r && slots[j].key is Some {
            assert(slots[j].holds(slots[j].key.unwrap()@));
            assert(distinct(slots, r, j));
        }
        if j == r && slots[i].key is Some {
            assert(slots[i].holds(slots[i].key.unwrap()@));
            assert(distinct(slots, i, r));
        }
    }
    assert forall|i: int, s: int| 0 <= i < new.len() implies #[trigger] reachable(new, i, s) by {
        if new[i].key is Some && 0 <= s < distance(capacity, home_of(new, i), i) {
            let p = probe(capacity, home_of(new, i), s);
            lemma_home_in_range(new[i].key.unwrap().hash, slots.len() as usize);
            if p != r {
                if i == r {
                    assert(!slots[probe(capacity, home_slot(key.1, slots.len() as usize), s)].vacant());
                } else {
                    assert(reachable(slots, i, s));
                }
            }
        }
    }
    assert(slots_wf(new));
    let target = map_of(slots).insert(key, entry.value);
    assert forall|k: Key| map_of(new).contains_key(k) == target.contains_key(k) by {
        if contains(new, k) {
            let i = choose|i: int| 0 <= i < new.len() && #[trigger] new[i].holds(k);
            if i != r {
                assert(slots[i].holds(k));
            }
        }
        if contains(slots, k) {
            let i = choose|i: int| 0 <= i < slots.len() && #[trigger] slots[i].holds(k);
            if i != r {
                assert(new[i].holds(k));
            }
        }
    }
    assert forall|k: Key| map_of(new).contains_key(k) implies map_of(new)[k] == target[k] by {
        let i = choose|i: int| 0 <= i < new.len() && #[trigger] new[i].holds(k);
        lemma_map_at(new, i);
        if i != r {
            assert(distinct(new, i, r));
            assert(slots[i].holds(k));
            lemma_map_at(slots, i);
        }
    }
    assert(map_of(new) =~= target);
}

/// The mark that a deletion leaves in a slot.
pub open spec fn tombstone_entry() -> Entry {
    Entry { key: None, value: Value::Bool(true) }
}

/// Replacing the key in slot `r` by a tombstone keeps the slots well
/// formed and takes the key, and only it, out of the map. As many slots
/// are occupied as before.
pub proof fn lemma_erase(slots: Seq<Entry>, r: int)
    requires
        slots_wf(slots),
        0 <= r < slots.len(),
        slots[r].key is Some,
    ensures
        slots_wf(slots.update(r, tombstone_entry())),
        map_of(slots.update(r, tombstone_entry())) == map_of(slots).remove(
            slots[r].key.unwrap()@,
        ),
        occupied(slots.update(r, tombstone_entry())) == occupied(slots),
{
    let key = slots[r].key.unwrap()@;
    let new = slots.update(r, tombstone_entry());
    let capacity = slots.len() as int;
    lemma_occupied_update(slots, r, tombstone_entry());
    assert forall|i: int, j: int|
        0 <= i < new.len() && 0 <= j < new.len() && i != j implies #[trigger] distinct(
        new,
        i,
        j,
    ) by {
        assert(distinct(slots, i, j));
    }
    assert forall|i: int, s: int| 0 <= i < new.len() implies #[trigger] reachable(new, i, s) by {
        assert(reachable(slots, i, s));
    }
    assert(slots_wf(new));
    let target = map_of(slots).remove(key);
    assert forall|k: Key| map_of(new).contains_key(k) == target.contains_key(k) by {
        if contains(new, k) {
            let i = choose|i: int| 0 <= i < new.len() && #[trigger] new[i].holds(k);
            assert(slots[i].holds(k));
            assert(distinct(slots, i, r));
        }
        if contains(slots, k) && k != key {
            let i = choose|i: int| 0 <= i < slots.len() && #[trigger] slots[i].holds(k);
            assert(new[i].holds(k));
        }
    }
    assert forall|k: Key| map_of(new).contains_key(k) implies map_of(new)[k] == target[k] by {
        let i = choose|i: int| 0 <= i < new.len() && #[trigger] new[i].holds(k);
        lemma_map_at(new, i);
        assert(slots[i].holds(k));
        assert(distinct(slots, i, r));
        lemma_map_at(slots, i);
    }
    assert(map_of(new) =~= target);
}

/// A slot that was never used.
pub open spec fn vacant_entry() -> Entry {
    Entry { key: None, value: Value::Nil }
}

/// A table of that many slots, all vacant.
pub open spec fn vacant_slots(capacity: nat) -> Seq<Entry> {
    Seq::new(capacity, |i: int| vacant_entry())
}

/// The capacity after a table of the given capacity has grown: 8 at
/// first, then twice as much each time.
pub open spec fn grown_capacity(capacity: nat) -> nat {
    if capacity == 0 {
        8
    } else {
        2 * capacity
    }
}

/// The most occupied slots that a table of the given capacity may have:
/// three quarters of them.
pub open spec fn max_load(capacity: int) -> int {
    capacity / 4 * 3
}

/// The slots `fresh` after the entries of `old` from slot `i` on were put
/// into them, one after the other, each where its key belongs.
pub open spec fn rehash_from(old: Seq<Entry>, i: int, fresh: Seq<Entry>) -> Seq<Entry>
    decreases old.len() - i,
{
    if i < 0 || i >= old.len() {
        fresh
    } else if old[i].key is Some {
        rehash_from(old, i + 1, store(fresh, old[i]))
    } else {
        rehash_from(old, i + 1, fresh)
    }
}

/// The slots of a table after it has grown: the keys are placed anew, in
/// the order of their old slots, and the tombstones are gone.
pub open spec fn rehash(old: Seq<Entry>) -> Seq<Entry> {
    rehash_from(old, 0, vacant_slots(grown_capacity(old.len())))
}

/// The slots as an insertion finds them: grown if one more occupied slot
/// would be more than the table may have.
pub open spec fn before_insert(slots: Seq<Entry>) -> Seq<Entry> {
    if occupied(slots) + 1 > max_load(slots.len() as int) {
        rehash(slots)
    } else {
        slots
    }
}

/// What holds while a table grows, after the first `i` old slots were
/// dealt with.
pub open spec fn rehash_inv(old: Seq<Entry>, i: int, fresh: Seq<Entry>) -> bool {
    &&& slots_wf(fresh)
    &&& fresh.len() > old.len()
    &&& 0 <= i <= old.len()
    &&& occupied(fresh) <= occupied(old.take(i))
    &&& forall|j: int| 0 <= j < fresh.len() && (#[trigger] fresh[j]).key is None
        ==> fresh[j].vacant()
    &&& forall|k: Key|
        #[trigger] contains(fresh, k) <==> exists|j: int| 0 <= j < i && #[trigger] old[j].holds(k)
    &&& forall|j: int|
        0 <= j < i && (#[trigger] old[j]).key is Some ==> map_of(fresh)[old[j].key.unwrap()@]
            == old[j].value
}

pub proof fn lemma_rehash_start(old: Seq<Entry>, fresh: Seq<Entry>)
    requires
        fresh == vacant_slots(fresh.len()),
        old.len() < fresh.len() <= usize::MAX,
    ensures
        rehash_inv(old, 0, fresh),
        occupied(fresh) == 0,
{
    lemma_occupied_bound(fresh);
    assert(old.take(0) =~= Seq::<Entry>::empty());
    assert forall|i: int, j: int|
        0 <= i < fresh.len() && 0 <= j < fresh.len() && i != j implies #[trigger] distinct(
        fresh,
        i,
        j,
    ) by {}
    assert forall|i: int, s: int| 0 <= i < fresh.len() implies #[trigger] reachable(
        fresh,
        i,
        s,
    ) by {}
    assert forall|k: Key| !(#[trigger] contains(fresh, k)) by {
        lemma_nothing_occupied(fresh, k);
    }
}

pub proof fn lemma_rehash_step(old: Seq<Entry>, i: int, fresh: Seq<Entry>)
    requires
        slots_wf(old),
        rehash_inv(old, i, fresh),
        i < old.len(),
    ensures
        exists|v: int| 0 <= v < fresh.len() && (#[trigger] fresh[v]).vacant(),
        old[i].key is Some ==> rehash_inv(old, i + 1, store(fresh, old[i])) && occupied(
            store(fresh, old[i]),
        ) == occupied(fresh) + 1,
        old[i].key is None ==> rehash_inv(old, i + 1, fresh),
{
    lemma_occupied_bound(old.take(i));
    lemma_occupied_bound(fresh);
    assert(old.take(i + 1).drop_last() =~= old.take(i));
    assert(old.take(i + 1).last() == old[i]);
    if old[i].key is Some {
        let key = old[i].key.unwrap()@;
        let next = store(fresh, old[i]);
        let r = find_slot(fresh, key);
        lemma_store(fresh, old[i]);
        lemma_find_slot(fresh, key);
        if contains(fresh, key) {
            let j = choose|j: int| 0 <= j < i && #[trigger] old[j].holds(key);
            assert(distinct(old, j, i));
        }
        assert(fresh[r].key is None);
        assert(old[i].holds(key));
        assert forall|k: Key| #[trigger]
            contains(next, k) <==> exists|j: int| 0 <= j < i + 1 && #[trigger] old[j].holds(k) by {
            assert(contains(next, k) == map_of(next).contains_key(k));
            assert(contains(fresh, k) == map_of(fresh).contains_key(k));
            if contains(fresh, k) {
                let j = choose|j: int| 0 <= j < i && #[trigger] old[j].holds(k);
                assert(0 <= j < i + 1 && old[j].holds(k));
            }
            if exists|j: int| 0 <= j < i + 1 && #[trigger] old[j].holds(k) {
                let j = choose|j: int| 0 <= j < i + 1 && #[trigger] old[j].holds(k);
                if j < i {
                    assert(contains(fresh, k));
                }
            }
        }
        assert forall|j: int| 0 <= j < i + 1 && (#[trigger] old[j]).key is Some implies map_of(
            next,
        )[old[j].key.unwrap()@] == old[j].value by {
            if j < i {
                assert(distinct(old, j, i));
            }
        }
    } else {
        assert forall|k: Key| #[trigger]
            contains(fresh, k) <==> exists|j: int| 0 <= j < i + 1 && #[trigger] old[j].holds(k) by {
            if contains(fresh, k) {
                let j = choose|j: int| 0 <= j < i && #[trigger] old[j].holds(k);
                assert(0 <= j < i + 1 && old[j].holds(k));
            }
            if exists|j: int| 0 <= j < i + 1 && #[trigger] old[j].holds(k) {
                let j = choose|j: int| 0 <= j < i + 1 && #[trigger] old[j].holds(k);
                assert(j < i);
            }
        }
    }
}

pub proof fn lemma_rehash_end(old: Seq<Entry>, fresh: Seq<Entry>)
    requires
        slots_wf(old),
        rehash_inv(old, old.len() as int, fresh),
    ensures
        map_of(fresh) == map_of(old),
        occupied(fresh) <= occupied(old),
{
    assert(old.take(old.len() as int) =~= old);
    assert forall|k: Key| map_of(fresh).contains_key(k) == map_of(old).contains_key(k) by {
        if contains(fresh, k) {
            let j = choose|j: int| 0 <= j < old.len() && #[trigger] old[j].holds(k);
            assert(contains(old, k));
        }
        if contains(old, k) {
            let j = choose|j: int| 0 <= j < old.len() && #[trigger] old[j].holds(k);
            assert(contains(fresh, k));
        }
    }
    assert forall|k: Key| map_of(old).contains_key(k) implies map_of(fresh)[k]
        == map_of(old)[k] by {
        let j = choose|j: int| 0 <= j < old.len() && #[trigger] old[j].holds(k);
        lemma_map_at(old, j);
    }
    assert(map_of(fresh) =~= map_of(old));
}

/// The slots `target` after every entry of `source` from slot `i` on was
/// set in them, in the order of the slots of `source`.
pub open spec fn merged(target: Seq<Entry>, source: Seq<Entry>, i: int) -> Seq<Entry>
    decreases source.len() - i,
{
    if i < 0 || i >= source.len() {
        target
    } else if source[i].key is Some {
        merged(store(before_insert(target), source[i]), source, i + 1)
    } else {
        merged(target, source, i + 1)
    }
}

/// The map that the first `i` slots stand for.
pub open spec fn prefix_map(slots: Seq<Entry>, i: int) -> Map<Key, Value>
    decreases i,
{
    if i <= 0 {
        Map::empty()
    } else if slots[i - 1].key is Some {
        prefix_map(slots, i - 1).insert(slots[i - 1].key.unwrap()@, slots[i - 1].value)
    } else {
        prefix_map(slots, i - 1)
    }
}

pub proof fn lemma_prefix_map(slots: Seq<Entry>, i: int)
    requires
        slots_wf(slots),
        0 <= i <= slots.len(),
    ensures
        forall|k: Key|
            #[trigger] prefix_map(slots, i).contains_key(k) <==> exists|j: int|
                0 <= j < i && #[trigger] slots[j].holds(k),
        forall|j: int|
            0 <= j < i && (#[trigger] slots[j]).key is Some ==> prefix_map(
                slots,
                i,
            )[slots[j].key.unwrap()@] == slots[j].value,
        i == slots.len() ==> prefix_map(slots, i) == map_of(slots),
    decreases i,
{
    if i > 0 {
        lemma_prefix_map(slots, i - 1);
        let last = slots[i - 1];
        assert forall|k: Key| #[trigger]
            prefix_map(slots, i).contains_key(k) <==> exists|j: int|
                0 <= j < i && #[trigger] slots[j].holds(k) by {
            if prefix_map(slots, i - 1).contains_key(k) {
                let j = choose|j: int| 0 <= j < i - 1 && #[trigger] slots[j].holds(k);
                assert(0 <= j < i && slots[j].holds(k));
            }
            if last.key is Some && last.key.unwrap()@ == k {
                assert(slots[i - 1].holds(k));
            }
            if exists|j: int| 0 <= j < i && #[trigger] slots[j].holds(k) {
                let j = choose|j: int| 0 <= j < i && #[trigger] slots[j].holds(k);
                if j < i - 1 {
                    assert(prefix_map(slots, i - 1).contains_key(k));
                }
            }
        }
        assert forall|j: int| 0 <= j < i && (#[trigger] slots[j]).key is Some implies prefix_map(
            slots,
            i,
        )[slots[j].key.unwrap()@] == slots[j].value by {
            if j < i - 1 {
                assert(distinct(slots, j, i - 1));
            }
        }
    }
    if i == slots.len() {
        assert forall|k: Key| prefix_map(slots, i).contains_key(k) == map_of(slots).contains_key(
            k,
        ) by {
            if contains(slots, k) {
                let j = choose|j: int| 0 <= j < slots.len() && #[trigger] slots[j].holds(k);
                assert(0 <= j < i && slots[j].holds(k));
            }
        }
        assert forall|k: Key| map_of(slots).contains_key(k) implies prefix_map(slots, i)[k]
            == map_of(slots)[k] by {
            let j = choose|j: int| 0 <= j < slots.len() && #[trigger] slots[j].holds(k);
            lemma_map_at(slots, j);
        }
        assert(prefix_map(slots, i) =~= map_of(slots));
    }
}

/// The slots that hold a key, in order.
pub open spec fn live_entries(slots: Seq<Entry>) -> Seq<Entry>
    decreases slots.len(),
{
    if slots.len() == 0 {
        Seq::empty()
    } else if slots.last().key is Some {
        live_entries(slots.drop_last()).push(slots.last())
    } else {
        live_entries(slots.drop_last())
    }
}

/// The entries of a table that hold a key, to be taken one by one.
pub struct IterTable {
    entries: Vec<Entry>,
    position: usize,
}

impl IterTable {
    #[verifier::type_invariant]
    spec fn inv(self) -> bool {
        self.position <= self.entries@.len()
    }

    /// The entries that are still to come.
    pub closed spec fn remaining(&self) -> Seq<Entry> {
        self.entries@.skip(self.position as int)
    }

    /// The next entry, if any is left.
    pub fn next(&mut self) -> (entry: Option<Entry>)
        ensures
            old(self).remaining().len() == 0 ==> entry.is_none()
                && final(self).remaining() == old(self).remaining(),
            old(self).remaining().len() > 0 ==> entry == Some(old(self).remaining()[0])
                && final(self).remaining() == old(self).remaining().skip(1),
    {
        proof {
            use_type_invariant(&*self);
        }
        if self.position < self.entries.len() {
            let entry = self.entries[self.position].duplicate();
            self.position += 1;
            assert(self.entries@.skip(self.position as int) =~= self.entries@.skip(
                self.position - 1,
            ).skip(1));
            Some(entry)
        } else {
            None
        }
    }
}

/// An open-addressed hash table from strings to values, with linear
/// probing, tombstones for deleted keys, and a capacity that is a power
/// of two.
#[derive(Debug)]
pub struct Table {
    count: usize,
    entries: Vec<Entry>,
}

impl View for Table {
    type V = Map<Key, Value>;

    /// The map from keys to values that the table stands for.
    open spec fn view(&self) -> Map<Key, Value> {
        map_of(self.slots())
    }
}

impl Table {
    /// The slots of the table, in order.
    pub closed spec fn slots(&self) -> Seq<Entry> {
        self.entries@
    }

    /// The number of occupied slots that the table has counted.
    pub closed spec fn counted(&self) -> int {
        self.count as int
    }

    /// The table is in order: its slots are well formed, it knows how
    /// many are occupied, and unless it has no slots at all, its capacity
    /// is a power of two, at least 8, and at most three quarters of the
    /// slots are occupied.
    pub open spec fn wf(&self) -> bool {
        &&& slots_wf(self.slots())
        &&& self.counted() == occupied(self.slots())
        &&& self.slots().len() > 0 ==> {
            &&& self.slots().len() >= 8
            &&& exists|e: nat| self.slots().len() == #[trigger] pow2(e)
            &&& self.counted() <= max_load(self.slots().len() as int)
        }
    }

    /// An empty table without any slots.
    pub fn new() -> (table: Self)
        ensures
            table.wf(),
            table.slots() == Seq::<Entry>::empty(),
            table@ == Map::<Key, Value>::empty(),
    {
        let table = Table { count: 0, entries: Vec::new() };
        proof {
            assert forall|i: int, j: int|
                0 <= i < table.slots().len() && 0 <= j < table.slots().len() && i
                    != j implies #[trigger] distinct(table.slots(), i, j) by {}
            assert forall|i: int, s: int| 0 <= i < table.slots().len() implies #[trigger] reachable(
                table.slots(),
                i,
                s,
            ) by {}
            assert(table@ =~= Map::<Key, Value>::empty());
        }
        table
    }

    /// The number of occupied slots: keys and tombstones.
    pub fn count(&self) -> (n: usize)
        requires
            self.wf(),
        ensures
            n == occupied(self.slots()),
    {
        self.count
    }

    /// The number of slots.
    pub fn capacity(&self) -> (n: usize)
        ensures
            n == self.slots().len(),
    {
        self.entries.len()
    }

    /// The slots themselves.
    pub fn entries(&self) -> (slots: &[Entry])
        ensures
            slots@ == self.slots(),
    {
        self.entries.as_slice()
    }

    /// The slot where the string of that content and hash belongs.
    fn find_entry(entries: &Vec<Entry>, content: &[u8], hash: usize) -> (index: usize)
        requires
            slots_wf(entries@),
            exists|v: int| 0 <= v < entries@.len() && (#[trigger] entries@[v]).vacant(),
        ensures
            index == find_slot(entries@, (content@, hash)),
            index < entries@.len(),
    {
        let capacity: usize = entries.len();
        let mut index: usize = hash & (capacity - 1);
        let mut tombstone: Option<usize> = None;
        let ghost key: Key = (content@, hash);
        let ghost home: int = index as int;
        let ghost stop: int = probe_stop(entries@, key, home, 0);
        let ghost mut step: int = 0;
        proof {
            lemma_home_in_range(hash, capacity);
            let v = choose|v: int| 0 <= v < entries@.len() && (#[trigger] entries@[v]).vacant();
            lemma_probe_stops_at_vacant(entries@, key, home, v);
            lemma_probe_stop(entries@, key, home, 0);
            lemma_find_slot(entries@, key);
        }
        loop
            invariant
                capacity == entries@.len(),
                slots_wf(entries@),
                0 <= home < capacity,
                key == (content@, hash),
                home == home_slot(hash, capacity),
                stop == probe_stop(entries@, key, home, 0),
                0 <= step <= stop < capacity,
                index == probe(capacity as int, home, step),
                probe_stop(entries@, key, home, step) == stop,
                tombstone is None ==> first_tombstone(entries@, home, 0, stop) == first_tombstone(
                    entries@,
                    home,
                    step,
                    stop,
                ),
                tombstone matches Some(t) ==> t == probe(
                    capacity as int,
                    home,
                    first_tombstone(entries@, home, 0, stop),
                ) && first_tombstone(entries@, home, 0, stop) < step,
            decreases stop - step,
        {
            let entry = &entries[index];
            match &entry.key {
                Some(k) => {
                    if k.hash == hash && bytes_equal(k.value.as_slice(), content) {
                        assert(entry.holds(key));
                        return index;
                    }
                    assert(!entry.holds(key));
                },
                None => {
                    match &entry.value {
                        Value::Nil => {
                            assert(entry.vacant());
                            match tombstone {
                                Some(t) => {
                                    return t;
                                },
                                None => {
                                    return index;
                                },
                            }
                        },
                        _ => {
                            assert(entry.tombstone());
                            if tombstone.is_none() {
                                tombstone = Some(index);
                            }
                        },
                    }
                },
            }
            proof {
                lemma_probe_stop(entries@, key, home, step + 1);
                step = step + 1;
            }
            index = if index + 1 == capacity {
                0
            } else {
                index + 1
            };
        }
    }
    /// Appends vacant slots to `slots` until there are `more` more.
    fn push_vacant(slots: &mut Vec<Entry>, more: usize)
        ensures
            final(slots)@ == old(slots)@ + vacant_slots(more as nat),
    {
        let mut i: usize = 0;
        while i < more
            invariant
                i <= more,
                slots@ == old(slots)@ + vacant_slots(i as nat),
            decreases more - i,
        {
            slots.push(Entry { key: None, value: Value::Nil });
            assert(slots@ =~= old(slots)@ + vacant_slots((i + 1) as nat));
            i += 1;
        }
        assert(slots@ =~= old(slots)@ + vacant_slots(more as nat));
    }

    /// Lets the table grow: to 8 slots if it has none, else to twice as
    /// many. The keys are placed anew and the tombstones dropped.
    fn adjust_capacity(&mut self)
        requires
            old(self).wf(),
        ensures
            final(self).wf(),
            final(self).slots() == rehash(old(self).slots()),
            final(self).slots().len() == grown_capacity(old(self).slots().len()),
            final(self)@ == old(self)@,
            final(self).counted() <= old(self).counted(),
            final(self).counted() + 1 <= max_load(final(self).slots().len() as int),
    {
        let capacity: usize = self.entries.len();
        let mut fresh: Vec<Entry> = Vec::new();
        if capacity == 0 {
            Self::push_vacant(&mut fresh, 8);
        } else {
            Self::push_vacant(&mut fresh, capacity);
            Self::push_vacant(&mut fresh, capacity);
        }
        let new_capacity: usize = fresh.len();
        proof {
            assert(fresh@ =~= vacant_slots(grown_capacity(capacity as nat)));
            lemma_rehash_start(self.entries@, fresh@);
            assert(self.entries@.take(0) =~= Seq::<Entry>::empty());
        }
        let mut count: usize = 0;
        let mut i: usize = 0;
        while i < capacity
            invariant
                capacity == self.entries@.len(),
                self.wf(),
                *self == *old(self),
                new_capacity == fresh@.len(),
                new_capacity == grown_capacity(capacity as nat),
                rehash_inv(self.entries@, i as int, fresh@),
                rehash_from(self.entries@, i as int, fresh@) == rehash(self.entries@),
                count == occupied(fresh@),
            decreases capacity - i,
        {
            proof {
                lemma_rehash_step(self.entries@, i as int, fresh@);
                lemma_occupied_bound(fresh@);
            }
            match &self.entries[i].key {
                Some(k) => {
                    let dest: usize = Self::find_entry(&fresh, k.value.as_slice(), k.hash);
                    let moved = Entry {
                        key: Some(k.clone()),
                        value: self.entries[i].value.duplicate(),
                    };
                    assert(moved == self.entries@[i as int]);
                    fresh[dest] = moved;
                    count += 1;
                },
                None => {},
            }
            i += 1;
        }
        proof {
            lemma_rehash_end(self.entries@, fresh@);
            if capacity > 0 {
                let e: nat = choose|e: nat| capacity == #[trigger] pow2(e);
                vstd::arithmetic::power2::lemma_pow2_unfold(e + 1);
                assert(new_capacity == pow2(e + 1));
            } else {
                vstd::arithmetic::power2::lemma2_to64();
                assert(new_capacity == pow2(3));
            }
        }
        self.entries = fresh;
        self.count = count;
    }

    /// The value that the table holds for `key`, if any.
    pub fn get(&self, key: &LoxString) -> (value: Option<Value>)
        requires
            self.wf(),
        ensures
            value == if self@.contains_key(key@) {
                Some(self@[key@])
            } else {
                None
            },
    {
        if self.count == 0 {
            proof {
                lemma_nothing_occupied(self.entries@, key@);
            }
            return None;
        }
        proof {
            lemma_occupied_bound(self.entries@);
            lemma_find_slot(self.entries@, key@);
        }
        let index: usize = Self::find_entry(&self.entries, key.value.as_slice(), key.hash);
        let entry = &self.entries[index];
        match &entry.key {
            None => None,
            Some(_) => {
                proof {
                    lemma_map_at(self.entries@, index as int);
                }
                Some(entry.value.duplicate())
            },
        }
    }

    /// Sets the value of `key`, and says whether the key is new to the
    /// table. The table grows first if one more occupied slot would be
    /// more than three quarters of its slots.
    pub fn set(&mut self, key: Rc<LoxString>, value: Value) -> (is_new: bool)
        requires
            old(self).wf(),
        ensures
            final(self).wf(),
            final(self)@ == old(self)@.insert(key@, value),
            is_new == !old(self)@.contains_key(key@),
            final(self).slots() == store(
                before_insert(old(self).slots()),
                (Entry { key: Some(key), value }),
            ),
    {
        if self.count + 1 > self.entries.len() / 4 * 3 {
            self.adjust_capacity();
        }
        proof {
            lemma_occupied_bound(self.entries@);
            lemma_find_slot(self.entries@, key@);
            lemma_store(self.entries@, (Entry { key: Some(key), value }));
        }
        let index: usize = Self::find_entry(&self.entries, key.value.as_slice(), key.hash);
        let is_new: bool = self.entries[index].key.is_none();
        let was_vacant: bool = is_new && match &self.entries[index].value {
            Value::Nil => true,
            _ => false,
        };
        if was_vacant {
            self.count += 1;
        }
        self.entries[index] = Entry { key: Some(key), value };
        is_new
    }

    /// Takes `key` out of the table, and says whether it was there. Its
    /// slot keeps a tombstone.
    pub fn delete(&mut self, key: &LoxString) -> (was_there: bool)
        requires
            old(self).wf(),
        ensures
            final(self).wf(),
            final(self)@ == old(self)@.remove(key@),
            was_there == old(self)@.contains_key(key@),
            final(self).slots() == if was_there {
                old(self).slots().update(find_slot(old(self).slots(), key@), tombstone_entry())
            } else {
                old(self).slots()
            },
    {
        if self.count == 0 {
            proof {
                lemma_nothing_occupied(self.entries@, key@);
                assert(self@ =~= self@.remove(key@));
            }
            return false;
        }
        proof {
            lemma_occupied_bound(self.entries@);
            lemma_find_slot(self.entries@, key@);
        }
        let index: usize = Self::find_entry(&self.entries, key.value.as_slice(), key.hash);
        if self.entries[index].key.is_none() {
            proof {
                assert(self@ =~= self@.remove(key@));
            }
            return false;
        }
        proof {
            lemma_erase(self.entries@, index as int);
        }
        self.entries[index] = Entry { key: None, value: Value::Bool(true) };
        true
    }

    /// The string of the given content and hash that the table holds as a
    /// key, if it holds one.
    pub fn find_string(&self, s: &[u8], hash: usize) -> (found: Option<Rc<LoxString>>)
        requires
            self.wf(),
        ensures
            found.is_some() == self@.contains_key((s@, hash)),
            found matches Some(k) ==> k@ == (s@, hash) && self.slots()[find_slot(
                self.slots(),
                (s@, hash),
            )].key == Some(k),
    {
        if self.count == 0 {
            proof {
                lemma_nothing_occupied(self.entries@, (s@, hash));
            }
            return None;
        }
        proof {
            lemma_occupied_bound(self.entries@);
            lemma_find_slot(self.entries@, (s@, hash));
        }
        let index: usize = Self::find_entry(&self.entries, s, hash);
        match &self.entries[index].key {
            Some(k) => Some(k.clone()),
            None => None,
        }
    }
    /// Sets in this table every key of `table` to the value it has there.
    pub fn add_table(&mut self, table: &Table)
        requires
            old(self).wf(),
            table.wf(),
        ensures
            final(self).wf(),
            final(self)@ == old(self)@.union_prefer_right(table@),
            final(self).slots() == merged(old(self).slots(), table.slots(), 0),
    {
        let n: usize = table.entries.len();
        let mut i: usize = 0;
        proof {
            assert(self@ =~= self@.union_prefer_right(prefix_map(table.entries@, 0)));
        }
        while i < n
            invariant
                n == table.entries@.len(),
                table.wf(),
                self.wf(),
                i <= n,
                self@ == old(self)@.union_prefer_right(prefix_map(table.entries@, i as int)),
                merged(self.slots(), table.slots(), i as int) == merged(
                    old(self).slots(),
                    table.slots(),
                    0,
                ),
            decreases n - i,
        {
            let entry = &table.entries[i];
            let ghost before = self@;
            match &entry.key {
                Some(k) => {
                    self.set(k.clone(), entry.value.duplicate());
                    proof {
                        assert(before.insert(k@, entry.value) =~= old(self)@.union_prefer_right(
                            prefix_map(table.entries@, i + 1),
                        ));
                    }
                },
                None => {},
            }
            i += 1;
        }
        proof {
            lemma_prefix_map(table.entries@, n as int);
        }
    }

    /// The entries that hold a key, in the order of their slots.
    pub fn iter(&self) -> (entries: IterTable)
        ensures
            entries.remaining() == live_entries(self.slots()),
    {
        let mut live: Vec<Entry> = Vec::new();
        let n: usize = self.entries.len();
        let mut i: usize = 0;
        while i < n
            invariant
                n == self.entries@.len(),
                i <= n,
                live@ == live_entries(self.entries@.take(i as int)),
            decreases n - i,
        {
            proof {
                assert(self.entries@.take(i + 1).drop_last() =~= self.entries@.take(i as int));
            }
            if self.entries[i].key.is_some() {
                live.push(self.entries[i].duplicate());
            }
            i += 1;
        }
        proof {
            assert(self.entries@.take(n as int) =~= self.entries@);
            assert(live@.skip(0) =~= live@);
        }
        IterTable { entries: live, position: 0 }
    }
}

} // verus!
