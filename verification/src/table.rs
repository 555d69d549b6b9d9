//! The transposition table: a direct-mapped cache of fixed capacity from
//! position keys to scores.
//!
//! Every key has one slot, `key mod CAPACITY`. A slot holds one key and one
//! value; storing overwrites whatever the slot held, and a lookup answers only
//! when the slot holds the very key that is asked for.
use vstd::prelude::*;

verus! {

/// Number of slots of the table.
pub const CAPACITY: usize = 0x100_0000;

/// The slot of a key.
pub open spec fn slot_of(key: u128) -> int {
    (key % (CAPACITY as u128)) as int
}

/// What a lookup of `key` answers on the contents `m`.
pub open spec fn lookup(m: Map<u128, i8>, key: u128) -> Option<i8> {
    if m.dom().contains(key) {
        Some(m[key])
    } else {
        None
    }
}

/// The contents after storing `val` under `key`: the key is there with its
/// new value, every other key of the same slot is gone, and the keys of other
/// slots are as before.
pub open spec fn stored(m: Map<u128, i8>, key: u128, val: i8) -> Map<u128, i8> {
    Map::new(
        |k: u128| k == key || (m.dom().contains(k) && slot_of(k) != slot_of(key)),
        |k: u128|
            if k == key {
                val
            } else {
                m[k]
            },
    )
}

/// The contents of a new table. All slots start as zero, so key 0, whose slot
/// is slot 0, is found there with value 0; no other key is found.
pub open spec fn fresh() -> Map<u128, i8> {
    Map::new(|k: u128| k == 0, |k: u128| 0i8)
}

/// The contents after storing the pairs of `ops`, first to last, in a new
/// table.
pub open spec fn replay(ops: Seq<(u128, i8)>) -> Map<u128, i8>
    decreases ops.len(),
{
    if ops.len() == 0 {
        fresh()
    } else {
        stored(replay(ops.drop_last()), ops.last().0, ops.last().1)
    }
}

/// A direct-mapped cache with `CAPACITY` slots.
pub struct TranspositionTable {
    keys: Vec<u128>,
    values: Vec<i8>,
}

impl View for TranspositionTable {
    type V = Map<u128, i8>;

    /// The keys a lookup finds, each with the value it finds.
    closed spec fn view(&self) -> Map<u128, i8> {
        Map::new(
            |k: u128| self.keys@[slot_of(k)] == k,
            |k: u128| self.values@[slot_of(k)],
        )
    }
}

impl TranspositionTable {
    /// Both arrays have one entry per slot.
    pub closed spec fn wf(&self) -> bool {
        self.keys@.len() == CAPACITY && self.values@.len() == CAPACITY
    }

    /// A table with every slot zero.
    pub fn new() -> (table: Self)
        ensures
            table.wf(),
            table@ == fresh(),
    {
        let table = Self { keys: vec![0; CAPACITY], values: vec![0; CAPACITY] };
        assert(table@ =~= fresh());
        table
    }

    /// The slot of a key.
    pub fn hash(key: u128) -> (slot: usize)
        ensures
            slot == slot_of(key),
            slot < CAPACITY,
    {
        (key % (CAPACITY as u128)) as usize
    }

    /// Store `val` under `key`, overwriting the slot.
    pub fn put(&mut self, key: u128, val: i8)
        requires
            old(self).wf(),
        ensures
            final(self).wf(),
            final(self)@ == stored(old(self)@, key, val),
    {
        let loc = Self::hash(key);
        self.keys[loc] = key;
        self.values[loc] = val;
        assert(self@ =~= stored(old(self)@, key, val));
    }

    /// The value stored under `key`, if the slot of `key` holds `key`.
    pub fn get(&self, key: u128) -> (found: Option<i8>)
        requires
            self.wf(),
        ensures
            found == lookup(self@, key),
    {
        let loc = Self::hash(key);
        if self.keys[loc] == key {
            return Option::Some(self.values[loc]);
        } else {
            return Option::None;
        }
    }
}

/// A lookup after a store: the key just stored is found with its value, any
/// other key of the same slot is not found, and the keys of other slots are
/// found as before.
pub proof fn lemma_lookup_stored(m: Map<u128, i8>, key: u128, val: i8, asked: u128)
    ensures
        lookup(stored(m, key, val), asked) == if asked == key {
            Some(val)
        } else if slot_of(asked) == slot_of(key) {
            None
        } else {
            lookup(m, asked)
        },
{
}

/// Whatever was stored since the table was new, a lookup of a key other than
/// 0 answers only with a value that was stored under that very key, and after
/// that store nothing was stored in the slot of the key. So a key that was
/// never stored is not found, and a key is never answered with the value of
/// another key of its slot.
pub proof fn lemma_lookup_was_stored(ops: Seq<(u128, i8)>, key: u128)
    requires
        key != 0,
    ensures
        match lookup(replay(ops), key) {
            Some(val) => exists|i: int|
                {
                    &&& 0 <= i < ops.len()
                    &&& #[trigger] ops[i] == (key, val)
                    &&& forall|j: int|
                        i < j < ops.len() ==> slot_of((#[trigger] ops[j]).0) != slot_of(key)
                },
            None => forall|i: int|
                0 <= i < ops.len() && (#[trigger] ops[i]).0 == key ==> exists|j: int|
                    i < j < ops.len() && slot_of((#[trigger] ops[j]).0) == slot_of(key),
        },
    decreases ops.len(),
{
    if ops.len() > 0 {
        let before = ops.drop_last();
        let last = ops.len() - 1;
        lemma_lookup_was_stored(before, key);
        lemma_lookup_stored(replay(before), ops.last().0, ops.last().1, key);
        match lookup(replay(ops), key) {
            Some(val) => {
                if ops.last().0 == key {
                    assert(ops[last] == (key, val));
                } else {
                    let i = choose|i: int|
                        {
                            &&& 0 <= i < before.len()
                            &&& #[trigger] before[i] == (key, val)
                            &&& forall|j: int|
                                i < j < before.len() ==> slot_of((#[trigger] before[j]).0)
                                    != slot_of(key)
                        };
                    assert(ops[i] == (key, val));
                    assert forall|j: int| i < j < ops.len() implies slot_of(
                        (#[trigger] ops[j]).0,
                    ) != slot_of(key) by {
                        if j < last {
                            assert(before[j] == ops[j]);
                        }
                    }
                }
            },
            None => {
                assert forall|i: int| 0 <= i < ops.len() && (#[trigger] ops[i]).0
                    == key implies exists|j: int|
                    i < j < ops.len() && slot_of((#[trigger] ops[j]).0) == slot_of(key) by {
                    if slot_of(ops.last().0) == slot_of(key) {
                        assert(i < last);
                        assert(slot_of(ops[last].0) == slot_of(key));
                    } else {
                        assert(before[i] == ops[i]);
                        let j = choose|j: int|
                            i < j < before.len() && slot_of((#[trigger] before[j]).0) == slot_of(
                                key,
                            );
                        assert(before[j] == ops[j]);
                    }
                }
            },
        }
    }
}

} // verus!
