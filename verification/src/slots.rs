//! Backup-pointer slots.  An extension that registers an override may ask to
//! receive the previously-active handler ("original") in a slot it owns.  A
//! slot holds a code address; zero is the null sentinel meaning "no original
//! is callable".  Modelling the slots as one owned store makes explicit who
//! may write a restore value.

use vstd::prelude::*;

verus! {

/// The store of all backup-pointer slots handed out so far.  A slot is
/// addressed by the index returned from [`Slots::new_slot`].
pub struct Slots {
    pub values: Vec<u64>,
}

impl Slots {
    /// A store with no slots.
    pub fn new() -> (r: Slots)
        ensures
            r.values@.len() == 0,
    {
        Slots { values: Vec::new() }
    }

    /// `s`, when present, addresses a slot of this store.
    pub open spec fn slot_ok(self, s: Option<usize>) -> bool {
        match s {
            Some(id) => id < self.values@.len(),
            None => true,
        }
    }

    /// Make a new slot, initially null, and hand back its address.
    pub fn new_slot(&mut self) -> (id: usize)
        ensures
            id == old(self).values@.len(),
            final(self).values@ == old(self).values@.push(0u64),
    {
        let id = self.values.len();
        self.values.push(0u64);
        id
    }

    /// Read a slot.
    pub fn read(&self, id: usize) -> (v: u64)
        requires
            id < self.values@.len(),
        ensures
            v == self.values@[id as int],
    {
        self.values[id]
    }

    /// Overwrite a slot.
    pub fn write(&mut self, id: usize, v: u64)
        requires
            id < old(self).values@.len(),
        ensures
            final(self).values@ == old(self).values@.update(id as int, v),
    {
        self.values.set(id, v);
    }

    /// Overwrite the addressed slot if one was given; otherwise do nothing.
    pub fn write_opt(&mut self, s: Option<usize>, v: u64)
        requires
            old(self).slot_ok(s),
        ensures
            final(self).values@ == write_opt_spec(old(self).values@, s, v),
    {
        match s {
            Some(id) => self.write(id, v),
            None => (),
        }
    }
}

/// The slot values after an optional write.  A slot address beyond the
/// store leaves it unchanged (the store never hands such an address out).
pub open spec fn write_opt_spec(values: Seq<u64>, s: Option<usize>, v: u64) -> Seq<u64> {
    match s {
        Some(id) => if id < values.len() {
            values.update(id as int, v)
        } else {
            values
        },
        None => values,
    }
}

} // verus!
