//! Deferred condition identifiers.  An override may be registered with a
//! symbolic condition reference before the module that defines the shared
//! condition-constant table has loaded; once that table is available every
//! reference resolves to a concrete integer.  A constant is therefore a
//! two-state value: `Symbolic` (a reference into the table) or `Evaluated`
//! (the concrete integer), with an explicit resolve step.

use vstd::prelude::*;

verus! {

/// The shared condition-constant table, mapping a symbolic reference to its
/// concrete integer value.  Keys are unique.
pub struct ConstTable {
    pub entries: Vec<(u64, i32)>,
}

impl ConstTable {
    /// Keys are unique, so a lookup has one answer.
    pub open spec fn wf(self) -> bool {
        forall|i: int, j: int|
            0 <= i < j < self.entries@.len() ==> self.entries@[i].0 != self.entries@[j].0
    }

    /// The table has a value for reference `key`.
    pub open spec fn has_key(self, key: u64) -> bool {
        exists|i: int| 0 <= i < self.entries@.len() && self.entries@[i].0 == key
    }

    /// The value the table gives for reference `key`.
    pub open spec fn value_of(self, key: u64) -> i32 {
        self.entries@[choose|i: int|
            0 <= i < self.entries@.len() && self.entries@[i].0 == key].1
    }

    /// An empty table.
    pub fn new() -> (r: ConstTable)
        ensures
            r.entries@.len() == 0,
            r.wf(),
    {
        ConstTable { entries: Vec::new() }
    }

    /// Add an entry for a reference the table does not hold yet.
    pub fn insert(&mut self, key: u64, value: i32)
        requires
            old(self).wf(),
            !old(self).has_key(key),
        ensures
            final(self).entries@ == old(self).entries@.push((key, value)),
            final(self).wf(),
            final(self).has_key(key),
            final(self).value_of(key) == value,
            forall|k: u64|
                old(self).has_key(k) ==> final(self).has_key(k) && final(self).value_of(k) == old(
                    self,
                ).value_of(k),
    {
        self.entries.push((key, value));
        proof {
            let s = self.entries@;
            let n = s.len() - 1;
            assert(s[n].0 == key && s[n].1 == value);
            assert forall|i: int, j: int| 0 <= i < j < s.len() implies s[i].0 != s[j].0 by {
                if j == n {
                    assert(old(self).entries@[i] == s[i]);
                    assert(old(self).has_key(s[i].0) || s[i].0 != key) by {
                        if s[i].0 == key {
                            assert(0 <= i < old(self).entries@.len() && old(self).entries@[i].0
                                == key);
                        }
                    }
                }
            }
            let w = choose|i: int| 0 <= i < s.len() && s[i].0 == key;
            assert(0 <= w < s.len() && s[w].0 == key);
            if w < n {
                assert(old(self).entries@[w] == s[w]);
                assert(old(self).has_key(key));
            }
            assert(self.value_of(key) == value);
            assert forall|k: u64| old(self).has_key(k) implies self.has_key(k) && self.value_of(k)
                == old(self).value_of(k) by {
                let ow = choose|i: int|
                    0 <= i < old(self).entries@.len() && old(self).entries@[i].0 == k;
                assert(s[ow] == old(self).entries@[ow]);
                assert(s[ow].0 == k);
                let nw = choose|i: int| 0 <= i < s.len() && s[i].0 == k;
                assert(0 <= nw < s.len() && s[nw].0 == k);
                if nw == n {
                    assert(old(self).has_key(key));
                } else {
                    assert(old(self).entries@[nw] == s[nw]);
                    assert(old(self).value_of(k) == old(self).entries@[choose|i: int|
                        0 <= i < old(self).entries@.len() && old(self).entries@[i].0 == k].1);
                    if nw != ow {
                        assert(old(self).entries@[nw].0 == k && old(self).entries@[ow].0 == k);
                    }
                }
            }
        }
    }

    /// Look a reference up.
    pub fn lookup(&self, key: u64) -> (r: Option<i32>)
        requires
            self.wf(),
        ensures
            match r {
                Some(v) => self.has_key(key) && v == self.value_of(key),
                None => !self.has_key(key),
            },
    {
        let n = self.entries.len();
        let mut i: usize = 0;
        while i < n
            invariant
                self.wf(),
                n == self.entries@.len(),
                0 <= i <= n,
                forall|j: int| 0 <= j < i ==> self.entries@[j].0 != key,
            decreases n - i,
        {
            if self.entries[i].0 == key {
                return Some(self.entries[i].1);
            }
            i = i + 1;
        }
        None
    }
}

/// A condition identifier: either still a symbolic reference into the shared
/// table, or already the concrete integer.
#[derive(Clone, Copy, PartialEq, Eq, Structural, Debug)]
pub enum LuaConstant {
    Symbolic(u64),
    Evaluated(i32),
}

impl LuaConstant {
    /// A symbolic constant can only be read once the table has its key.
    pub open spec fn resolvable(self, table: ConstTable) -> bool {
        match self {
            LuaConstant::Symbolic(key) => table.has_key(key),
            LuaConstant::Evaluated(_) => true,
        }
    }

    /// The concrete value of this constant under `table`.
    pub open spec fn value_spec(self, table: ConstTable) -> i32 {
        match self {
            LuaConstant::Symbolic(key) => table.value_of(key),
            LuaConstant::Evaluated(v) => v,
        }
    }

    /// Read the concrete value, caching it so later reads are direct.
    pub fn get(&mut self, table: &ConstTable) -> (v: i32)
        requires
            table.wf(),
            old(self).resolvable(*table),
        ensures
            v == old(self).value_spec(*table),
            *final(self) == LuaConstant::Evaluated(v),
    {
        match *self {
            LuaConstant::Symbolic(key) => {
                let looked = self.lookup_key(table, key);
                *self = LuaConstant::Evaluated(looked);
                looked
            },
            LuaConstant::Evaluated(v) => v,
        }
    }

    /// Read the concrete value without caching it.
    pub fn eval(&self, table: &ConstTable) -> (v: i32)
        requires
            table.wf(),
            self.resolvable(*table),
        ensures
            v == self.value_spec(*table),
    {
        match *self {
            LuaConstant::Symbolic(key) => {
                match table.lookup(key) {
                    Some(v) => v,
                    None => 0,  // unreachable: resolvable gives has_key
                }
            },
            LuaConstant::Evaluated(v) => v,
        }
    }

    /// Helper: total lookup under the resolvability precondition.
    fn lookup_key(&self, table: &ConstTable, key: u64) -> (v: i32)
        requires
            table.wf(),
            table.has_key(key),
        ensures
            v == table.value_of(key),
    {
        match table.lookup(key) {
            Some(v) => v,
            None => 0,  // unreachable: has_key holds
        }
    }
}

} // verus!
