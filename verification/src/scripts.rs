//! The live instance tracker.  Runtime objects constructed under a tracked
//! creation path are remembered together with the identity they were built
//! against and the memory region of their defining module.  Newly
//! registered overrides are applied retroactively to every matching live
//! instance, each instance's own dispatch table being patched
//! independently; on module unload every patch whose installed code pointer
//! lies in the unloading range is reverted to its recorded backup.

use vstd::prelude::*;

use crate::acmd::AcmdRegistry;
use crate::acmd::Category;
use crate::acmd::ScriptInfo;
use crate::constant::ConstTable;
use crate::slots::Slots;
use crate::slots::write_opt_spec;
use crate::status::StatusInfo;
use crate::status::StatusRegistry;

verus! {

/// Index of the stashed destructor in a recreated status vtable.
pub const STATUS_DTOR: usize = 15;

/// Index of the stashed deleting destructor in a recreated status vtable.
pub const STATUS_DEL_DTOR: usize = 16;

/// Index of the stashed status-setup entry in a recreated status vtable.
pub const STATUS_SET: usize = 17;

/// Index of the owning agent's identity in a recreated status vtable.
pub const STATUS_AGENT_HASH: usize = 18;

/// A live script-dispatch instance: an opaque host handle, the identity it
/// was constructed against, its category, whether it came from the shared
/// creation path, the memory region of its defining module, and its own
/// per-script dispatch table.
pub struct AcmdInstance {
    pub handle: u64,
    pub hash: u64,
    pub category: Category,
    pub is_share: bool,
    pub module_base: u64,
    pub module_size: u64,
    pub functions: Vec<(u64, u64)>,
}

/// A dispatch table holds each script key at most once.
pub open spec fn table_wf(s: Seq<(u64, u64)>) -> bool {
    forall|i: int, j: int| 0 <= i < j < s.len() ==> s[i].0 != s[j].0
}

/// The table has an entry for `key`.
pub open spec fn table_has(s: Seq<(u64, u64)>, key: u64) -> bool {
    exists|i: int| 0 <= i < s.len() && s[i].0 == key
}

/// What the table dispatches `key` to; the null pointer when no entry
/// exists (an absent entry and a null entry behave alike).
pub open spec fn table_get(s: Seq<(u64, u64)>, key: u64) -> u64 {
    if table_has(s, key) {
        s[choose|i: int| 0 <= i < s.len() && s[i].0 == key].1
    } else {
        0
    }
}

/// The table after an in-place write of `key -> val`: the existing entry is
/// overwritten, or a new entry is appended.
pub open spec fn table_set(s: Seq<(u64, u64)>, key: u64, val: u64) -> Seq<(u64, u64)> {
    if table_has(s, key) {
        s.update(choose|i: int| 0 <= i < s.len() && s[i].0 == key, (key, val))
    } else {
        s.push((key, val))
    }
}

/// A write behaves like a map update: the written key reads back, other
/// keys are untouched, and well-formedness is kept.
pub proof fn lemma_table_set(s: Seq<(u64, u64)>, key: u64, val: u64)
    requires
        table_wf(s),
    ensures
        table_wf(table_set(s, key, val)),
        table_get(table_set(s, key, val), key) == val,
        table_has(table_set(s, key, val), key),
        forall|k: u64|
            k != key ==> #[trigger] table_get(table_set(s, key, val), k) == table_get(s, k)
                && (table_has(table_set(s, key, val), k) == table_has(s, k)),
{
    let r = table_set(s, key, val);
    if table_has(s, key) {
        let w = choose|i: int| 0 <= i < s.len() && s[i].0 == key;
        assert(r == s.update(w, (key, val)));
        assert(r[w] == (key, val));
        assert forall|i1: int, i2: int| 0 <= i1 < i2 < r.len() implies r[i1].0 != r[i2].0 by {
            if i1 != w && i2 != w {
                assert(r[i1] == s[i1] && r[i2] == s[i2]);
            } else if i1 == w {
                assert(r[i2] == s[i2] && s[w].0 == key);
            } else {
                assert(r[i1] == s[i1] && s[w].0 == key);
            }
        }
        assert(table_get(r, key) == val) by {
            let w2 = choose|i: int| 0 <= i < r.len() && r[i].0 == key;
            if w2 != w {
                assert(r[w2] == s[w2]);
                assert(s[w2].0 == key && s[w].0 == key);
            }
        }
        assert forall|k: u64| k != key implies #[trigger] table_get(r, k) == table_get(s, k)
            && (table_has(r, k) == table_has(s, k)) by {
            if table_has(s, k) {
                let v = choose|i: int| 0 <= i < s.len() && s[i].0 == k;
                assert(v != w);
                assert(r[v] == s[v]);
                assert(table_has(r, k));
                let v2 = choose|i: int| 0 <= i < r.len() && r[i].0 == k;
                if v2 != v {
                    assert(r[v2].0 == k && r[v].0 == k);
                    if v2 == w {
                        assert(r[w].0 == key);
                    } else {
                        assert(r[v2] == s[v2]);
                        assert(s[v2].0 == k && s[v].0 == k);
                    }
                }
                assert(r[v2] == s[v2] && s[v2].0 == k && s[v].0 == k);
            } else {
                if table_has(r, k) {
                    let v2 = choose|i: int| 0 <= i < r.len() && r[i].0 == k;
                    if v2 == w {
                        assert(r[w].0 == key);
                    } else {
                        assert(r[v2] == s[v2]);
                        assert(table_has(s, k));
                    }
                }
            }
        }
    } else {
        assert(r == s.push((key, val)));
        assert(r[s.len() as int] == (key, val));
        assert forall|i1: int, i2: int| 0 <= i1 < i2 < r.len() implies r[i1].0 != r[i2].0 by {
            if i2 == s.len() as int {
                assert(r[i1] == s[i1]);
                assert(!table_has(s, key) ==> s[i1].0 != key) by {
                    if s[i1].0 == key {
                        assert(table_has(s, key));
                    }
                }
            } else {
                assert(r[i1] == s[i1] && r[i2] == s[i2]);
            }
        }
        assert(table_has(r, key));
        assert(table_get(r, key) == val) by {
            let w2 = choose|i: int| 0 <= i < r.len() && r[i].0 == key;
            if w2 != s.len() as int {
                assert(r[w2] == s[w2]);
                assert(table_has(s, key));
            }
        }
        assert forall|k: u64| k != key implies #[trigger] table_get(r, k) == table_get(s, k)
            && (table_has(r, k) == table_has(s, k)) by {
            if table_has(s, k) {
                let v = choose|i: int| 0 <= i < s.len() && s[i].0 == k;
                assert(r[v] == s[v]);
                assert(table_has(r, k));
                let v2 = choose|i: int| 0 <= i < r.len() && r[i].0 == k;
                if v2 == s.len() as int {
                    assert(r[v2].0 == key);
                }
                assert(r[v2] == s[v2]);
                assert(s[v2].0 == k && s[v].0 == k);
            } else {
                if table_has(r, k) {
                    let v2 = choose|i: int| 0 <= i < r.len() && r[i].0 == k;
                    if v2 == s.len() as int {
                        assert(r[v2].0 == key);
                    } else {
                        assert(r[v2] == s[v2]);
                        assert(table_has(s, k));
                    }
                }
            }
        }
    }
}

/// Read a dispatch-table entry; the null pointer when none exists.
pub fn dispatch_get(table: &Vec<(u64, u64)>, key: u64) -> (r: u64)
    requires
        table_wf(table@),
    ensures
        r == table_get(table@, key),
{
    let n = table.len();
    let mut i: usize = 0;
    while i < n
        invariant
            table_wf(table@),
            n == table@.len(),
            0 <= i <= n,
            forall|j: int| 0 <= j < i ==> table@[j].0 != key,
        decreases n - i,
    {
        if table[i].0 == key {
            proof {
                assert(table_has(table@, key));
                let w = choose|k: int| 0 <= k < table@.len() && table@[k].0 == key;
                if w != i as int {
                    assert(table@[w].0 == key && table@[i as int].0 == key);
                }
            }
            return table[i].1;
        }
        i = i + 1;
    }
    proof {
        if table_has(table@, key) {
            let w = choose|k: int| 0 <= k < table@.len() && table@[k].0 == key;
            assert(table@[w].0 != key);
        }
    }
    0
}

/// Write a dispatch-table entry in place, appending when absent.
pub fn dispatch_set(table: &mut Vec<(u64, u64)>, key: u64, val: u64)
    requires
        table_wf(old(table)@),
    ensures
        table_wf(final(table)@),
        final(table)@ == table_set(old(table)@, key, val),
{
    let n = table.len();
    let mut i: usize = 0;
    while i < n
        invariant
            table_wf(table@),
            table@ == old(table)@,
            n == table@.len(),
            0 <= i <= n,
            forall|j: int| 0 <= j < i ==> table@[j].0 != key,
        decreases n - i,
    {
        if table[i].0 == key {
            proof {
                assert(table_has(table@, key));
                let w = choose|k: int| 0 <= k < table@.len() && table@[k].0 == key;
                if w != i as int {
                    assert(table@[w].0 == key && table@[i as int].0 == key);
                }
                lemma_table_set(old(table)@, key, val);
            }
            table.set(i, (key, val));
            return ;
        }
        i = i + 1;
    }
    proof {
        if table_has(table@, key) {
            let w = choose|k: int| 0 <= k < table@.len() && table@[k].0 == key;
            assert(table@[w].0 != key);
        }
        lemma_table_set(old(table)@, key, val);
    }
    table.push((key, val));
}

impl AcmdInstance {
    /// The instance's dispatch table is well formed.
    pub open spec fn wf(self) -> bool {
        table_wf(self.functions@)
    }

    /// `p` lies inside the instance's defining module.
    pub open spec fn owns(self, p: u64) -> bool {
        self.module_base <= p < self.module_base + self.module_size
    }

    /// The override targets this instance.
    pub open spec fn matches(self, info: ScriptInfo) -> bool {
        self.hash == info.agent && self.category == info.category
    }

    /// The override targets this instance and the currently-installed
    /// pointer may safely be replaced: it is null, or it still belongs to
    /// the instance's own defining module (a third party's redirection is
    /// never patched over).
    pub open spec fn guard(self, info: ScriptInfo) -> bool {
        self.matches(info) && (table_get(self.functions@, info.script) == 0 || self.owns(
            table_get(self.functions@, info.script),
        ))
    }

    /// All fields of `b` equal those of `a` except the dispatch table,
    /// which has `info` installed.
    pub open spec fn patched_with(self, b: AcmdInstance, info: ScriptInfo) -> bool {
        &&& b.handle == self.handle
        &&& b.hash == self.hash
        &&& b.category == self.category
        &&& b.is_share == self.is_share
        &&& b.module_base == self.module_base
        &&& b.module_size == self.module_size
        &&& b.functions@ == table_set(self.functions@, info.script, info.bind_fn)
    }
}

/// The highest index of a live instance that the retroactive install will
/// actually patch, if any: its pre-patch value is what the caller's backup
/// slot ends up holding.
pub open spec fn last_guarded(s: Seq<AcmdInstance>, info: ScriptInfo) -> Option<int>
    decreases s.len(),
{
    if s.len() == 0 {
        None
    } else if s.last().guard(info) {
        Some(s.len() - 1)
    } else {
        last_guarded(s.drop_last(), info)
    }
}

/// Retroactively install a freshly registered override onto every live
/// matching instance.  Each instance is patched independently; the value
/// observed immediately before each patch is captured into the override's
/// backup field and the caller's backup slot (the last patched instance's
/// value is what remains there).
pub fn install_live_acmd_scripts(
    agents: &mut Vec<AcmdInstance>,
    info: &mut ScriptInfo,
    slots: &mut Slots,
) -> (patched: bool)
    requires
        forall|i: int| 0 <= i < old(agents)@.len() ==> (#[trigger] old(agents)@[i]).wf(),
        old(slots).slot_ok(old(info).original),
    ensures
        final(agents)@.len() == old(agents)@.len(),
        forall|i: int| 0 <= i < final(agents)@.len() ==> (#[trigger] final(agents)@[i]).wf(),
        forall|i: int|
            0 <= i < final(agents)@.len() ==> if (#[trigger] old(agents)@[i]).guard(*old(info)) {
                old(agents)@[i].patched_with(final(agents)@[i], *old(info))
            } else {
                final(agents)@[i] == old(agents)@[i]
            },
        patched == (last_guarded(old(agents)@, *old(info)) is Some),
        match last_guarded(old(agents)@, *old(info)) {
            Some(i) => {
                &&& *final(info) == (ScriptInfo {
                    backup: table_get(old(agents)@[i].functions@, old(info).script),
                    ..*old(info)
                })
                &&& final(slots).values@ == write_opt_spec(
                    old(slots).values@,
                    old(info).original,
                    table_get(old(agents)@[i].functions@, old(info).script),
                )
            },
            None => {
                &&& *final(info) == *old(info)
                &&& final(slots).values@ == old(slots).values@
            },
        },
        final(slots).values@.len() == old(slots).values@.len(),
{
    let ghost info0 = *old(info);
    let n = agents.len();
    let mut i: usize = 0;
    let mut patched = false;
    proof {
        assert(old(agents)@.take(0) =~= Seq::<AcmdInstance>::empty());
    }
    while i < n
        invariant
            n == agents@.len(),
            n == old(agents)@.len(),
            0 <= i <= n,
            info0 == *old(info),
            slots.slot_ok(info0.original),
            slots.values@.len() == old(slots).values@.len(),
            info.agent == info0.agent,
            info.script == info0.script,
            info.category == info0.category,
            info.low_priority == info0.low_priority,
            info.bind_fn == info0.bind_fn,
            info.original == info0.original,
            forall|j: int| i <= j < n ==> agents@[j] == old(agents)@[j],
            forall|j: int| 0 <= j < n ==> (#[trigger] agents@[j]).wf(),
            forall|j: int|
                0 <= j < i ==> if (#[trigger] old(agents)@[j]).guard(info0) {
                    old(agents)@[j].patched_with(agents@[j], info0)
                } else {
                    agents@[j] == old(agents)@[j]
                },
            patched == (last_guarded(old(agents)@.take(i as int), info0) is Some),
            match last_guarded(old(agents)@.take(i as int), info0) {
                Some(w) => {
                    &&& *info == (ScriptInfo {
                        backup: table_get(old(agents)@[w].functions@, info0.script),
                        ..info0
                    })
                    &&& slots.values@ == write_opt_spec(
                        old(slots).values@,
                        info0.original,
                        table_get(old(agents)@[w].functions@, info0.script),
                    )
                },
                None => {
                    &&& *info == info0
                    &&& slots.values@ == old(slots).values@
                },
            },
        decreases n - i,
    {
        proof {
            assert(old(agents)@.take(i + 1).drop_last() =~= old(agents)@.take(i as int));
            assert(old(agents)@.take(i + 1).last() == old(agents)@[i as int]);
        }
        let hit = {
            let inst = &agents[i];
            inst.hash == info.agent && inst.category == info.category
        };
        if hit {
            let current = dispatch_get(&agents[i].functions, info.script);
            let in_own = {
                let inst = &agents[i];
                inst.module_base <= current && current - inst.module_base < inst.module_size
            };
            if current == 0 || in_own {
                proof {
                    assert(old(agents)@[i as int].guard(info0));
                    lemma_table_set(agents@[i as int].functions@, info0.script, info0.bind_fn);
                }
                slots.write_opt(info.original, current);
                info.backup = current;
                let inst = &mut agents[i];
                dispatch_set(&mut inst.functions, info.script, info.bind_fn);
                patched = true;
            } else {
                proof {
                    assert(!old(agents)@[i as int].guard(info0));
                }
            }
        } else {
            proof {
                assert(!old(agents)@[i as int].guard(info0));
            }
        }
        i = i + 1;
    }
    proof {
        assert(old(agents)@.take(n as int) =~= old(agents)@);
    }
    patched
}

/// The instance dispatch table after reverting, for one instance, every
/// registered override of its category and identity whose replacement code
/// lies in `[begin, end)`: each such override's per-instance slot is
/// restored to the recorded backup.
pub open spec fn revert_acmd_fold(
    funcs: Seq<(u64, u64)>,
    records: Seq<ScriptInfo>,
    hash: u64,
    category: Category,
    begin: u64,
    end: u64,
) -> Seq<(u64, u64)>
    decreases records.len(),
{
    if records.len() == 0 {
        funcs
    } else {
        let prev = revert_acmd_fold(funcs, records.drop_last(), hash, category, begin, end);
        let rec = records.last();
        if rec.category == category && rec.agent == hash && crate::in_range(
            rec.bind_fn,
            begin,
            end,
        ) {
            table_set(prev, rec.script, rec.backup)
        } else {
            prev
        }
    }
}

/// Reverting keeps a dispatch table well formed.
pub proof fn lemma_revert_acmd_fold_wf(
    funcs: Seq<(u64, u64)>,
    records: Seq<ScriptInfo>,
    hash: u64,
    category: Category,
    begin: u64,
    end: u64,
)
    requires
        table_wf(funcs),
    ensures
        table_wf(revert_acmd_fold(funcs, records, hash, category, begin, end)),
    decreases records.len(),
{
    if records.len() > 0 {
        lemma_revert_acmd_fold_wf(funcs, records.drop_last(), hash, category, begin, end);
        let prev = revert_acmd_fold(funcs, records.drop_last(), hash, category, begin, end);
        let rec = records.last();
        if rec.category == category && rec.agent == hash && crate::in_range(
            rec.bind_fn,
            begin,
            end,
        ) {
            lemma_table_set(prev, rec.script, rec.backup);
        }
    }
}

/// On unload of the module range `[begin, end)`, restore, on every live
/// instance, the backup of every registered override of that instance's
/// key whose replacement code lies in the range.  Instances are reverted
/// independently; records themselves are not removed here.
pub fn remove_live_acmd_scripts(
    agents: &mut Vec<AcmdInstance>,
    registry: &AcmdRegistry,
    begin: u64,
    end: u64,
)
    requires
        forall|i: int| 0 <= i < old(agents)@.len() ==> (#[trigger] old(agents)@[i]).wf(),
        registry.wf(),
    ensures
        final(agents)@.len() == old(agents)@.len(),
        forall|i: int| 0 <= i < final(agents)@.len() ==> (#[trigger] final(agents)@[i]).wf(),
        forall|i: int|
            0 <= i < final(agents)@.len() ==> {
                &&& (#[trigger] final(agents)@[i]).handle == old(agents)@[i].handle
                &&& final(agents)@[i].hash == old(agents)@[i].hash
                &&& final(agents)@[i].category == old(agents)@[i].category
                &&& final(agents)@[i].is_share == old(agents)@[i].is_share
                &&& final(agents)@[i].module_base == old(agents)@[i].module_base
                &&& final(agents)@[i].module_size == old(agents)@[i].module_size
                &&& final(agents)@[i].functions@ == revert_acmd_fold(
                    old(agents)@[i].functions@,
                    registry.records@,
                    old(agents)@[i].hash,
                    old(agents)@[i].category,
                    begin,
                    end,
                )
            },
{
    let n = agents.len();
    let m = registry.records.len();
    let mut i: usize = 0;
    while i < n
        invariant
            n == agents@.len(),
            n == old(agents)@.len(),
            m == registry.records@.len(),
            registry.wf(),
            0 <= i <= n,
            forall|j: int| i <= j < n ==> agents@[j] == old(agents)@[j],
            forall|j: int| 0 <= j < n ==> (#[trigger] agents@[j]).wf(),
            forall|j: int|
                0 <= j < i ==> {
                    &&& (#[trigger] agents@[j]).handle == old(agents)@[j].handle
                    &&& agents@[j].hash == old(agents)@[j].hash
                    &&& agents@[j].category == old(agents)@[j].category
                    &&& agents@[j].is_share == old(agents)@[j].is_share
                    &&& agents@[j].module_base == old(agents)@[j].module_base
                    &&& agents@[j].module_size == old(agents)@[j].module_size
                    &&& agents@[j].functions@ == revert_acmd_fold(
                        old(agents)@[j].functions@,
                        registry.records@,
                        old(agents)@[j].hash,
                        old(agents)@[j].category,
                        begin,
                        end,
                    )
                },
        decreases n - i,
    {
        let ghost inst0 = agents@[i as int];
        let ghost agents_snap = agents@;
        let inst_hash = agents[i].hash;
        let inst_category = agents[i].category;
        let mut k: usize = 0;
        proof {
            assert(registry.records@.take(0) =~= Seq::<ScriptInfo>::empty());
        }
        while k < m
            invariant
                n == agents@.len(),
                n == agents_snap.len(),
                m == registry.records@.len(),
                registry.wf(),
                0 <= i < n,
                0 <= k <= m,
                inst_hash == inst0.hash,
                inst_category == inst0.category,
                inst0.wf(),
                forall|j: int| 0 <= j < n && j != i ==> agents@[j] == agents_snap[j],
                forall|j: int| 0 <= j < n ==> (#[trigger] agents@[j]).wf(),
                agents@[i as int].handle == inst0.handle,
                agents@[i as int].hash == inst0.hash,
                agents@[i as int].category == inst0.category,
                agents@[i as int].is_share == inst0.is_share,
                agents@[i as int].module_base == inst0.module_base,
                agents@[i as int].module_size == inst0.module_size,
                agents@[i as int].functions@ == revert_acmd_fold(
                    inst0.functions@,
                    registry.records@.take(k as int),
                    inst0.hash,
                    inst0.category,
                    begin,
                    end,
                ),
                table_wf(agents@[i as int].functions@),
            decreases m - k,
        {
            proof {
                assert(registry.records@.take(k + 1).drop_last() =~= registry.records@.take(
                    k as int,
                ));
                assert(registry.records@.take(k + 1).last() == registry.records@[k as int]);
            }
            let rec = registry.records[k];
            if rec.category == inst_category && rec.agent == inst_hash && begin <= rec.bind_fn
                && rec.bind_fn < end {
                proof {
                    lemma_table_set(agents@[i as int].functions@, rec.script, rec.backup);
                }
                let inst = &mut agents[i];
                dispatch_set(&mut inst.functions, rec.script, rec.backup);
            }
            k = k + 1;
        }
        proof {
            assert(registry.records@.take(m as int) =~= registry.records@);
            assert(inst0 == old(agents)@[i as int]);
            assert forall|j: int|
                0 <= j < i + 1 implies {
                &&& (#[trigger] agents@[j]).handle == old(agents)@[j].handle
                &&& agents@[j].hash == old(agents)@[j].hash
                &&& agents@[j].category == old(agents)@[j].category
                &&& agents@[j].is_share == old(agents)@[j].is_share
                &&& agents@[j].module_base == old(agents)@[j].module_base
                &&& agents@[j].module_size == old(agents)@[j].module_size
                &&& agents@[j].functions@ == revert_acmd_fold(
                    old(agents)@[j].functions@,
                    registry.records@,
                    old(agents)@[j].hash,
                    old(agents)@[j].category,
                    begin,
                    end,
                )
            } by {
                if j != i as int {
                    assert(agents@[j] == agents_snap[j]);
                }
            }
        }
        i = i + 1;
    }
}

/// Range purge is total and precise: after reverting one instance's table
/// against a record list with pairwise distinct keys, every script key
/// registered with a replacement inside `[begin, end)` (for this instance's
/// identity and category) reads back its recorded backup, and every other
/// key is untouched.
pub proof fn lemma_revert_fold_char(
    funcs: Seq<(u64, u64)>,
    records: Seq<ScriptInfo>,
    hash: u64,
    category: Category,
    begin: u64,
    end: u64,
)
    requires
        table_wf(funcs),
        forall|i: int, j: int|
            0 <= i < j < records.len() ==> !crate::acmd::same_key(records[i], records[j]),
    ensures
        forall|k: u64|
            {
                let r = #[trigger] table_get(
                    revert_acmd_fold(funcs, records, hash, category, begin, end),
                    k,
                );
                if exists|j: int|
                    0 <= j < records.len() && applies_to(
                        #[trigger] records[j],
                        hash,
                        category,
                        k,
                        begin,
                        end,
                    ) {
                    r == records[choose|j: int|
                        0 <= j < records.len() && applies_to(
                            records[j],
                            hash,
                            category,
                            k,
                            begin,
                            end,
                        )].backup
                } else {
                    r == table_get(funcs, k)
                }
            },
    decreases records.len(),
{
    if records.len() == 0 {
    } else {
        lemma_revert_fold_char(funcs, records.drop_last(), hash, category, begin, end);
        lemma_revert_acmd_fold_wf(funcs, records.drop_last(), hash, category, begin, end);
        let prev = revert_acmd_fold(funcs, records.drop_last(), hash, category, begin, end);
        let whole = revert_acmd_fold(funcs, records, hash, category, begin, end);
        let x = records.last();
        let n = records.len() - 1;
        if x.category == category && x.agent == hash && crate::in_range(x.bind_fn, begin, end) {
            lemma_table_set(prev, x.script, x.backup);
        }
        assert forall|k: u64|
            {
                let r = #[trigger] table_get(whole, k);
                if exists|j: int|
                    0 <= j < records.len() && applies_to(
                        #[trigger] records[j],
                        hash,
                        category,
                        k,
                        begin,
                        end,
                    ) {
                    r == records[choose|j: int|
                        0 <= j < records.len() && applies_to(
                            records[j],
                            hash,
                            category,
                            k,
                            begin,
                            end,
                        )].backup
                } else {
                    r == table_get(funcs, k)
                }
            } by {
            let applies_last = applies_to(x, hash, category, k, begin, end);
            if applies_last {
                // The last record is the unique applicable one for key k.
                assert(records[n] == x);
                assert(applies_to(records[n], hash, category, k, begin, end));
                let w = choose|j: int|
                    0 <= j < records.len() && applies_to(
                        records[j],
                        hash,
                        category,
                        k,
                        begin,
                        end,
                    );
                if w != n {
                    assert(crate::acmd::same_key(records[w], records[n]));
                }
                // No earlier record applies to k, so prev leaves k at funcs' value
                // only if none applies there either; in any case the final write wins.
                assert(table_get(whole, k) == x.backup);
                assert(records[w] == x);
            } else {
                if exists|j: int|
                    0 <= j < records.drop_last().len() && applies_to(
                        #[trigger] records.drop_last()[j],
                        hash,
                        category,
                        k,
                        begin,
                        end,
                    ) {
                    let w = choose|j: int|
                        0 <= j < records.drop_last().len() && applies_to(
                            records.drop_last()[j],
                            hash,
                            category,
                            k,
                            begin,
                            end,
                        );
                    assert(records[w] == records.drop_last()[w]);
                    assert(applies_to(records[w], hash, category, k, begin, end));
                    assert(table_get(prev, k) == records.drop_last()[w].backup);
                    if x.category == category && x.agent == hash && crate::in_range(
                        x.bind_fn,
                        begin,
                        end,
                    ) {
                        assert(x.script != k);
                        assert(table_get(whole, k) == table_get(prev, k));
                    }
                    let w2 = choose|j: int|
                        0 <= j < records.len() && applies_to(
                            records[j],
                            hash,
                            category,
                            k,
                            begin,
                            end,
                        );
                    if w2 != w {
                        assert(applies_to(records[w2], hash, category, k, begin, end));
                        assert(w2 < n || records[w2] == x);
                        assert(crate::acmd::same_key(
                            records[if w < w2 {
                                w
                            } else {
                                w2
                            }],
                            records[if w < w2 {
                                w2
                            } else {
                                w
                            }],
                        ));
                    }
                } else {
                    assert forall|j: int|
                        0 <= j < records.len() implies !applies_to(
                        #[trigger] records[j],
                        hash,
                        category,
                        k,
                        begin,
                        end,
                    ) by {
                        if j < n {
                            assert(records.drop_last()[j] == records[j]);
                        }
                    }
                    if x.category == category && x.agent == hash && crate::in_range(
                        x.bind_fn,
                        begin,
                        end,
                    ) {
                        assert(x.script != k);
                        assert(table_get(whole, k) == table_get(prev, k));
                    }
                }
            }
        }
    }
}

/// One record is what a purge of `[begin, end)` reverts at key `k` of an
/// instance with the given identity and category.
pub open spec fn applies_to(
    rec: ScriptInfo,
    hash: u64,
    category: Category,
    k: u64,
    begin: u64,
    end: u64,
) -> bool {
    rec.category == category && rec.agent == hash && rec.script == k && crate::in_range(
        rec.bind_fn,
        begin,
        end,
    )
}

/// Round trip: installing an override onto an instance and then purging
/// the range that holds its replacement code restores exactly the backup
/// value the install captured — never another override's value.
pub proof fn lemma_install_purge_round_trip(
    funcs: Seq<(u64, u64)>,
    info: ScriptInfo,
    records: Seq<ScriptInfo>,
    j: int,
    begin: u64,
    end: u64,
)
    requires
        table_wf(funcs),
        forall|i1: int, i2: int|
            0 <= i1 < i2 < records.len() ==> !crate::acmd::same_key(records[i1], records[i2]),
        0 <= j < records.len(),
        records[j] == info,
        crate::in_range(info.bind_fn, begin, end),
    ensures
        table_get(
            revert_acmd_fold(
                table_set(funcs, info.script, info.bind_fn),
                records,
                info.agent,
                info.category,
                begin,
                end,
            ),
            info.script,
        ) == info.backup,
{
    lemma_table_set(funcs, info.script, info.bind_fn);
    lemma_revert_fold_char(
        table_set(funcs, info.script, info.bind_fn),
        records,
        info.agent,
        info.category,
        begin,
        end,
    );
    assert(applies_to(records[j], info.agent, info.category, info.script, begin, end));
    let w = choose|i: int|
        0 <= i < records.len() && applies_to(
            records[i],
            info.agent,
            info.category,
            info.script,
            begin,
            end,
        );
    if w != j {
        assert(crate::acmd::same_key(records[if w < j { w } else { j }], records[if w < j {
            j
        } else {
            w
        }]));
    }
}

/// Purging is idempotent: once the range purge has also dropped the
/// records whose replacement code lies in the range, reverting an instance
/// against the remaining records changes nothing.
pub proof fn lemma_purge_idempotent(
    funcs: Seq<(u64, u64)>,
    records: Seq<ScriptInfo>,
    hash: u64,
    category: Category,
    begin: u64,
    end: u64,
)
    ensures
        revert_acmd_fold(
            funcs,
            crate::acmd::records_outside_range(records, begin, end),
            hash,
            category,
            begin,
            end,
        ) == funcs,
{
    crate::acmd::lemma_outside_range_is_outside(records, begin, end);
    lemma_no_applicable_no_change(
        funcs,
        crate::acmd::records_outside_range(records, begin, end),
        hash,
        category,
        begin,
        end,
    );
}

/// A record list with no replacement inside the range reverts nothing.
pub proof fn lemma_no_applicable_no_change(
    funcs: Seq<(u64, u64)>,
    records: Seq<ScriptInfo>,
    hash: u64,
    category: Category,
    begin: u64,
    end: u64,
)
    requires
        forall|j: int|
            0 <= j < records.len() ==> !crate::in_range(
                (#[trigger] records[j]).bind_fn,
                begin,
                end,
            ),
    ensures
        revert_acmd_fold(funcs, records, hash, category, begin, end) == funcs,
    decreases records.len(),
{
    if records.len() > 0 {
        assert forall|j: int|
            0 <= j < records.drop_last().len() implies !crate::in_range(
            (#[trigger] records.drop_last()[j]).bind_fn,
            begin,
            end,
        ) by {
            assert(records.drop_last()[j] == records[j]);
        }
        lemma_no_applicable_no_change(
            funcs,
            records.drop_last(),
            hash,
            category,
            begin,
            end,
        );
        assert(!crate::in_range(records.last().bind_fn, begin, end));
    }
}

/// A status/condition pair packed into one dispatch key.
pub open spec fn status_key(status: i32, condition: i32) -> u64 {
    (((status as u32) as u64) << 32u64) | ((condition as u32) as u64)
}

/// Packing is injective: two pairs collide only when equal.
pub proof fn lemma_status_key_injective(s1: i32, c1: i32, s2: i32, c2: i32)
    ensures
        status_key(s1, c1) == status_key(s2, c2) ==> s1 == s2 && c1 == c2,
{
    assert(((((s1 as u32) as u64) << 32u64) | ((c1 as u32) as u64)) == ((((s2 as u32) as u64)
        << 32u64) | ((c2 as u32) as u64)) ==> s1 == s2 && c1 == c2) by (bit_vector);
}

/// Compute the packed dispatch key of a status/condition pair.
pub fn make_status_key(status: i32, condition: i32) -> (r: u64)
    ensures
        r == status_key(status, condition),
{
    (((status as u32) as u64) << 32u64) | ((condition as u32) as u64)
}

/// A live conditional-dispatch instance: an opaque host handle, the agent
/// identity it was constructed against, the memory region of its defining
/// module, its recreated vtable, and its own per-key status dispatch table
/// (keyed by the packed status/condition pair).
pub struct StatusInstance {
    pub handle: u64,
    pub hash: u64,
    pub module_base: u64,
    pub module_size: u64,
    pub vtable: Vec<u64>,
    pub statuses: Vec<(u64, u64)>,
}

impl StatusInstance {
    /// The instance's dispatch table is well formed.
    pub open spec fn wf(self) -> bool {
        table_wf(self.statuses@)
    }

    /// `p` lies inside the instance's defining module.
    pub open spec fn owns(self, p: u64) -> bool {
        self.module_base <= p < self.module_base + self.module_size
    }

    /// The override targets this instance: its agent matches, or the
    /// override is a shared one, applied to every instance.
    pub open spec fn st_matches(self, info: StatusInfo, is_common: bool) -> bool {
        self.hash == info.agent || is_common
    }

    /// The override targets this instance and the currently-installed
    /// pointer may safely be replaced: it is null, it belongs to the shared
    /// bootstrap module, or — for a non-shared override — it belongs to the
    /// instance's own defining module.  Foreign redirections are never
    /// patched over.
    pub open spec fn st_guard(
        self,
        info: StatusInfo,
        is_common: bool,
        common_base: u64,
        common_size: u64,
        t: ConstTable,
    ) -> bool {
        let cur = table_get(
            self.statuses@,
            status_key(info.status.value_spec(t), info.condition.value_spec(t)),
        );
        self.st_matches(info, is_common) && (cur == 0 || (common_base <= cur < common_base
            + common_size) || (self.owns(cur) && !is_common))
    }

    /// All fields of `b` equal those of `a` except the status dispatch
    /// table, which has `info` installed at its resolved key.
    pub open spec fn st_patched_with(self, b: StatusInstance, info: StatusInfo, t: ConstTable) -> bool {
        &&& b.handle == self.handle
        &&& b.hash == self.hash
        &&& b.module_base == self.module_base
        &&& b.module_size == self.module_size
        &&& b.vtable@ == self.vtable@
        &&& b.statuses@ == table_set(
            self.statuses@,
            status_key(info.status.value_spec(t), info.condition.value_spec(t)),
            info.replacement,
        )
    }
}

/// The highest index of a live instance the retroactive status install
/// will patch, if any.
pub open spec fn last_st_guarded(
    s: Seq<StatusInstance>,
    info: StatusInfo,
    is_common: bool,
    common_base: u64,
    common_size: u64,
    t: ConstTable,
) -> Option<int>
    decreases s.len(),
{
    if s.len() == 0 {
        None
    } else if s.last().st_guard(info, is_common, common_base, common_size, t) {
        Some(s.len() - 1)
    } else {
        last_st_guarded(s.drop_last(), info, is_common, common_base, common_size, t)
    }
}

/// Retroactively install a freshly registered conditional override onto
/// every live matching instance, capturing each pre-patch value into the
/// override's backup field and the caller's backup slot (the last patched
/// instance's value remains there).
pub fn install_live_status_scripts(
    agents: &mut Vec<StatusInstance>,
    info: &mut StatusInfo,
    is_common: bool,
    common_base: u64,
    common_size: u64,
    consts: &ConstTable,
    slots: &mut Slots,
) -> (patched: bool)
    requires
        consts.wf(),
        old(info).resolvable(*consts),
        forall|i: int| 0 <= i < old(agents)@.len() ==> (#[trigger] old(agents)@[i]).wf(),
        old(slots).slot_ok(old(info).original),
    ensures
        final(agents)@.len() == old(agents)@.len(),
        forall|i: int| 0 <= i < final(agents)@.len() ==> (#[trigger] final(agents)@[i]).wf(),
        forall|i: int|
            0 <= i < final(agents)@.len() ==> if (#[trigger] old(agents)@[i]).st_guard(
                *old(info),
                is_common,
                common_base,
                common_size,
                *consts,
            ) {
                old(agents)@[i].st_patched_with(final(agents)@[i], *old(info), *consts)
            } else {
                final(agents)@[i] == old(agents)@[i]
            },
        patched == (last_st_guarded(
            old(agents)@,
            *old(info),
            is_common,
            common_base,
            common_size,
            *consts,
        ) is Some),
        match last_st_guarded(
            old(agents)@,
            *old(info),
            is_common,
            common_base,
            common_size,
            *consts,
        ) {
            Some(i) => {
                &&& *final(info) == (StatusInfo {
                    backup: table_get(
                        old(agents)@[i].statuses@,
                        status_key(
                            old(info).status.value_spec(*consts),
                            old(info).condition.value_spec(*consts),
                        ),
                    ),
                    ..*old(info)
                })
                &&& final(slots).values@ == write_opt_spec(
                    old(slots).values@,
                    old(info).original,
                    table_get(
                        old(agents)@[i].statuses@,
                        status_key(
                            old(info).status.value_spec(*consts),
                            old(info).condition.value_spec(*consts),
                        ),
                    ),
                )
            },
            None => {
                &&& *final(info) == *old(info)
                &&& final(slots).values@ == old(slots).values@
            },
        },
        final(slots).values@.len() == old(slots).values@.len(),
{
    let ghost info0 = *old(info);
    let sv = info.status.eval(consts);
    let cv = info.condition.eval(consts);
    let key = make_status_key(sv, cv);
    let n = agents.len();
    let mut i: usize = 0;
    let mut patched = false;
    proof {
        assert(old(agents)@.take(0) =~= Seq::<StatusInstance>::empty());
    }
    while i < n
        invariant
            n == agents@.len(),
            n == old(agents)@.len(),
            0 <= i <= n,
            consts.wf(),
            info0 == *old(info),
            info0.resolvable(*consts),
            sv == info0.status.value_spec(*consts),
            cv == info0.condition.value_spec(*consts),
            key == status_key(sv, cv),
            slots.slot_ok(info0.original),
            slots.values@.len() == old(slots).values@.len(),
            info.agent == info0.agent,
            info.status == info0.status,
            info.condition == info0.condition,
            info.low_priority == info0.low_priority,
            info.replacement == info0.replacement,
            info.original == info0.original,
            forall|j: int| i <= j < n ==> agents@[j] == old(agents)@[j],
            forall|j: int| 0 <= j < n ==> (#[trigger] agents@[j]).wf(),
            forall|j: int|
                0 <= j < i ==> if (#[trigger] old(agents)@[j]).st_guard(
                    info0,
                    is_common,
                    common_base,
                    common_size,
                    *consts,
                ) {
                    old(agents)@[j].st_patched_with(agents@[j], info0, *consts)
                } else {
                    agents@[j] == old(agents)@[j]
                },
            patched == (last_st_guarded(
                old(agents)@.take(i as int),
                info0,
                is_common,
                common_base,
                common_size,
                *consts,
            ) is Some),
            match last_st_guarded(
                old(agents)@.take(i as int),
                info0,
                is_common,
                common_base,
                common_size,
                *consts,
            ) {
                Some(w) => {
                    &&& *info == (StatusInfo {
                        backup: table_get(old(agents)@[w].statuses@, key),
                        ..info0
                    })
                    &&& slots.values@ == write_opt_spec(
                        old(slots).values@,
                        info0.original,
                        table_get(old(agents)@[w].statuses@, key),
                    )
                },
                None => {
                    &&& *info == info0
                    &&& slots.values@ == old(slots).values@
                },
            },
        decreases n - i,
    {
        proof {
            assert(old(agents)@.take(i + 1).drop_last() =~= old(agents)@.take(i as int));
            assert(old(agents)@.take(i + 1).last() == old(agents)@[i as int]);
        }
        let hit = {
            let inst = &agents[i];
            inst.hash == info.agent || is_common
        };
        if hit {
            let current = dispatch_get(&agents[i].statuses, key);
            let class = {
                let inst = &agents[i];
                crate::nx::classify_pointer(
                    current,
                    inst.module_base,
                    inst.module_size,
                    common_base,
                    common_size,
                )
            };
            let safe = match class {
                crate::nx::PointerClass::Unpatched => true,
                crate::nx::PointerClass::SharedBootstrapCode => true,
                crate::nx::PointerClass::OwningModuleCode => !is_common,
                crate::nx::PointerClass::ForeignCode => false,
            };
            if safe {
                proof {
                    assert(old(agents)@[i as int].st_guard(
                        info0,
                        is_common,
                        common_base,
                        common_size,
                        *consts,
                    ));
                    lemma_table_set(agents@[i as int].statuses@, key, info0.replacement);
                }
                slots.write_opt(info.original, current);
                info.backup = current;
                let inst = &mut agents[i];
                dispatch_set(&mut inst.statuses, key, info.replacement);
                patched = true;
            } else {
                proof {
                    assert(!old(agents)@[i as int].st_guard(
                        info0,
                        is_common,
                        common_base,
                        common_size,
                        *consts,
                    ));
                }
            }
        } else {
            proof {
                assert(!old(agents)@[i as int].st_guard(
                    info0,
                    is_common,
                    common_base,
                    common_size,
                    *consts,
                ));
            }
        }
        i = i + 1;
    }
    proof {
        assert(old(agents)@.take(n as int) =~= old(agents)@);
    }
    patched
}

/// The status dispatch table after reverting every record of `records`
/// whose replacement code lies in `[begin, end)` and — when `use_agent`
/// holds — whose agent matches `hash`.
pub open spec fn revert_status_fold(
    statuses: Seq<(u64, u64)>,
    records: Seq<StatusInfo>,
    hash: u64,
    use_agent: bool,
    begin: u64,
    end: u64,
    t: ConstTable,
) -> Seq<(u64, u64)>
    decreases records.len(),
{
    if records.len() == 0 {
        statuses
    } else {
        let prev = revert_status_fold(statuses, records.drop_last(), hash, use_agent, begin, end, t);
        let rec = records.last();
        if (!use_agent || rec.agent == hash) && crate::in_range(rec.replacement, begin, end) {
            table_set(
                prev,
                status_key(rec.status.value_spec(t), rec.condition.value_spec(t)),
                rec.backup,
            )
        } else {
            prev
        }
    }
}

/// Reverting keeps a status dispatch table well formed.
pub proof fn lemma_revert_status_fold_wf(
    statuses: Seq<(u64, u64)>,
    records: Seq<StatusInfo>,
    hash: u64,
    use_agent: bool,
    begin: u64,
    end: u64,
    t: ConstTable,
)
    requires
        table_wf(statuses),
    ensures
        table_wf(revert_status_fold(statuses, records, hash, use_agent, begin, end, t)),
    decreases records.len(),
{
    if records.len() > 0 {
        lemma_revert_status_fold_wf(statuses, records.drop_last(), hash, use_agent, begin, end, t);
        let prev = revert_status_fold(statuses, records.drop_last(), hash, use_agent, begin, end, t);
        let rec = records.last();
        if (!use_agent || rec.agent == hash) && crate::in_range(rec.replacement, begin, end) {
            lemma_table_set(
                prev,
                status_key(rec.status.value_spec(t), rec.condition.value_spec(t)),
                rec.backup,
            );
        }
    }
}

/// Revert one instance's status table against one record list.
fn revert_status_list(
    inst_statuses: &mut Vec<(u64, u64)>,
    records: &Vec<StatusInfo>,
    hash: u64,
    use_agent: bool,
    begin: u64,
    end: u64,
    consts: &ConstTable,
)
    requires
        table_wf(old(inst_statuses)@),
        consts.wf(),
        crate::status::all_resolvable(records@, *consts),
    ensures
        table_wf(final(inst_statuses)@),
        final(inst_statuses)@ == revert_status_fold(
            old(inst_statuses)@,
            records@,
            hash,
            use_agent,
            begin,
            end,
            *consts,
        ),
{
    let m = records.len();
    let mut k: usize = 0;
    proof {
        assert(records@.take(0) =~= Seq::<StatusInfo>::empty());
    }
    while k < m
        invariant
            m == records@.len(),
            consts.wf(),
            crate::status::all_resolvable(records@, *consts),
            0 <= k <= m,
            table_wf(inst_statuses@),
            inst_statuses@ == revert_status_fold(
                old(inst_statuses)@,
                records@.take(k as int),
                hash,
                use_agent,
                begin,
                end,
                *consts,
            ),
        decreases m - k,
    {
        proof {
            assert(records@.take(k + 1).drop_last() =~= records@.take(k as int));
            assert(records@.take(k + 1).last() == records@[k as int]);
        }
        let rec = records[k];
        let applicable = (!use_agent || rec.agent == hash) && begin <= rec.replacement
            && rec.replacement < end;
        if applicable {
            let sv = rec.status.eval(consts);
            let cv = rec.condition.eval(consts);
            let key = make_status_key(sv, cv);
            proof {
                lemma_table_set(inst_statuses@, key, rec.backup);
            }
            dispatch_set(inst_statuses, key, rec.backup);
        }
        k = k + 1;
    }
    proof {
        assert(records@.take(m as int) =~= records@);
    }
}

/// On unload of the module range `[begin, end)`, restore backups on every
/// live instance: first for the per-agent records of the instance's own
/// identity, then for every shared record, wherever the installed
/// replacement lies in the range.  Records themselves are not removed here.
pub fn remove_live_status_scripts(
    agents: &mut Vec<StatusInstance>,
    registry: &StatusRegistry,
    begin: u64,
    end: u64,
    consts: &ConstTable,
)
    requires
        forall|i: int| 0 <= i < old(agents)@.len() ==> (#[trigger] old(agents)@[i]).wf(),
        consts.wf(),
        crate::status::all_resolvable(registry.records@, *consts),
        crate::status::all_resolvable(registry.common@, *consts),
    ensures
        final(agents)@.len() == old(agents)@.len(),
        forall|i: int| 0 <= i < final(agents)@.len() ==> (#[trigger] final(agents)@[i]).wf(),
        forall|i: int|
            0 <= i < final(agents)@.len() ==> {
                &&& (#[trigger] final(agents)@[i]).handle == old(agents)@[i].handle
                &&& final(agents)@[i].hash == old(agents)@[i].hash
                &&& final(agents)@[i].module_base == old(agents)@[i].module_base
                &&& final(agents)@[i].module_size == old(agents)@[i].module_size
                &&& final(agents)@[i].vtable@ == old(agents)@[i].vtable@
                &&& final(agents)@[i].statuses@ == revert_status_fold(
                    revert_status_fold(
                        old(agents)@[i].statuses@,
                        registry.records@,
                        old(agents)@[i].hash,
                        true,
                        begin,
                        end,
                        *consts,
                    ),
                    registry.common@,
                    old(agents)@[i].hash,
                    false,
                    begin,
                    end,
                    *consts,
                )
            },
{
    let n = agents.len();
    let mut i: usize = 0;
    while i < n
        invariant
            n == agents@.len(),
            n == old(agents)@.len(),
            consts.wf(),
            crate::status::all_resolvable(registry.records@, *consts),
            crate::status::all_resolvable(registry.common@, *consts),
            0 <= i <= n,
            forall|j: int| i <= j < n ==> agents@[j] == old(agents)@[j],
            forall|j: int| 0 <= j < n ==> (#[trigger] agents@[j]).wf(),
            forall|j: int|
                0 <= j < i ==> {
                    &&& (#[trigger] agents@[j]).handle == old(agents)@[j].handle
                    &&& agents@[j].hash == old(agents)@[j].hash
                    &&& agents@[j].module_base == old(agents)@[j].module_base
                    &&& agents@[j].module_size == old(agents)@[j].module_size
                    &&& agents@[j].vtable@ == old(agents)@[j].vtable@
                    &&& agents@[j].statuses@ == revert_status_fold(
                        revert_status_fold(
                            old(agents)@[j].statuses@,
                            registry.records@,
                            old(agents)@[j].hash,
                            true,
                            begin,
                            end,
                            *consts,
                        ),
                        registry.common@,
                        old(agents)@[j].hash,
                        false,
                        begin,
                        end,
                        *consts,
                    )
                },
        decreases n - i,
    {
        let ghost inst0 = agents@[i as int];
        let ghost agents_snap = agents@;
        let inst_hash = agents[i].hash;
        {
            let inst = &mut agents[i];
            revert_status_list(&mut inst.statuses, &registry.records, inst_hash, true, begin, end, consts);
            revert_status_list(&mut inst.statuses, &registry.common, inst_hash, false, begin, end, consts);
        }
        proof {
            assert(inst0 == old(agents)@[i as int]);
            assert forall|j: int|
                0 <= j < i + 1 implies {
                &&& (#[trigger] agents@[j]).handle == old(agents)@[j].handle
                &&& agents@[j].hash == old(agents)@[j].hash
                &&& agents@[j].module_base == old(agents)@[j].module_base
                &&& agents@[j].module_size == old(agents)@[j].module_size
                &&& agents@[j].vtable@ == old(agents)@[j].vtable@
                &&& agents@[j].statuses@ == revert_status_fold(
                    revert_status_fold(
                        old(agents)@[j].statuses@,
                        registry.records@,
                        old(agents)@[j].hash,
                        true,
                        begin,
                        end,
                        *consts,
                    ),
                    registry.common@,
                    old(agents)@[j].hash,
                    false,
                    begin,
                    end,
                    *consts,
                )
            } by {
                if j != i as int {
                    assert(agents@[j] == agents_snap[j]);
                }
            }
            assert forall|j: int| 0 <= j < n implies (#[trigger] agents@[j]).wf() by {
                if j != i as int {
                    assert(agents@[j] == agents_snap[j]);
                }
            }
        }
        i = i + 1;
    }
}

/// Copy a byte string into an owned vector.
pub fn copy_bytes(v: &[u8]) -> (r: Vec<u8>)
    ensures
        r@ == v@,
{
    let n = v.len();
    let mut r: Vec<u8> = Vec::new();
    let mut i: usize = 0;
    while i < n
        invariant
            n == v@.len(),
            0 <= i <= n,
            r@ == v@.take(i as int),
        decreases n - i,
    {
        proof {
            assert(v@.take(i + 1).drop_last() =~= v@.take(i as int));
            assert(v@.take(i + 1).last() == v@[i as int]);
            assert(v@.take(i + 1) =~= v@.take(i as int).push(v@[i as int]));
        }
        r.push(v[i]);
        i = i + 1;
    }
    proof {
        assert(v@.take(n as int) =~= v@);
    }
    r
}

/// Rebuild a constructed instance's vtable so its teardown and status-setup
/// entries dispatch through the tracker: the original destructor, deleting
/// destructor, and status-setup entries are stashed at the tail together
/// with the owning agent's identity, and their original slots are pointed
/// at the given redirections.
pub fn recreate_status_vtable(
    vtable: &Vec<u64>,
    hash: u64,
    dtor_redirect: u64,
    del_dtor_redirect: u64,
    set_redirect: u64,
) -> (r: Vec<u64>)
    requires
        vtable@.len() >= 15,
    ensures
        r@.len() == 19,
        r@[0] == dtor_redirect,
        r@[1] == del_dtor_redirect,
        r@[9] == set_redirect,
        forall|k: int| 2 <= k < 15 && k != 9 ==> r@[k] == vtable@[k],
        r@[STATUS_DTOR as int] == vtable@[0],
        r@[STATUS_DEL_DTOR as int] == vtable@[1],
        r@[STATUS_SET as int] == vtable@[9],
        r@[STATUS_AGENT_HASH as int] == hash,
{
    let mut r: Vec<u64> = Vec::new();
    let mut i: usize = 0;
    while i < 15
        invariant
            vtable@.len() >= 15,
            0 <= i <= 15,
            r@.len() == i,
            forall|k: int| 0 <= k < i ==> r@[k] == vtable@[k],
        decreases 15 - i,
    {
        r.push(vtable[i]);
        i = i + 1;
    }
    r.push(vtable[0]);
    r.push(vtable[1]);
    r.push(vtable[9]);
    r.push(hash);
    r.set(0, dtor_redirect);
    r.set(1, del_dtor_redirect);
    r.set(9, set_redirect);
    r
}

/// One tracked construction entry point: the module that exports it, its
/// category and whether it is the shared variant, the original
/// constructor's address, and the finite set of identities that constructor
/// can ever produce, recovered from its machine code.
pub struct CreateAgentInfo {
    pub module: Vec<u8>,
    pub category: Category,
    pub is_share: bool,
    pub original: u64,
    pub hashes: Vec<u64>,
}

/// One tracked conditional-dispatch construction entry point.
pub struct StatusCreateAgentInfo {
    pub module: Vec<u8>,
    pub original: u64,
    pub hashes: Vec<u64>,
}

/// `hashes` contains `h`.
pub open spec fn hash_listed(hashes: Seq<u64>, h: u64) -> bool {
    exists|i: int| 0 <= i < hashes.len() && hashes[i] == h
}

/// Whether `h` is listed by the given byte string.
pub fn hashes_contain(hashes: &Vec<u64>, h: u64) -> (r: bool)
    ensures
        r == hash_listed(hashes@, h),
{
    let n = hashes.len();
    let mut i: usize = 0;
    while i < n
        invariant
            n == hashes@.len(),
            0 <= i <= n,
            forall|j: int| 0 <= j < i ==> hashes@[j] != h,
        decreases n - i,
    {
        if hashes[i] == h {
            return true;
        }
        i = i + 1;
    }
    false
}

/// Find the latest tracked construction entry of the given category and
/// sharing kind that can produce `hash`.  The latest wins: a module that
/// unloads and reloads under the same name records a fresh entry, and only
/// the freshest constructor address is still live code.
pub fn find_create_agent(
    entries: &Vec<CreateAgentInfo>,
    category: Category,
    is_share: bool,
    hash: u64,
) -> (r: Option<usize>)
    ensures
        match r {
            Some(i) => i < entries@.len() && entries@[i as int].category == category
                && entries@[i as int].is_share == is_share && hash_listed(
                entries@[i as int].hashes@,
                hash,
            ) && forall|j: int|
                i < j < entries@.len() ==> !((#[trigger] entries@[j]).category == category
                    && entries@[j].is_share == is_share && hash_listed(entries@[j].hashes@, hash)),
            None => forall|j: int|
                0 <= j < entries@.len() ==> !((#[trigger] entries@[j]).category == category
                    && entries@[j].is_share == is_share && hash_listed(entries@[j].hashes@, hash)),
        },
{
    let n = entries.len();
    let mut i: usize = n;
    while i > 0
        invariant
            n == entries@.len(),
            0 <= i <= n,
            forall|j: int|
                i <= j < n ==> !((#[trigger] entries@[j]).category == category
                    && entries@[j].is_share == is_share && hash_listed(entries@[j].hashes@, hash)),
        decreases i,
    {
        i = i - 1;
        if entries[i].category == category && entries[i].is_share == is_share {
            if hashes_contain(&entries[i].hashes, hash) {
                return Some(i);
            }
        }
    }
    None
}

/// The dispatch table and slots after installing, on a freshly constructed
/// instance, every shared script override of its category, in order: the
/// caller's backup slot is nulled (a shared original is per-instance and
/// never callable through a single slot) and the replacement is written.
pub open spec fn acmd_common_install_fold(
    funcs: Seq<(u64, u64)>,
    records: Seq<ScriptInfo>,
    category: Category,
    slots: Seq<u64>,
) -> (Seq<(u64, u64)>, Seq<u64>)
    decreases records.len(),
{
    if records.len() == 0 {
        (funcs, slots)
    } else {
        let prev = acmd_common_install_fold(funcs, records.drop_last(), category, slots);
        let rec = records.last();
        if rec.category == category && rec.agent == crate::status::COMMON_AGENT_HASH {
            (
                table_set(prev.0, rec.script, rec.bind_fn),
                write_opt_spec(prev.1, rec.original, 0),
            )
        } else {
            prev
        }
    }
}

/// The dispatch table, record list and slots after installing, on a freshly
/// constructed instance, every script override registered for its own
/// identity and category, in order: each record's backup field and backup
/// slot capture the value observed immediately before its own write.
pub open spec fn acmd_own_install_fold(
    funcs: Seq<(u64, u64)>,
    records: Seq<ScriptInfo>,
    category: Category,
    hash: u64,
    slots: Seq<u64>,
) -> (Seq<(u64, u64)>, Seq<ScriptInfo>, Seq<u64>)
    decreases records.len(),
{
    if records.len() == 0 {
        (funcs, records, slots)
    } else {
        let prev = acmd_own_install_fold(funcs, records.drop_last(), category, hash, slots);
        let rec = records.last();
        if rec.category == category && rec.agent == hash {
            let og = table_get(prev.0, rec.script);
            (
                table_set(prev.0, rec.script, rec.bind_fn),
                prev.1.push(ScriptInfo { backup: og, ..rec }),
                write_opt_spec(prev.2, rec.original, og),
            )
        } else {
            (prev.0, prev.1.push(rec), prev.2)
        }
    }
}

/// The combined effect of a construction event on the instance's table,
/// the registry and the slots: shared overrides first, then the instance's
/// own.
pub open spec fn acmd_constructed_spec(
    funcs: Seq<(u64, u64)>,
    records: Seq<ScriptInfo>,
    category: Category,
    hash: u64,
    slots: Seq<u64>,
) -> (Seq<(u64, u64)>, Seq<ScriptInfo>, Seq<u64>) {
    let common = acmd_common_install_fold(funcs, records, category, slots);
    acmd_own_install_fold(common.0, records, category, hash, common.1)
}

/// The shared-install fold keeps tables well formed and slot counts fixed.
pub proof fn lemma_acmd_common_install_fold(
    funcs: Seq<(u64, u64)>,
    records: Seq<ScriptInfo>,
    category: Category,
    slots: Seq<u64>,
)
    requires
        table_wf(funcs),
    ensures
        table_wf(acmd_common_install_fold(funcs, records, category, slots).0),
        acmd_common_install_fold(funcs, records, category, slots).1.len() == slots.len(),
    decreases records.len(),
{
    if records.len() > 0 {
        lemma_acmd_common_install_fold(funcs, records.drop_last(), category, slots);
        let prev = acmd_common_install_fold(funcs, records.drop_last(), category, slots);
        let rec = records.last();
        if rec.category == category && rec.agent == crate::status::COMMON_AGENT_HASH {
            lemma_table_set(prev.0, rec.script, rec.bind_fn);
        }
    }
}

/// The own-install fold keeps tables well formed, slot counts fixed, and
/// rewrites each record only in its backup field.
pub proof fn lemma_acmd_own_install_fold(
    funcs: Seq<(u64, u64)>,
    records: Seq<ScriptInfo>,
    category: Category,
    hash: u64,
    slots: Seq<u64>,
)
    requires
        table_wf(funcs),
    ensures
        table_wf(acmd_own_install_fold(funcs, records, category, hash, slots).0),
        acmd_own_install_fold(funcs, records, category, hash, slots).1.len() == records.len(),
        acmd_own_install_fold(funcs, records, category, hash, slots).2.len() == slots.len(),
        forall|j: int|
            0 <= j < records.len() ==> {
                let out = #[trigger] acmd_own_install_fold(funcs, records, category, hash, slots).1[j];
                &&& out.agent == records[j].agent
                &&& out.script == records[j].script
                &&& out.category == records[j].category
                &&& out.low_priority == records[j].low_priority
                &&& out.bind_fn == records[j].bind_fn
                &&& out.original == records[j].original
            },
    decreases records.len(),
{
    if records.len() > 0 {
        lemma_acmd_own_install_fold(funcs, records.drop_last(), category, hash, slots);
        let prev = acmd_own_install_fold(funcs, records.drop_last(), category, hash, slots);
        let rec = records.last();
        if rec.category == category && rec.agent == hash {
            lemma_table_set(prev.0, rec.script, rec.bind_fn);
        }
    }
}

/// Record a freshly constructed instance and apply the registered script
/// overrides onto its own dispatch table: first every shared override of
/// its category (backup slots nulled), then every override registered for
/// its identity (pre-patch values captured into backup fields and slots).
pub fn on_acmd_instance_constructed(
    agents: &mut Vec<AcmdInstance>,
    registry: &mut AcmdRegistry,
    slots: &mut Slots,
    inst: AcmdInstance,
)
    requires
        inst.wf(),
        old(registry).wf(),
        forall|j: int|
            0 <= j < old(registry).records@.len() ==> old(slots).slot_ok(
                (#[trigger] old(registry).records@[j]).original,
            ),
        forall|i: int| 0 <= i < old(agents)@.len() ==> (#[trigger] old(agents)@[i]).wf(),
    ensures
        final(registry).wf(),
        final(slots).values@.len() == old(slots).values@.len(),
        forall|i: int| 0 <= i < final(agents)@.len() ==> (#[trigger] final(agents)@[i]).wf(),
        ({
            let out = acmd_constructed_spec(
                inst.functions@,
                old(registry).records@,
                inst.category,
                inst.hash,
                old(slots).values@,
            );
            &&& final(agents)@.len() == old(agents)@.len() + 1
            &&& final(agents)@.drop_last() == old(agents)@
            &&& final(agents)@.last().handle == inst.handle
            &&& final(agents)@.last().hash == inst.hash
            &&& final(agents)@.last().category == inst.category
            &&& final(agents)@.last().is_share == inst.is_share
            &&& final(agents)@.last().module_base == inst.module_base
            &&& final(agents)@.last().module_size == inst.module_size
            &&& final(agents)@.last().functions@ == out.0
            &&& final(registry).records@ == out.1
            &&& final(slots).values@ == out.2
        }),
{
    let ghost records0 = registry.records@;
    let ghost slots0 = slots.values@;
    let ghost inst0 = inst;
    let mut inst = inst;
    let n = registry.records.len();
    // Shared overrides of this category: null the backup slot, install.
    let mut k: usize = 0;
    proof {
        assert(records0.take(0) =~= Seq::<ScriptInfo>::empty());
    }
    while k < n
        invariant
            n == registry.records@.len(),
            registry.records@ == records0,
            registry.wf(),
            0 <= k <= n,
            inst.wf(),
            inst.handle == inst0.handle,
            inst.hash == inst0.hash,
            inst.category == inst0.category,
            inst.is_share == inst0.is_share,
            inst.module_base == inst0.module_base,
            inst.module_size == inst0.module_size,
            forall|j: int|
                0 <= j < records0.len() ==> slots.slot_ok((#[trigger] records0[j]).original),
            slots.values@.len() == slots0.len(),
            (inst.functions@, slots.values@) == acmd_common_install_fold(
                inst0.functions@,
                records0.take(k as int),
                inst0.category,
                slots0,
            ),
        decreases n - k,
    {
        proof {
            assert(records0.take(k + 1).drop_last() =~= records0.take(k as int));
            assert(records0.take(k + 1).last() == records0[k as int]);
        }
        let rec = registry.records[k];
        if rec.category == inst.category && rec.agent == crate::status::COMMON_AGENT_HASH {
            proof {
                lemma_table_set(inst.functions@, rec.script, rec.bind_fn);
            }
            slots.write_opt(rec.original, 0);
            dispatch_set(&mut inst.functions, rec.script, rec.bind_fn);
        }
        k = k + 1;
    }
    proof {
        assert(records0.take(n as int) =~= records0);
    }
    let ghost funcs1 = inst.functions@;
    let ghost slots1 = slots.values@;
    // The instance's own overrides: capture backups, install.
    let mut k: usize = 0;
    proof {
        assert(records0.take(0) =~= Seq::<ScriptInfo>::empty());
        lemma_acmd_own_install_fold(funcs1, records0.take(0), inst0.category, inst0.hash, slots1);
        assert(registry.records@ =~= acmd_own_install_fold(
            funcs1,
            records0.take(0),
            inst0.category,
            inst0.hash,
            slots1,
        ).1 + records0.skip(0));
    }
    while k < n
        invariant
            n == records0.len(),
            0 <= k <= n,
            inst.wf(),
            inst.handle == inst0.handle,
            inst.hash == inst0.hash,
            inst.category == inst0.category,
            inst.is_share == inst0.is_share,
            inst.module_base == inst0.module_base,
            inst.module_size == inst0.module_size,
            forall|j: int|
                0 <= j < records0.len() ==> slots.slot_ok((#[trigger] records0[j]).original),
            slots.values@.len() == slots0.len(),
            registry.records@ == acmd_own_install_fold(
                funcs1,
                records0.take(k as int),
                inst0.category,
                inst0.hash,
                slots1,
            ).1 + records0.skip(k as int),
            inst.functions@ == acmd_own_install_fold(
                funcs1,
                records0.take(k as int),
                inst0.category,
                inst0.hash,
                slots1,
            ).0,
            slots.values@ == acmd_own_install_fold(
                funcs1,
                records0.take(k as int),
                inst0.category,
                inst0.hash,
                slots1,
            ).2,
            table_wf(funcs1),
            slots1.len() == slots0.len(),
        decreases n - k,
    {
        proof {
            assert(records0.take(k + 1).drop_last() =~= records0.take(k as int));
            assert(records0.take(k + 1).last() == records0[k as int]);
            lemma_acmd_own_install_fold(
                funcs1,
                records0.take(k as int),
                inst0.category,
                inst0.hash,
                slots1,
            );
            assert(acmd_own_install_fold(
                funcs1,
                records0.take(k as int),
                inst0.category,
                inst0.hash,
                slots1,
            ).1.len() == k);
            assert(registry.records@[k as int] == records0.skip(k as int)[0]);
            assert(records0.skip(k as int)[0] == records0[k as int]);
        }
        let rec = registry.records[k];
        if rec.category == inst.category && rec.agent == inst.hash {
            let og = dispatch_get(&inst.functions, rec.script);
            proof {
                lemma_table_set(inst.functions@, rec.script, rec.bind_fn);
            }
            slots.write_opt(rec.original, og);
            let updated = ScriptInfo {
                agent: rec.agent,
                script: rec.script,
                category: rec.category,
                low_priority: rec.low_priority,
                bind_fn: rec.bind_fn,
                original: rec.original,
                backup: og,
            };
            registry.records.set(k, updated);
            dispatch_set(&mut inst.functions, rec.script, rec.bind_fn);
            proof {
                assert(updated == (ScriptInfo { backup: og, ..records0[k as int] }));
            }
        }
        proof {
            let prev = acmd_own_install_fold(
                funcs1,
                records0.take(k as int),
                inst0.category,
                inst0.hash,
                slots1,
            );
            let cur = acmd_own_install_fold(
                funcs1,
                records0.take(k + 1),
                inst0.category,
                inst0.hash,
                slots1,
            );
            assert(registry.records@ =~= cur.1 + records0.skip(k + 1));
        }
        k = k + 1;
    }
    proof {
        assert(records0.take(n as int) =~= records0);
        assert(records0.skip(n as int) =~= Seq::<ScriptInfo>::empty());
        assert(registry.records@ =~= acmd_own_install_fold(
            funcs1,
            records0,
            inst0.category,
            inst0.hash,
            slots1,
        ).1);
        lemma_acmd_own_install_fold(funcs1, records0, inst0.category, inst0.hash, slots1);
        assert forall|i1: int, i2: int|
            0 <= i1 < i2 < registry.records@.len() implies !crate::acmd::same_key(
            registry.records@[i1],
            registry.records@[i2],
        ) by {
            assert(!crate::acmd::same_key(records0[i1], records0[i2]));
        }
    }
    agents.push(inst);
    proof {
        assert(final(agents)@.drop_last() =~= old(agents)@);
        assert forall|i: int| 0 <= i < agents@.len() implies (#[trigger] agents@[i]).wf() by {
            if i < agents@.len() - 1 {
                assert(agents@[i] == old(agents)@[i]);
            }
        }
    }
}

/// The status dispatch table, record list and slots after installing a
/// record list onto one instance, in order.  A record applies when its
/// agent matches (if `use_agent`) and its status value is not the sentinel
/// `none_value` (if `skip_none`); each applied record's backup field and
/// backup slot capture the value observed immediately before its write.
pub open spec fn status_install_fold(
    statuses: Seq<(u64, u64)>,
    records: Seq<StatusInfo>,
    use_agent: bool,
    hash: u64,
    skip_none: bool,
    none_value: i32,
    t: ConstTable,
    slots: Seq<u64>,
) -> (Seq<(u64, u64)>, Seq<StatusInfo>, Seq<u64>)
    decreases records.len(),
{
    if records.len() == 0 {
        (statuses, records, slots)
    } else {
        let prev = status_install_fold(
            statuses,
            records.drop_last(),
            use_agent,
            hash,
            skip_none,
            none_value,
            t,
            slots,
        );
        let rec = records.last();
        if (!use_agent || rec.agent == hash) && (!skip_none || rec.status.value_spec(t)
            != none_value) {
            let key = status_key(rec.status.value_spec(t), rec.condition.value_spec(t));
            let og = table_get(prev.0, key);
            (
                table_set(prev.0, key, rec.replacement),
                prev.1.push(StatusInfo { backup: og, ..rec }),
                write_opt_spec(prev.2, rec.original, og),
            )
        } else {
            (prev.0, prev.1.push(rec), prev.2)
        }
    }
}

/// The install fold keeps tables well formed, slot counts fixed, and
/// rewrites each record only in its backup field.
pub proof fn lemma_status_install_fold(
    statuses: Seq<(u64, u64)>,
    records: Seq<StatusInfo>,
    use_agent: bool,
    hash: u64,
    skip_none: bool,
    none_value: i32,
    t: ConstTable,
    slots: Seq<u64>,
)
    requires
        table_wf(statuses),
    ensures
        table_wf(
            status_install_fold(
                statuses,
                records,
                use_agent,
                hash,
                skip_none,
                none_value,
                t,
                slots,
            ).0,
        ),
        status_install_fold(
            statuses,
            records,
            use_agent,
            hash,
            skip_none,
            none_value,
            t,
            slots,
        ).1.len() == records.len(),
        status_install_fold(
            statuses,
            records,
            use_agent,
            hash,
            skip_none,
            none_value,
            t,
            slots,
        ).2.len() == slots.len(),
        forall|j: int|
            0 <= j < records.len() ==> {
                let out = #[trigger] status_install_fold(
                    statuses,
                    records,
                    use_agent,
                    hash,
                    skip_none,
                    none_value,
                    t,
                    slots,
                ).1[j];
                &&& out.agent == records[j].agent
                &&& out.status == records[j].status
                &&& out.condition == records[j].condition
                &&& out.low_priority == records[j].low_priority
                &&& out.replacement == records[j].replacement
                &&& out.original == records[j].original
            },
    decreases records.len(),
{
    if records.len() > 0 {
        lemma_status_install_fold(
            statuses,
            records.drop_last(),
            use_agent,
            hash,
            skip_none,
            none_value,
            t,
            slots,
        );
        let prev = status_install_fold(
            statuses,
            records.drop_last(),
            use_agent,
            hash,
            skip_none,
            none_value,
            t,
            slots,
        );
        let rec = records.last();
        if (!use_agent || rec.agent == hash) && (!skip_none || rec.status.value_spec(t)
            != none_value) {
            let key = status_key(rec.status.value_spec(t), rec.condition.value_spec(t));
            lemma_table_set(prev.0, key, rec.replacement);
        }
    }
}

/// Install a record list onto one instance's status table, capturing
/// backups into the records and the callers' slots.
fn status_install_list(
    records: &mut Vec<StatusInfo>,
    statuses: &mut Vec<(u64, u64)>,
    use_agent: bool,
    hash: u64,
    skip_none: bool,
    none_value: i32,
    consts: &ConstTable,
    slots: &mut Slots,
)
    requires
        consts.wf(),
        table_wf(old(statuses)@),
        crate::status::all_resolvable(old(records)@, *consts),
        forall|j: int|
            0 <= j < old(records)@.len() ==> old(slots).slot_ok(
                (#[trigger] old(records)@[j]).original,
            ),
    ensures
        table_wf(final(statuses)@),
        final(slots).values@.len() == old(slots).values@.len(),
        (final(statuses)@, final(records)@, final(slots).values@) == status_install_fold(
            old(statuses)@,
            old(records)@,
            use_agent,
            hash,
            skip_none,
            none_value,
            *consts,
            old(slots).values@,
        ),
{
    let ghost records0 = records@;
    let ghost statuses0 = statuses@;
    let ghost slots0 = slots.values@;
    let n = records.len();
    let mut k: usize = 0;
    proof {
        assert(records0.take(0) =~= Seq::<StatusInfo>::empty());
        assert(records@ =~= status_install_fold(
            statuses0,
            records0.take(0),
            use_agent,
            hash,
            skip_none,
            none_value,
            *consts,
            slots0,
        ).1 + records0.skip(0));
    }
    while k < n
        invariant
            n == records0.len(),
            0 <= k <= n,
            consts.wf(),
            table_wf(statuses@),
            table_wf(statuses0),
            crate::status::all_resolvable(records0, *consts),
            forall|j: int|
                0 <= j < records0.len() ==> slots.slot_ok((#[trigger] records0[j]).original),
            slots.values@.len() == slots0.len(),
            records@ == status_install_fold(
                statuses0,
                records0.take(k as int),
                use_agent,
                hash,
                skip_none,
                none_value,
                *consts,
                slots0,
            ).1 + records0.skip(k as int),
            statuses@ == status_install_fold(
                statuses0,
                records0.take(k as int),
                use_agent,
                hash,
                skip_none,
                none_value,
                *consts,
                slots0,
            ).0,
            slots.values@ == status_install_fold(
                statuses0,
                records0.take(k as int),
                use_agent,
                hash,
                skip_none,
                none_value,
                *consts,
                slots0,
            ).2,
        decreases n - k,
    {
        proof {
            assert(records0.take(k + 1).drop_last() =~= records0.take(k as int));
            assert(records0.take(k + 1).last() == records0[k as int]);
            lemma_status_install_fold(
                statuses0,
                records0.take(k as int),
                use_agent,
                hash,
                skip_none,
                none_value,
                *consts,
                slots0,
            );
            assert(records@[k as int] == records0.skip(k as int)[0]);
            assert(records0.skip(k as int)[0] == records0[k as int]);
        }
        let rec = records[k];
        let applies = {
            if use_agent && rec.agent != hash {
                false
            } else if skip_none {
                let sv = rec.status.eval(consts);
                sv != none_value
            } else {
                true
            }
        };
        if applies {
            let sv = rec.status.eval(consts);
            let cv = rec.condition.eval(consts);
            let key = make_status_key(sv, cv);
            let og = dispatch_get(statuses, key);
            proof {
                lemma_table_set(statuses@, key, rec.replacement);
            }
            slots.write_opt(rec.original, og);
            let updated = StatusInfo {
                agent: rec.agent,
                status: rec.status,
                condition: rec.condition,
                low_priority: rec.low_priority,
                replacement: rec.replacement,
                original: rec.original,
                backup: og,
            };
            records.set(k, updated);
            dispatch_set(statuses, key, rec.replacement);
            proof {
                assert(updated == (StatusInfo { backup: og, ..records0[k as int] }));
            }
        }
        proof {
            let cur = status_install_fold(
                statuses0,
                records0.take(k + 1),
                use_agent,
                hash,
                skip_none,
                none_value,
                *consts,
                slots0,
            );
            assert(records@ =~= cur.1 + records0.skip(k + 1));
        }
        k = k + 1;
    }
    proof {
        assert(records0.take(n as int) =~= records0);
        assert(records0.skip(n as int) =~= Seq::<StatusInfo>::empty());
        assert(records@ =~= status_install_fold(
            statuses0,
            records0,
            use_agent,
            hash,
            skip_none,
            none_value,
            *consts,
            slots0,
        ).1);
    }
}

/// Apply every conditional override registered for one instance's identity
/// onto the instance, as the redirected status-setup entry does after the
/// original setup ran: the agent identity is read back from the recreated
/// vtable.  Requires a finalized registry.
pub fn set_status_scripts(
    inst: &mut StatusInstance,
    registry: &mut StatusRegistry,
    slots: &mut Slots,
)
    requires
        old(inst).wf(),
        old(inst).vtable@.len() == 19,
        old(registry).wf(),
        old(registry).consts is Some,
        forall|j: int|
            0 <= j < old(registry).records@.len() ==> old(slots).slot_ok(
                (#[trigger] old(registry).records@[j]).original,
            ),
    ensures
        final(inst).wf(),
        final(inst).handle == old(inst).handle,
        final(inst).hash == old(inst).hash,
        final(inst).module_base == old(inst).module_base,
        final(inst).module_size == old(inst).module_size,
        final(inst).vtable@ == old(inst).vtable@,
        final(registry).wf(),
        final(registry).consts == old(registry).consts,
        final(registry).common@ == old(registry).common@,
        final(slots).values@.len() == old(slots).values@.len(),
        match old(registry).consts {
            Some(t) => (final(inst).statuses@, final(registry).records@, final(slots).values@)
                == status_install_fold(
                old(inst).statuses@,
                old(registry).records@,
                true,
                old(inst).vtable@[STATUS_AGENT_HASH as int],
                false,
                0,
                t,
                old(slots).values@,
            ),
            None => true,
        },
{
    let agent_hash = inst.vtable[STATUS_AGENT_HASH];
    match &registry.consts {
        Some(t) => {
            proof {
                assert(old(registry).consts == Some(*t));
            }
            status_install_list(
                &mut registry.records,
                &mut inst.statuses,
                true,
                agent_hash,
                false,
                0,
                t,
                slots,
            );
            proof {
                lemma_status_install_fold(
                    old(inst).statuses@,
                    old(registry).records@,
                    true,
                    agent_hash,
                    false,
                    0,
                    *t,
                    old(slots).values@,
                );
                assert forall|i1: int, i2: int|
                    0 <= i1 < i2 < registry.records@.len() implies !crate::status::eq_key(
                    registry.records@[i1],
                    registry.records@[i2],
                    *t,
                ) by {
                    assert(!crate::status::eq_key(
                        old(registry).records@[i1],
                        old(registry).records@[i2],
                        *t,
                    ));
                }
                assert forall|i1: int|
                    0 <= i1 < registry.records@.len() implies (#[trigger] registry.records@[i1]).resolvable(
                    *t,
                ) by {
                    assert(old(registry).records@[i1].resolvable(*t));
                }
            }
        },
        None => {
            // unreachable: the registry is finalized per the precondition
        },
    }
}

/// Apply every shared conditional override whose status key is not the
/// "none" sentinel onto one instance, as the redirected shared-table setup
/// does after the original ran.  Requires a finalized registry.
pub fn apply_common_status_scripts(
    inst: &mut StatusInstance,
    registry: &mut StatusRegistry,
    none_value: i32,
    slots: &mut Slots,
)
    requires
        old(inst).wf(),
        old(registry).wf(),
        old(registry).consts is Some,
        forall|j: int|
            0 <= j < old(registry).common@.len() ==> old(slots).slot_ok(
                (#[trigger] old(registry).common@[j]).original,
            ),
    ensures
        final(inst).wf(),
        final(inst).handle == old(inst).handle,
        final(inst).hash == old(inst).hash,
        final(inst).module_base == old(inst).module_base,
        final(inst).module_size == old(inst).module_size,
        final(inst).vtable@ == old(inst).vtable@,
        final(registry).wf(),
        final(registry).consts == old(registry).consts,
        final(registry).records@ == old(registry).records@,
        final(slots).values@.len() == old(slots).values@.len(),
        match old(registry).consts {
            Some(t) => (final(inst).statuses@, final(registry).common@, final(slots).values@)
                == status_install_fold(
                old(inst).statuses@,
                old(registry).common@,
                false,
                0,
                true,
                none_value,
                t,
                old(slots).values@,
            ),
            None => true,
        },
{
    match &registry.consts {
        Some(t) => {
            proof {
                assert(old(registry).consts == Some(*t));
            }
            status_install_list(
                &mut registry.common,
                &mut inst.statuses,
                false,
                0,
                true,
                none_value,
                t,
                slots,
            );
            proof {
                lemma_status_install_fold(
                    old(inst).statuses@,
                    old(registry).common@,
                    false,
                    0,
                    true,
                    none_value,
                    *t,
                    old(slots).values@,
                );
                assert forall|i1: int, i2: int|
                    0 <= i1 < i2 < registry.common@.len() implies !crate::status::eq_key(
                    registry.common@[i1],
                    registry.common@[i2],
                    *t,
                ) by {
                    assert(!crate::status::eq_key(
                        old(registry).common@[i1],
                        old(registry).common@[i2],
                        *t,
                    ));
                }
                assert forall|i1: int|
                    0 <= i1 < registry.common@.len() implies (#[trigger] registry.common@[i1]).resolvable(
                    *t,
                ) by {
                    assert(old(registry).common@[i1].resolvable(*t));
                }
            }
        },
        None => {
            // unreachable: the registry is finalized per the precondition
        },
    }
}

/// Find the latest tracked conditional construction entry that can produce
/// `hash` — the latest for the same reason as [`find_create_agent`]: after
/// an unload-and-reload only the freshest entry's constructor is live.
pub fn find_status_create_agent(entries: &Vec<StatusCreateAgentInfo>, hash: u64) -> (r: Option<
    usize,
>)
    ensures
        match r {
            Some(i) => i < entries@.len() && hash_listed(entries@[i as int].hashes@, hash)
                && forall|j: int|
                i < j < entries@.len() ==> !hash_listed((#[trigger] entries@[j]).hashes@, hash),
            None => forall|j: int|
                0 <= j < entries@.len() ==> !hash_listed((#[trigger] entries@[j]).hashes@, hash),
        },
{
    let n = entries.len();
    let mut i: usize = n;
    while i > 0
        invariant
            n == entries@.len(),
            0 <= i <= n,
            forall|j: int| i <= j < n ==> !hash_listed((#[trigger] entries@[j]).hashes@, hash),
        decreases i,
    {
        i = i - 1;
        if hashes_contain(&entries[i].hashes, hash) {
            return Some(i);
        }
    }
    None
}

/// One conditional record is applicable to a purge of `[begin, end)` on an
/// instance with the given identity (or on every instance, for the shared
/// pass).
pub open spec fn st_applicable(
    rec: StatusInfo,
    hash: u64,
    use_agent: bool,
    begin: u64,
    end: u64,
) -> bool {
    (!use_agent || rec.agent == hash) && crate::in_range(rec.replacement, begin, end)
}

/// A finalized registry's per-agent records satisfy the purge
/// characterization's hypothesis: records with pairwise distinct resolved
/// identity + condition keys that target one agent pack to pairwise
/// distinct dispatch keys.
pub proof fn lemma_distinct_keys_pack_distinct(
    records: Seq<StatusInfo>,
    hash: u64,
    begin: u64,
    end: u64,
    t: ConstTable,
)
    requires
        crate::status::distinct_keys(records, t),
    ensures
        forall|i: int, j: int|
            0 <= i < j < records.len() && st_applicable(records[i], hash, true, begin, end)
                && st_applicable(records[j], hash, true, begin, end) ==> status_key(
                (#[trigger] records[i]).status.value_spec(t),
                records[i].condition.value_spec(t),
            ) != status_key(
                (#[trigger] records[j]).status.value_spec(t),
                records[j].condition.value_spec(t),
            ),
{
    assert forall|i: int, j: int|
        0 <= i < j < records.len() && st_applicable(records[i], hash, true, begin, end)
            && st_applicable(records[j], hash, true, begin, end) implies status_key(
        (#[trigger] records[i]).status.value_spec(t),
        records[i].condition.value_spec(t),
    ) != status_key(
        (#[trigger] records[j]).status.value_spec(t),
        records[j].condition.value_spec(t),
    ) by {
        assert(!crate::status::eq_key(records[i], records[j], t));
        assert(records[i].agent == hash && records[j].agent == hash);
        lemma_status_key_injective(
            records[i].status.value_spec(t),
            records[i].condition.value_spec(t),
            records[j].status.value_spec(t),
            records[j].condition.value_spec(t),
        );
    }
}

/// Range purge of conditional overrides is total and precise: after
/// reverting one instance against a record list whose applicable records
/// resolve to pairwise distinct keys, every key an applicable record holds
/// reads back that record's backup, and every other key is untouched.
pub proof fn lemma_revert_status_fold_char(
    statuses: Seq<(u64, u64)>,
    records: Seq<StatusInfo>,
    hash: u64,
    use_agent: bool,
    begin: u64,
    end: u64,
    t: ConstTable,
)
    requires
        table_wf(statuses),
        forall|i: int, j: int|
            0 <= i < j < records.len() && st_applicable(records[i], hash, use_agent, begin, end)
                && st_applicable(records[j], hash, use_agent, begin, end) ==> status_key(
                (#[trigger] records[i]).status.value_spec(t),
                records[i].condition.value_spec(t),
            ) != status_key(
                (#[trigger] records[j]).status.value_spec(t),
                records[j].condition.value_spec(t),
            ),
    ensures
        forall|k: u64|
            {
                let r = #[trigger] table_get(
                    revert_status_fold(statuses, records, hash, use_agent, begin, end, t),
                    k,
                );
                if exists|j: int|
                    0 <= j < records.len() && st_applicable(
                        #[trigger] records[j],
                        hash,
                        use_agent,
                        begin,
                        end,
                    ) && status_key(
                        records[j].status.value_spec(t),
                        records[j].condition.value_spec(t),
                    ) == k {
                    r == records[choose|j: int|
                        0 <= j < records.len() && st_applicable(
                            records[j],
                            hash,
                            use_agent,
                            begin,
                            end,
                        ) && status_key(
                            records[j].status.value_spec(t),
                            records[j].condition.value_spec(t),
                        ) == k].backup
                } else {
                    r == table_get(statuses, k)
                }
            },
    decreases records.len(),
{
    if records.len() > 0 {
        lemma_revert_status_fold_char(
            statuses,
            records.drop_last(),
            hash,
            use_agent,
            begin,
            end,
            t,
        );
        lemma_revert_status_fold_wf(statuses, records.drop_last(), hash, use_agent, begin, end, t);
        let prev = revert_status_fold(statuses, records.drop_last(), hash, use_agent, begin, end, t);
        let whole = revert_status_fold(statuses, records, hash, use_agent, begin, end, t);
        let x = records.last();
        let n = records.len() - 1;
        let xk = status_key(x.status.value_spec(t), x.condition.value_spec(t));
        if st_applicable(x, hash, use_agent, begin, end) {
            lemma_table_set(prev, xk, x.backup);
        }
        assert forall|k: u64|
            {
                let r = #[trigger] table_get(whole, k);
                if exists|j: int|
                    0 <= j < records.len() && st_applicable(
                        #[trigger] records[j],
                        hash,
                        use_agent,
                        begin,
                        end,
                    ) && status_key(
                        records[j].status.value_spec(t),
                        records[j].condition.value_spec(t),
                    ) == k {
                    r == records[choose|j: int|
                        0 <= j < records.len() && st_applicable(
                            records[j],
                            hash,
                            use_agent,
                            begin,
                            end,
                        ) && status_key(
                            records[j].status.value_spec(t),
                            records[j].condition.value_spec(t),
                        ) == k].backup
                } else {
                    r == table_get(statuses, k)
                }
            } by {
            if st_applicable(x, hash, use_agent, begin, end) && xk == k {
                assert(records[n] == x);
                let w = choose|j: int|
                    0 <= j < records.len() && st_applicable(
                        records[j],
                        hash,
                        use_agent,
                        begin,
                        end,
                    ) && status_key(
                        records[j].status.value_spec(t),
                        records[j].condition.value_spec(t),
                    ) == k;
                if w != n {
                    assert(st_applicable(records[w], hash, use_agent, begin, end));
                }
                assert(table_get(whole, k) == x.backup);
                assert(records[w] == x);
            } else {
                if exists|j: int|
                    0 <= j < records.drop_last().len() && st_applicable(
                        #[trigger] records.drop_last()[j],
                        hash,
                        use_agent,
                        begin,
                        end,
                    ) && status_key(
                        records.drop_last()[j].status.value_spec(t),
                        records.drop_last()[j].condition.value_spec(t),
                    ) == k {
                    let w = choose|j: int|
                        0 <= j < records.drop_last().len() && st_applicable(
                            records.drop_last()[j],
                            hash,
                            use_agent,
                            begin,
                            end,
                        ) && status_key(
                            records.drop_last()[j].status.value_spec(t),
                            records.drop_last()[j].condition.value_spec(t),
                        ) == k;
                    assert(records[w] == records.drop_last()[w]);
                    assert(table_get(prev, k) == records.drop_last()[w].backup);
                    if st_applicable(x, hash, use_agent, begin, end) {
                        assert(xk != k);
                        assert(table_get(whole, k) == table_get(prev, k));
                    }
                    let w2 = choose|j: int|
                        0 <= j < records.len() && st_applicable(
                            records[j],
                            hash,
                            use_agent,
                            begin,
                            end,
                        ) && status_key(
                            records[j].status.value_spec(t),
                            records[j].condition.value_spec(t),
                        ) == k;
                    if w2 != w {
                        assert(st_applicable(records[w2], hash, use_agent, begin, end));
                        assert(w2 < n || records[w2] == x);
                    }
                } else {
                    assert forall|j: int|
                        0 <= j < records.len() implies !(st_applicable(
                        #[trigger] records[j],
                        hash,
                        use_agent,
                        begin,
                        end,
                    ) && status_key(
                        records[j].status.value_spec(t),
                        records[j].condition.value_spec(t),
                    ) == k) by {
                        if j < n {
                            assert(records.drop_last()[j] == records[j]);
                        }
                    }
                    if st_applicable(x, hash, use_agent, begin, end) {
                        assert(xk != k);
                        assert(table_get(whole, k) == table_get(prev, k));
                    }
                }
            }
        }
    }
}

/// The shared table satisfies the purge characterization's hypothesis for
/// its pass: shared records all carry the shared agent key (the registry's
/// invariant), so records with pairwise distinct resolved identity +
/// condition keys pack to pairwise distinct dispatch keys.
pub proof fn lemma_shared_distinct_keys_pack_distinct(
    common: Seq<StatusInfo>,
    hash: u64,
    begin: u64,
    end: u64,
    t: ConstTable,
)
    requires
        crate::status::distinct_keys(common, t),
        forall|j: int|
            0 <= j < common.len() ==> (#[trigger] common[j]).agent
                == crate::status::COMMON_AGENT_HASH,
    ensures
        forall|i: int, j: int|
            0 <= i < j < common.len() && st_applicable(common[i], hash, false, begin, end)
                && st_applicable(common[j], hash, false, begin, end) ==> status_key(
                (#[trigger] common[i]).status.value_spec(t),
                common[i].condition.value_spec(t),
            ) != status_key(
                (#[trigger] common[j]).status.value_spec(t),
                common[j].condition.value_spec(t),
            ),
{
    assert forall|i: int, j: int|
        0 <= i < j < common.len() && st_applicable(common[i], hash, false, begin, end)
            && st_applicable(common[j], hash, false, begin, end) implies status_key(
        (#[trigger] common[i]).status.value_spec(t),
        common[i].condition.value_spec(t),
    ) != status_key(
        (#[trigger] common[j]).status.value_spec(t),
        common[j].condition.value_spec(t),
    ) by {
        assert(!crate::status::eq_key(common[i], common[j], t));
        assert(common[i].agent == common[j].agent);
        lemma_status_key_injective(
            common[i].status.value_spec(t),
            common[i].condition.value_spec(t),
            common[j].status.value_spec(t),
            common[j].condition.value_spec(t),
        );
    }
}

/// The conditional purge is total and precise directly under the
/// registry's invariants: with both tables holding pairwise distinct
/// resolved keys and every shared record under the shared agent key — what
/// a finalized registry's well-formedness states — the full two-pass
/// revert restores, per dispatch key, the applicable shared record's
/// backup where one exists, otherwise the applicable own record's backup,
/// and touches nothing else.
pub proof fn lemma_status_purge_total(
    statuses: Seq<(u64, u64)>,
    records: Seq<StatusInfo>,
    common: Seq<StatusInfo>,
    hash: u64,
    begin: u64,
    end: u64,
    t: ConstTable,
)
    requires
        table_wf(statuses),
        crate::status::distinct_keys(records, t),
        crate::status::distinct_keys(common, t),
        forall|j: int|
            0 <= j < common.len() ==> (#[trigger] common[j]).agent
                == crate::status::COMMON_AGENT_HASH,
    ensures
        forall|k: u64|
            {
                let r = #[trigger] table_get(
                    revert_status_fold(
                        revert_status_fold(statuses, records, hash, true, begin, end, t),
                        common,
                        hash,
                        false,
                        begin,
                        end,
                        t,
                    ),
                    k,
                );
                if exists|j: int|
                    0 <= j < common.len() && st_applicable(
                        #[trigger] common[j],
                        hash,
                        false,
                        begin,
                        end,
                    ) && status_key(
                        common[j].status.value_spec(t),
                        common[j].condition.value_spec(t),
                    ) == k {
                    r == common[choose|j: int|
                        0 <= j < common.len() && st_applicable(
                            common[j],
                            hash,
                            false,
                            begin,
                            end,
                        ) && status_key(
                            common[j].status.value_spec(t),
                            common[j].condition.value_spec(t),
                        ) == k].backup
                } else if exists|j: int|
                    0 <= j < records.len() && st_applicable(
                        #[trigger] records[j],
                        hash,
                        true,
                        begin,
                        end,
                    ) && status_key(
                        records[j].status.value_spec(t),
                        records[j].condition.value_spec(t),
                    ) == k {
                    r == records[choose|j: int|
                        0 <= j < records.len() && st_applicable(
                            records[j],
                            hash,
                            true,
                            begin,
                            end,
                        ) && status_key(
                            records[j].status.value_spec(t),
                            records[j].condition.value_spec(t),
                        ) == k].backup
                } else {
                    r == table_get(statuses, k)
                }
            },
{
    lemma_distinct_keys_pack_distinct(records, hash, begin, end, t);
    lemma_shared_distinct_keys_pack_distinct(common, hash, begin, end, t);
    lemma_revert_status_two_pass_char(statuses, records, common, hash, begin, end, t);
}

/// The full conditional purge is total and precise.  A purge reverts an
/// instance in two passes — its own identity's records first, then every
/// shared record — so for each dispatch key the restored value is the
/// applicable shared record's backup where one exists, otherwise the
/// applicable own record's backup, otherwise the key is untouched.
pub proof fn lemma_revert_status_two_pass_char(
    statuses: Seq<(u64, u64)>,
    records: Seq<StatusInfo>,
    common: Seq<StatusInfo>,
    hash: u64,
    begin: u64,
    end: u64,
    t: ConstTable,
)
    requires
        table_wf(statuses),
        forall|i: int, j: int|
            0 <= i < j < records.len() && st_applicable(records[i], hash, true, begin, end)
                && st_applicable(records[j], hash, true, begin, end) ==> status_key(
                (#[trigger] records[i]).status.value_spec(t),
                records[i].condition.value_spec(t),
            ) != status_key(
                (#[trigger] records[j]).status.value_spec(t),
                records[j].condition.value_spec(t),
            ),
        forall|i: int, j: int|
            0 <= i < j < common.len() && st_applicable(common[i], hash, false, begin, end)
                && st_applicable(common[j], hash, false, begin, end) ==> status_key(
                (#[trigger] common[i]).status.value_spec(t),
                common[i].condition.value_spec(t),
            ) != status_key(
                (#[trigger] common[j]).status.value_spec(t),
                common[j].condition.value_spec(t),
            ),
    ensures
        forall|k: u64|
            {
                let r = #[trigger] table_get(
                    revert_status_fold(
                        revert_status_fold(statuses, records, hash, true, begin, end, t),
                        common,
                        hash,
                        false,
                        begin,
                        end,
                        t,
                    ),
                    k,
                );
                if exists|j: int|
                    0 <= j < common.len() && st_applicable(
                        #[trigger] common[j],
                        hash,
                        false,
                        begin,
                        end,
                    ) && status_key(
                        common[j].status.value_spec(t),
                        common[j].condition.value_spec(t),
                    ) == k {
                    r == common[choose|j: int|
                        0 <= j < common.len() && st_applicable(
                            common[j],
                            hash,
                            false,
                            begin,
                            end,
                        ) && status_key(
                            common[j].status.value_spec(t),
                            common[j].condition.value_spec(t),
                        ) == k].backup
                } else if exists|j: int|
                    0 <= j < records.len() && st_applicable(
                        #[trigger] records[j],
                        hash,
                        true,
                        begin,
                        end,
                    ) && status_key(
                        records[j].status.value_spec(t),
                        records[j].condition.value_spec(t),
                    ) == k {
                    r == records[choose|j: int|
                        0 <= j < records.len() && st_applicable(
                            records[j],
                            hash,
                            true,
                            begin,
                            end,
                        ) && status_key(
                            records[j].status.value_spec(t),
                            records[j].condition.value_spec(t),
                        ) == k].backup
                } else {
                    r == table_get(statuses, k)
                }
            },
{
    lemma_revert_status_fold_char(statuses, records, hash, true, begin, end, t);
    lemma_revert_status_fold_wf(statuses, records, hash, true, begin, end, t);
    let mid = revert_status_fold(statuses, records, hash, true, begin, end, t);
    lemma_revert_status_fold_char(mid, common, hash, false, begin, end, t);
}

/// Round trip for a conditional override through the full two-pass purge,
/// under a finalized registry's invariants (distinct resolved keys in both
/// tables, shared records under the shared agent key): installing it onto
/// an instance and purging the range that holds its replacement code
/// restores exactly the backup the install captured, whenever no shared
/// record purged by the same range holds the same key (a shared record at
/// the key is restored on top, by the purge's own order: the instance's
/// records first, then the shared ones).
pub proof fn lemma_status_two_pass_round_trip(
    statuses: Seq<(u64, u64)>,
    info: StatusInfo,
    records: Seq<StatusInfo>,
    common: Seq<StatusInfo>,
    j: int,
    begin: u64,
    end: u64,
    t: ConstTable,
)
    requires
        table_wf(statuses),
        crate::status::distinct_keys(records, t),
        crate::status::distinct_keys(common, t),
        forall|w: int|
            0 <= w < common.len() ==> (#[trigger] common[w]).agent
                == crate::status::COMMON_AGENT_HASH,
        0 <= j < records.len(),
        records[j] == info,
        st_applicable(info, info.agent, true, begin, end),
        forall|w: int|
            0 <= w < common.len() ==> !(st_applicable(
                #[trigger] common[w],
                info.agent,
                false,
                begin,
                end,
            ) && status_key(common[w].status.value_spec(t), common[w].condition.value_spec(t))
                == status_key(info.status.value_spec(t), info.condition.value_spec(t))),
    ensures
        table_get(
            revert_status_fold(
                revert_status_fold(
                    table_set(
                        statuses,
                        status_key(info.status.value_spec(t), info.condition.value_spec(t)),
                        info.replacement,
                    ),
                    records,
                    info.agent,
                    true,
                    begin,
                    end,
                    t,
                ),
                common,
                info.agent,
                false,
                begin,
                end,
                t,
            ),
            status_key(info.status.value_spec(t), info.condition.value_spec(t)),
        ) == info.backup,
{
    let k = status_key(info.status.value_spec(t), info.condition.value_spec(t));
    lemma_table_set(statuses, k, info.replacement);
    lemma_distinct_keys_pack_distinct(records, info.agent, begin, end, t);
    lemma_shared_distinct_keys_pack_distinct(common, info.agent, begin, end, t);
    lemma_revert_status_two_pass_char(
        table_set(statuses, k, info.replacement),
        records,
        common,
        info.agent,
        begin,
        end,
        t,
    );
    let w = choose|i: int|
        0 <= i < records.len() && st_applicable(records[i], info.agent, true, begin, end)
            && status_key(records[i].status.value_spec(t), records[i].condition.value_spec(t))
            == k;
    if w != j {
        assert(st_applicable(records[w], info.agent, true, begin, end));
    }
}

/// Round trip for conditional overrides: installing one onto an instance
/// and purging the range that holds its replacement code restores exactly
/// the backup the install captured.
pub proof fn lemma_status_install_purge_round_trip(
    statuses: Seq<(u64, u64)>,
    info: StatusInfo,
    records: Seq<StatusInfo>,
    j: int,
    hash: u64,
    use_agent: bool,
    begin: u64,
    end: u64,
    t: ConstTable,
)
    requires
        table_wf(statuses),
        forall|i1: int, i2: int|
            0 <= i1 < i2 < records.len() && st_applicable(
                records[i1],
                hash,
                use_agent,
                begin,
                end,
            ) && st_applicable(records[i2], hash, use_agent, begin, end) ==> status_key(
                (#[trigger] records[i1]).status.value_spec(t),
                records[i1].condition.value_spec(t),
            ) != status_key(
                (#[trigger] records[i2]).status.value_spec(t),
                records[i2].condition.value_spec(t),
            ),
        0 <= j < records.len(),
        records[j] == info,
        st_applicable(info, hash, use_agent, begin, end),
    ensures
        table_get(
            revert_status_fold(
                table_set(
                    statuses,
                    status_key(info.status.value_spec(t), info.condition.value_spec(t)),
                    info.replacement,
                ),
                records,
                hash,
                use_agent,
                begin,
                end,
                t,
            ),
            status_key(info.status.value_spec(t), info.condition.value_spec(t)),
        ) == info.backup,
{
    let k = status_key(info.status.value_spec(t), info.condition.value_spec(t));
    lemma_table_set(statuses, k, info.replacement);
    lemma_revert_status_fold_char(
        table_set(statuses, k, info.replacement),
        records,
        hash,
        use_agent,
        begin,
        end,
        t,
    );
    let w = choose|i: int|
        0 <= i < records.len() && st_applicable(records[i], hash, use_agent, begin, end)
            && status_key(records[i].status.value_spec(t), records[i].condition.value_spec(t))
            == k;
    if w != j {
        assert(st_applicable(records[w], hash, use_agent, begin, end));
    }
}

/// A conditional record list with no replacement inside the range reverts
/// nothing; in particular, purging twice is a no-op the second time.
pub proof fn lemma_status_no_applicable_no_change(
    statuses: Seq<(u64, u64)>,
    records: Seq<StatusInfo>,
    hash: u64,
    use_agent: bool,
    begin: u64,
    end: u64,
    t: ConstTable,
)
    requires
        forall|j: int|
            0 <= j < records.len() ==> !crate::in_range(
                (#[trigger] records[j]).replacement,
                begin,
                end,
            ),
    ensures
        revert_status_fold(statuses, records, hash, use_agent, begin, end, t) == statuses,
    decreases records.len(),
{
    if records.len() > 0 {
        assert forall|j: int|
            0 <= j < records.drop_last().len() implies !crate::in_range(
            (#[trigger] records.drop_last()[j]).replacement,
            begin,
            end,
        ) by {
            assert(records.drop_last()[j] == records[j]);
        }
        lemma_status_no_applicable_no_change(
            statuses,
            records.drop_last(),
            hash,
            use_agent,
            begin,
            end,
            t,
        );
        assert(!crate::in_range(records.last().replacement, begin, end));
    }
}

/// Record a freshly constructed conditional-dispatch instance: its vtable
/// is recreated so teardown and status setup dispatch through the tracker,
/// and the new vtable is remembered against the instance's defining module
/// so it can be released when that module unloads.
pub fn on_status_instance_constructed(
    agents: &mut Vec<StatusInstance>,
    vtables: &mut Vec<(u64, u64)>,
    handle: u64,
    hash: u64,
    module_base: u64,
    module_size: u64,
    host_vtable: &Vec<u64>,
    initial_statuses: Vec<(u64, u64)>,
    vtable_handle: u64,
    dtor_redirect: u64,
    del_dtor_redirect: u64,
    set_redirect: u64,
)
    requires
        host_vtable@.len() >= 15,
        table_wf(initial_statuses@),
        forall|i: int| 0 <= i < old(agents)@.len() ==> (#[trigger] old(agents)@[i]).wf(),
    ensures
        forall|i: int| 0 <= i < final(agents)@.len() ==> (#[trigger] final(agents)@[i]).wf(),
        final(agents)@.len() == old(agents)@.len() + 1,
        final(agents)@.drop_last() == old(agents)@,
        final(agents)@.last().handle == handle,
        final(agents)@.last().hash == hash,
        final(agents)@.last().module_base == module_base,
        final(agents)@.last().module_size == module_size,
        final(agents)@.last().statuses@ == initial_statuses@,
        final(agents)@.last().vtable@.len() == 19,
        final(agents)@.last().vtable@[0] == dtor_redirect,
        final(agents)@.last().vtable@[1] == del_dtor_redirect,
        final(agents)@.last().vtable@[9] == set_redirect,
        final(agents)@.last().vtable@[STATUS_DTOR as int] == host_vtable@[0],
        final(agents)@.last().vtable@[STATUS_DEL_DTOR as int] == host_vtable@[1],
        final(agents)@.last().vtable@[STATUS_SET as int] == host_vtable@[9],
        final(agents)@.last().vtable@[STATUS_AGENT_HASH as int] == hash,
        final(vtables)@ == old(vtables)@.push((module_base, vtable_handle)),
{
    let new_vtable = recreate_status_vtable(
        host_vtable,
        hash,
        dtor_redirect,
        del_dtor_redirect,
        set_redirect,
    );
    let inst = StatusInstance {
        handle,
        hash,
        module_base,
        module_size,
        vtable: new_vtable,
        statuses: initial_statuses,
    };
    agents.push(inst);
    vtables.push((module_base, vtable_handle));
    proof {
        assert(final(agents)@.drop_last() =~= old(agents)@);
        assert forall|i: int| 0 <= i < agents@.len() implies (#[trigger] agents@[i]).wf() by {
            if i < agents@.len() - 1 {
                assert(agents@[i] == old(agents)@[i]);
            }
        }
    }
}

/// The recreated-vtable records that do not belong to the module at `base`.
pub open spec fn vtables_outside(s: Seq<(u64, u64)>, base: u64) -> Seq<(u64, u64)>
    decreases s.len(),
{
    if s.len() == 0 {
        Seq::empty()
    } else {
        let rest = vtables_outside(s.drop_last(), base);
        if s.last().0 == base {
            rest
        } else {
            rest.push(s.last())
        }
    }
}

/// On unload of the module at `base`, forget the vtables recreated for its
/// instances (the host glue frees their memory).
pub fn release_status_vtables(vtables: &mut Vec<(u64, u64)>, base: u64)
    ensures
        final(vtables)@ == vtables_outside(old(vtables)@, base),
{
    let n = vtables.len();
    let mut kept: Vec<(u64, u64)> = Vec::new();
    let mut i: usize = 0;
    proof {
        assert(vtables@.take(0) =~= Seq::<(u64, u64)>::empty());
    }
    while i < n
        invariant
            n == vtables@.len(),
            0 <= i <= n,
            kept@ == vtables_outside(vtables@.take(i as int), base),
        decreases n - i,
    {
        proof {
            assert(vtables@.take(i + 1).drop_last() =~= vtables@.take(i as int));
            assert(vtables@.take(i + 1).last() == vtables@[i as int]);
        }
        let entry = vtables[i];
        if entry.0 != base {
            kept.push(entry);
        }
        i = i + 1;
    }
    proof {
        assert(vtables@.take(n as int) =~= vtables@);
    }
    *vtables = kept;
}

/// Whether any construction entry the given module exported can produce
/// identity `h`: instances with such an identity cannot outlive the module.
pub open spec fn module_tracks_hash(
    create_agents: Seq<CreateAgentInfo>,
    status_create_agents: Seq<StatusCreateAgentInfo>,
    name: Seq<u8>,
    h: u64,
) -> bool {
    (exists|i: int|
        0 <= i < create_agents.len() && (#[trigger] create_agents[i]).module@ == name
            && hash_listed(create_agents[i].hashes@, h)) || (exists|i: int|
        0 <= i < status_create_agents.len() && (#[trigger] status_create_agents[i]).module@
            == name && hash_listed(status_create_agents[i].hashes@, h))
}

/// Whether the named module's construction entries can produce `h`.
pub fn tracks_hash(
    create_agents: &Vec<CreateAgentInfo>,
    status_create_agents: &Vec<StatusCreateAgentInfo>,
    name: &[u8],
    h: u64,
) -> (r: bool)
    ensures
        r == module_tracks_hash(create_agents@, status_create_agents@, name@, h),
{
    let n = create_agents.len();
    let mut i: usize = 0;
    while i < n
        invariant
            n == create_agents@.len(),
            0 <= i <= n,
            forall|j: int|
                0 <= j < i ==> !((#[trigger] create_agents@[j]).module@ == name@ && hash_listed(
                    create_agents@[j].hashes@,
                    h,
                )),
        decreases n - i,
    {
        if crate::bytes_eq(create_agents[i].module.as_slice(), name) {
            if hashes_contain(&create_agents[i].hashes, h) {
                return true;
            }
        }
        i = i + 1;
    }
    let m = status_create_agents.len();
    let mut i: usize = 0;
    while i < m
        invariant
            m == status_create_agents@.len(),
            0 <= i <= m,
            forall|j: int|
                0 <= j < i ==> !((#[trigger] status_create_agents@[j]).module@ == name@
                    && hash_listed(status_create_agents@[j].hashes@, h)),
            forall|j: int|
                0 <= j < create_agents@.len() ==> !((#[trigger] create_agents@[j]).module@
                    == name@ && hash_listed(create_agents@[j].hashes@, h)),
        decreases m - i,
    {
        if crate::bytes_eq(status_create_agents[i].module.as_slice(), name) {
            if hashes_contain(&status_create_agents[i].hashes, h) {
                return true;
            }
        }
        i = i + 1;
    }
    false
}

/// The script instances that survive the unload of the named module.
pub open spec fn acmd_agents_after_clear(
    s: Seq<AcmdInstance>,
    create_agents: Seq<CreateAgentInfo>,
    status_create_agents: Seq<StatusCreateAgentInfo>,
    name: Seq<u8>,
) -> Seq<AcmdInstance>
    decreases s.len(),
{
    if s.len() == 0 {
        Seq::empty()
    } else {
        let rest = acmd_agents_after_clear(
            s.drop_last(),
            create_agents,
            status_create_agents,
            name,
        );
        if module_tracks_hash(create_agents, status_create_agents, name, s.last().hash) {
            rest
        } else {
            rest.push(s.last())
        }
    }
}

/// The conditional instances that survive the unload of the named module.
pub open spec fn status_agents_after_clear(
    s: Seq<StatusInstance>,
    create_agents: Seq<CreateAgentInfo>,
    status_create_agents: Seq<StatusCreateAgentInfo>,
    name: Seq<u8>,
) -> Seq<StatusInstance>
    decreases s.len(),
{
    if s.len() == 0 {
        Seq::empty()
    } else {
        let rest = status_agents_after_clear(
            s.drop_last(),
            create_agents,
            status_create_agents,
            name,
        );
        if module_tracks_hash(create_agents, status_create_agents, name, s.last().hash) {
            rest
        } else {
            rest.push(s.last())
        }
    }
}

/// On unload of the named module, drop every live instance whose identity
/// one of that module's construction entries produces: instances cannot
/// outlive their defining module.
pub fn clear_loaded_agent(
    acmd_agents: &mut Vec<AcmdInstance>,
    status_agents: &mut Vec<StatusInstance>,
    create_agents: &Vec<CreateAgentInfo>,
    status_create_agents: &Vec<StatusCreateAgentInfo>,
    name: &[u8],
)
    requires
        forall|i: int| 0 <= i < old(acmd_agents)@.len() ==> (#[trigger] old(acmd_agents)@[i]).wf(),
        forall|i: int|
            0 <= i < old(status_agents)@.len() ==> (#[trigger] old(status_agents)@[i]).wf(),
    ensures
        final(acmd_agents)@ == acmd_agents_after_clear(
            old(acmd_agents)@,
            create_agents@,
            status_create_agents@,
            name@,
        ),
        final(status_agents)@ == status_agents_after_clear(
            old(status_agents)@,
            create_agents@,
            status_create_agents@,
            name@,
        ),
        forall|i: int|
            0 <= i < final(acmd_agents)@.len() ==> (#[trigger] final(acmd_agents)@[i]).wf(),
        forall|i: int|
            0 <= i < final(status_agents)@.len() ==> (#[trigger] final(status_agents)@[i]).wf(),
{
    let ghost acmd0 = acmd_agents@;
    let n = acmd_agents.len();
    let mut kept_acmd: Vec<AcmdInstance> = Vec::new();
    let ghost mut p: int = 0;
    proof {
        assert(acmd0.take(0) =~= Seq::<AcmdInstance>::empty());
        assert(acmd_agents@ =~= acmd0.skip(0));
    }
    while acmd_agents.len() > 0
        invariant
            0 <= p <= acmd0.len(),
            acmd_agents@ == acmd0.skip(p),
            forall|j: int| 0 <= j < acmd0.len() ==> (#[trigger] acmd0[j]).wf(),
            kept_acmd@ == acmd_agents_after_clear(
                acmd0.take(p),
                create_agents@,
                status_create_agents@,
                name@,
            ),
            forall|j: int| 0 <= j < kept_acmd@.len() ==> (#[trigger] kept_acmd@[j]).wf(),
        decreases acmd_agents@.len(),
    {
        proof {
            assert(acmd0.take(p + 1).drop_last() =~= acmd0.take(p));
            assert(acmd0.take(p + 1).last() == acmd0[p]);
        }
        let inst = acmd_agents.remove(0);
        proof {
            assert(inst == acmd0.skip(p)[0]);
            assert(acmd0.skip(p)[0] == acmd0[p]);
            assert(old(acmd_agents) == old(acmd_agents));
        }
        let h = inst.hash;
        if !tracks_hash(create_agents, status_create_agents, name, h) {
            kept_acmd.push(inst);
        }
        proof {
            assert(acmd_agents@ =~= acmd0.skip(p + 1));
            p = p + 1;
        }
    }
    proof {
        assert(acmd0.take(p) =~= acmd0);
    }
    *acmd_agents = kept_acmd;
    let ghost status0 = status_agents@;
    let mut kept_status: Vec<StatusInstance> = Vec::new();
    let ghost mut q: int = 0;
    proof {
        assert(status0.take(0) =~= Seq::<StatusInstance>::empty());
        assert(status_agents@ =~= status0.skip(0));
    }
    while status_agents.len() > 0
        invariant
            0 <= q <= status0.len(),
            status_agents@ == status0.skip(q),
            forall|j: int| 0 <= j < status0.len() ==> (#[trigger] status0[j]).wf(),
            kept_status@ == status_agents_after_clear(
                status0.take(q),
                create_agents@,
                status_create_agents@,
                name@,
            ),
            forall|j: int| 0 <= j < kept_status@.len() ==> (#[trigger] kept_status@[j]).wf(),
        decreases status_agents@.len(),
    {
        proof {
            assert(status0.take(q + 1).drop_last() =~= status0.take(q));
            assert(status0.take(q + 1).last() == status0[q]);
        }
        let inst = status_agents.remove(0);
        proof {
            assert(inst == status0.skip(q)[0]);
            assert(status0.skip(q)[0] == status0[q]);
        }
        let h = inst.hash;
        if !tracks_hash(create_agents, status_create_agents, name, h) {
            kept_status.push(inst);
        }
        proof {
            assert(status_agents@ =~= status0.skip(q + 1));
            q = q + 1;
        }
    }
    proof {
        assert(status0.take(q) =~= status0);
    }
    *status_agents = kept_status;
}

/// The byte string `"_ZN7lua2cpp"`.
pub open spec fn mangle_prefix_spec() -> Seq<u8> {
    seq![95u8, 90u8, 78u8, 55u8, 108u8, 117u8, 97u8, 50u8, 99u8, 112u8, 112u8]
}

/// Build the byte string `"_ZN7lua2cpp"`.
pub fn mangle_prefix() -> (r: Vec<u8>)
    ensures
        r@ == mangle_prefix_spec(),
{
    let mut v: Vec<u8> = Vec::new();
    v.push(95);
    v.push(90);
    v.push(78);
    v.push(55);
    v.push(108);
    v.push(117);
    v.push(97);
    v.push(50);
    v.push(99);
    v.push(112);
    v.push(112);
    proof {
        assert(v@ =~= mangle_prefix_spec());
    }
    v
}

/// The byte string `"EN3phx6Hash40EPN3app12BattleObjectEPNS2_26BattleObjectModuleAccessorEP9lua_State"`.
pub open spec fn mangle_suffix_spec() -> Seq<u8> {
    seq![69u8, 78u8, 51u8, 112u8, 104u8, 120u8, 54u8, 72u8, 97u8, 115u8, 104u8, 52u8, 48u8, 69u8, 80u8, 78u8, 51u8, 97u8, 112u8, 112u8, 49u8, 50u8, 66u8, 97u8, 116u8, 116u8, 108u8, 101u8, 79u8, 98u8, 106u8, 101u8, 99u8, 116u8, 69u8, 80u8, 78u8, 83u8, 50u8, 95u8, 50u8, 54u8, 66u8, 97u8, 116u8, 116u8, 108u8, 101u8, 79u8, 98u8, 106u8, 101u8, 99u8, 116u8, 77u8, 111u8, 100u8, 117u8, 108u8, 101u8, 65u8, 99u8, 99u8, 101u8, 115u8, 115u8, 111u8, 114u8, 69u8, 80u8, 57u8, 108u8, 117u8, 97u8, 95u8, 83u8, 116u8, 97u8, 116u8, 101u8]
}

/// Build the byte string `"EN3phx6Hash40EPN3app12BattleObjectEPNS2_26BattleObjectModuleAccessorEP9lua_State"`.
#[verifier::rlimit(100)]
pub fn mangle_suffix() -> (r: Vec<u8>)
    ensures
        r@ == mangle_suffix_spec(),
{
    let mut v: Vec<u8> = Vec::new();
    v.push(69);
    v.push(78);
    v.push(51);
    v.push(112);
    v.push(104);
    v.push(120);
    v.push(54);
    v.push(72);
    v.push(97);
    v.push(115);
    v.push(104);
    v.push(52);
    v.push(48);
    v.push(69);
    v.push(80);
    v.push(78);
    v.push(51);
    v.push(97);
    v.push(112);
    v.push(112);
    v.push(49);
    v.push(50);
    v.push(66);
    v.push(97);
    v.push(116);
    v.push(116);
    v.push(108);
    v.push(101);
    v.push(79);
    v.push(98);
    v.push(106);
    v.push(101);
    v.push(99);
    v.push(116);
    v.push(69);
    v.push(80);
    v.push(78);
    v.push(83);
    v.push(50);
    v.push(95);
    v.push(50);
    v.push(54);
    v.push(66);
    v.push(97);
    v.push(116);
    v.push(116);
    v.push(108);
    v.push(101);
    v.push(79);
    v.push(98);
    v.push(106);
    v.push(101);
    v.push(99);
    v.push(116);
    v.push(77);
    v.push(111);
    v.push(100);
    v.push(117);
    v.push(108);
    v.push(101);
    v.push(65);
    v.push(99);
    v.push(99);
    v.push(101);
    v.push(115);
    v.push(115);
    v.push(111);
    v.push(114);
    v.push(69);
    v.push(80);
    v.push(57);
    v.push(108);
    v.push(117);
    v.push(97);
    v.push(95);
    v.push(83);
    v.push(116);
    v.push(97);
    v.push(116);
    v.push(101);
    proof {
        assert(v@ =~= mangle_suffix_spec());
    }
    v
}

/// The byte string `"create_agent_fighter_"`.
pub open spec fn create_agent_prefix_spec() -> Seq<u8> {
    seq![99u8, 114u8, 101u8, 97u8, 116u8, 101u8, 95u8, 97u8, 103u8, 101u8, 110u8, 116u8, 95u8, 102u8, 105u8, 103u8, 104u8, 116u8, 101u8, 114u8, 95u8]
}

/// Build the byte string `"create_agent_fighter_"`.
pub fn create_agent_prefix() -> (r: Vec<u8>)
    ensures
        r@ == create_agent_prefix_spec(),
{
    let mut v: Vec<u8> = Vec::new();
    v.push(99);
    v.push(114);
    v.push(101);
    v.push(97);
    v.push(116);
    v.push(101);
    v.push(95);
    v.push(97);
    v.push(103);
    v.push(101);
    v.push(110);
    v.push(116);
    v.push(95);
    v.push(102);
    v.push(105);
    v.push(103);
    v.push(104);
    v.push(116);
    v.push(101);
    v.push(114);
    v.push(95);
    proof {
        assert(v@ =~= create_agent_prefix_spec());
    }
    v
}

/// The creation entry-point name piece for one category and sharing kind.
pub open spec fn category_func_name_spec(category: Category, is_share: bool) -> Seq<u8> {
    match category {
        Category::ACMD_GAME => if is_share {
            seq![97u8, 110u8, 105u8, 109u8, 99u8, 109u8, 100u8, 95u8, 103u8, 97u8, 109u8, 101u8, 95u8, 115u8, 104u8, 97u8, 114u8, 101u8]
        } else {
            seq![97u8, 110u8, 105u8, 109u8, 99u8, 109u8, 100u8, 95u8, 103u8, 97u8, 109u8, 101u8]
        },
        Category::ACMD_EFFECT => if is_share {
            seq![97u8, 110u8, 105u8, 109u8, 99u8, 109u8, 100u8, 95u8, 101u8, 102u8, 102u8, 101u8, 99u8, 116u8, 95u8, 115u8, 104u8, 97u8, 114u8, 101u8]
        } else {
            seq![97u8, 110u8, 105u8, 109u8, 99u8, 109u8, 100u8, 95u8, 101u8, 102u8, 102u8, 101u8, 99u8, 116u8]
        },
        Category::ACMD_SOUND => if is_share {
            seq![97u8, 110u8, 105u8, 109u8, 99u8, 109u8, 100u8, 95u8, 115u8, 111u8, 117u8, 110u8, 100u8, 95u8, 115u8, 104u8, 97u8, 114u8, 101u8]
        } else {
            seq![97u8, 110u8, 105u8, 109u8, 99u8, 109u8, 100u8, 95u8, 115u8, 111u8, 117u8, 110u8, 100u8]
        },
        Category::ACMD_EXPRESSION => if is_share {
            seq![97u8, 110u8, 105u8, 109u8, 99u8, 109u8, 100u8, 95u8, 101u8, 120u8, 112u8, 114u8, 101u8, 115u8, 115u8, 105u8, 111u8, 110u8, 95u8, 115u8, 104u8, 97u8, 114u8, 101u8]
        } else {
            seq![97u8, 110u8, 105u8, 109u8, 99u8, 109u8, 100u8, 95u8, 101u8, 120u8, 112u8, 114u8, 101u8, 115u8, 115u8, 105u8, 111u8, 110u8]
        },
    }
}

/// Build the creation entry-point name piece for one category and kind.
pub fn category_func_name(category: Category, is_share: bool) -> (r: Vec<u8>)
    ensures
        r@ == category_func_name_spec(category, is_share),
{
    let mut v: Vec<u8> = Vec::new();
    match category {
        Category::ACMD_GAME => {
            if is_share {
                v.push(97);
                v.push(110);
                v.push(105);
                v.push(109);
                v.push(99);
                v.push(109);
                v.push(100);
                v.push(95);
                v.push(103);
                v.push(97);
                v.push(109);
                v.push(101);
                v.push(95);
                v.push(115);
                v.push(104);
                v.push(97);
                v.push(114);
                v.push(101);
            } else {
                v.push(97);
                v.push(110);
                v.push(105);
                v.push(109);
                v.push(99);
                v.push(109);
                v.push(100);
                v.push(95);
                v.push(103);
                v.push(97);
                v.push(109);
                v.push(101);
            }
        },
        Category::ACMD_EFFECT => {
            if is_share {
                v.push(97);
                v.push(110);
                v.push(105);
                v.push(109);
                v.push(99);
                v.push(109);
                v.push(100);
                v.push(95);
                v.push(101);
                v.push(102);
                v.push(102);
                v.push(101);
                v.push(99);
                v.push(116);
                v.push(95);
                v.push(115);
                v.push(104);
                v.push(97);
                v.push(114);
                v.push(101);
            } else {
                v.push(97);
                v.push(110);
                v.push(105);
                v.push(109);
                v.push(99);
                v.push(109);
                v.push(100);
                v.push(95);
                v.push(101);
                v.push(102);
                v.push(102);
                v.push(101);
                v.push(99);
                v.push(116);
            }
        },
        Category::ACMD_SOUND => {
            if is_share {
                v.push(97);
                v.push(110);
                v.push(105);
                v.push(109);
                v.push(99);
                v.push(109);
                v.push(100);
                v.push(95);
                v.push(115);
                v.push(111);
                v.push(117);
                v.push(110);
                v.push(100);
                v.push(95);
                v.push(115);
                v.push(104);
                v.push(97);
                v.push(114);
                v.push(101);
            } else {
                v.push(97);
                v.push(110);
                v.push(105);
                v.push(109);
                v.push(99);
                v.push(109);
                v.push(100);
                v.push(95);
                v.push(115);
                v.push(111);
                v.push(117);
                v.push(110);
                v.push(100);
            }
        },
        Category::ACMD_EXPRESSION => {
            if is_share {
                v.push(97);
                v.push(110);
                v.push(105);
                v.push(109);
                v.push(99);
                v.push(109);
                v.push(100);
                v.push(95);
                v.push(101);
                v.push(120);
                v.push(112);
                v.push(114);
                v.push(101);
                v.push(115);
                v.push(115);
                v.push(105);
                v.push(111);
                v.push(110);
                v.push(95);
                v.push(115);
                v.push(104);
                v.push(97);
                v.push(114);
                v.push(101);
            } else {
                v.push(97);
                v.push(110);
                v.push(105);
                v.push(109);
                v.push(99);
                v.push(109);
                v.push(100);
                v.push(95);
                v.push(101);
                v.push(120);
                v.push(112);
                v.push(114);
                v.push(101);
                v.push(115);
                v.push(115);
                v.push(105);
                v.push(111);
                v.push(110);
            }
        },
    }
    proof {
        assert(v@ =~= category_func_name_spec(category, is_share));
    }
    v
}

/// The byte string `"status_script"`.
pub open spec fn status_func_name_spec() -> Seq<u8> {
    seq![115u8, 116u8, 97u8, 116u8, 117u8, 115u8, 95u8, 115u8, 99u8, 114u8, 105u8, 112u8, 116u8]
}

/// Build the byte string `"status_script"`.
pub fn status_func_name() -> (r: Vec<u8>)
    ensures
        r@ == status_func_name_spec(),
{
    let mut v: Vec<u8> = Vec::new();
    v.push(115);
    v.push(116);
    v.push(97);
    v.push(116);
    v.push(117);
    v.push(115);
    v.push(95);
    v.push(115);
    v.push(99);
    v.push(114);
    v.push(105);
    v.push(112);
    v.push(116);
    proof {
        assert(v@ =~= status_func_name_spec());
    }
    v
}

/// The instruction classes the identity scan cares about: a return, a
/// 64-bit move-wide (zeroing or keeping), a 64-bit subtract-and-set-flags
/// on shifted registers (a comparison), or anything else.
#[derive(Clone, Copy, PartialEq, Eq, Structural, Debug)]
pub enum DecodedInstr {
    Ret,
    Movz { imm16: u16, rd: u8 },
    Movk { imm16: u16, rd: u8 },
    SubsShift { rm: u8 },
    Other,
}

/// Classify one instruction word by its fixed bit pattern.
pub open spec fn decode_spec(w: u32) -> DecodedInstr {
    if w & 0xFFFFFC1Fu32 == 0xD65F0000u32 {
        DecodedInstr::Ret
    } else if w & 0xFF800000u32 == 0xD2800000u32 {
        DecodedInstr::Movz { imm16: ((w >> 5u32) & 0xFFFFu32) as u16, rd: (w & 0x1Fu32) as u8 }
    } else if w & 0xFF800000u32 == 0xF2800000u32 {
        DecodedInstr::Movk { imm16: ((w >> 5u32) & 0xFFFFu32) as u16, rd: (w & 0x1Fu32) as u8 }
    } else if w & 0xFF200000u32 == 0xEB000000u32 {
        DecodedInstr::SubsShift { rm: ((w >> 16u32) & 0x1Fu32) as u8 }
    } else {
        DecodedInstr::Other
    }
}

/// Classify one instruction word.
pub fn decode_word(w: u32) -> (r: DecodedInstr)
    ensures
        r == decode_spec(w),
{
    if w & 0xFFFFFC1F == 0xD65F0000 {
        DecodedInstr::Ret
    } else if w & 0xFF800000 == 0xD2800000 {
        proof {
            assert((w >> 5u32) & 0xFFFFu32 <= 0xFFFF) by (bit_vector);
            assert(w & 0x1Fu32 <= 0x1F) by (bit_vector);
        }
        DecodedInstr::Movz { imm16: ((w >> 5) & 0xFFFF) as u16, rd: (w & 0x1F) as u8 }
    } else if w & 0xFF800000 == 0xF2800000 {
        proof {
            assert((w >> 5u32) & 0xFFFFu32 <= 0xFFFF) by (bit_vector);
            assert(w & 0x1Fu32 <= 0x1F) by (bit_vector);
        }
        DecodedInstr::Movk { imm16: ((w >> 5) & 0xFFFF) as u16, rd: (w & 0x1F) as u8 }
    } else if w & 0xFF200000 == 0xEB000000 {
        proof {
            assert((w >> 16u32) & 0x1Fu32 <= 0x1F) by (bit_vector);
        }
        DecodedInstr::SubsShift { rm: ((w >> 16) & 0x1F) as u8 }
    } else {
        DecodedInstr::Other
    }
}

/// The halfword position a move-keep instruction writes to, from its raw
/// word: 0 to 3.
pub open spec fn movk_offset_spec(w: u32) -> u32 {
    (w & 0x0060_0000u32) >> 21u32
}

/// Extract the halfword position of a move-keep instruction.
pub fn get_movk_offset(instr: u32) -> (r: u32)
    ensures
        r == movk_offset_spec(instr),
        r <= 3,
{
    proof {
        assert((instr & 0x0060_0000u32) >> 21u32 <= 3) by (bit_vector);
    }
    (instr & 0x0060_0000) >> 21
}

/// The identities recovered by scanning forward from word `i`: move-wide
/// immediates are simulated into a register file, and every comparison
/// records the compared register's value.  The scan ends at the first
/// return instruction or at the end of the window.  A register index of 31
/// is the zero register and is never simulated.
pub open spec fn recover_from(code: Seq<u32>, i: int, cpu: Seq<u64>, acc: Seq<u64>) -> Seq<u64>
    decreases code.len() - i,
    when 0 <= i <= code.len()
{
    if i == code.len() {
        acc
    } else {
        match decode_spec(code[i]) {
            DecodedInstr::Ret => acc,
            DecodedInstr::Movz { imm16, rd } => if rd < 31 {
                recover_from(code, i + 1, cpu.update(rd as int, imm16 as u64), acc)
            } else {
                recover_from(code, i + 1, cpu, acc)
            },
            DecodedInstr::Movk { imm16, rd } => if rd < 31 {
                recover_from(
                    code,
                    i + 1,
                    cpu.update(
                        rd as int,
                        cpu[rd as int] | ((imm16 as u64) << ((movk_offset_spec(code[i])
                            * 16) as u64)),
                    ),
                    acc,
                )
            } else {
                recover_from(code, i + 1, cpu, acc)
            },
            DecodedInstr::SubsShift { rm } => if rm < 31 {
                recover_from(code, i + 1, cpu, acc.push(cpu[rm as int]))
            } else {
                recover_from(code, i + 1, cpu, acc)
            },
            DecodedInstr::Other => recover_from(code, i + 1, cpu, acc),
        }
    }
}

/// The identities a constructor starting at word `start` can ever be
/// compared against.
pub open spec fn recover_hashes(code: Seq<u32>, start: int) -> Seq<u64> {
    if 0 <= start <= code.len() {
        recover_from(code, start, Seq::new(31, |i: int| 0u64), Seq::empty())
    } else {
        Seq::empty()
    }
}

/// Recover, from a window of machine code, the finite set of identity
/// constants the function starting at word `start` compares against,
/// stopping at its return instruction.
pub fn read_hashes_from_executable(code: &[u32], start: usize) -> (r: Vec<u64>)
    requires
        start <= code@.len(),
    ensures
        r@ == recover_hashes(code@, start as int),
{
    let n = code.len();
    let mut cpu: Vec<u64> = Vec::new();
    let mut z: usize = 0;
    while z < 31
        invariant
            0 <= z <= 31,
            cpu@.len() == z,
            forall|j: int| 0 <= j < z ==> cpu@[j] == 0u64,
        decreases 31 - z,
    {
        cpu.push(0);
        z = z + 1;
    }
    proof {
        assert(cpu@ =~= Seq::new(31, |i: int| 0u64));
    }
    let mut acc: Vec<u64> = Vec::new();
    let mut i: usize = start;
    let mut done = false;
    while i < n && !done
        invariant
            n == code@.len(),
            start <= i <= n,
            cpu@.len() == 31,
            if done {
                acc@ == recover_hashes(code@, start as int)
            } else {
                recover_from(code@, i as int, cpu@, acc@) == recover_hashes(
                    code@,
                    start as int,
                )
            },
        decreases n - i, (if done { 0int } else { 1int }),
    {
        let instr = decode_word(code[i]);
        match instr {
            DecodedInstr::Ret => {
                done = true;
            },
            DecodedInstr::Movz { imm16, rd } => {
                if rd < 31 {
                    cpu.set(rd as usize, imm16 as u64);
                }
                i = i + 1;
            },
            DecodedInstr::Movk { imm16, rd } => {
                if rd < 31 {
                    let off = get_movk_offset(code[i]);
                    let shift: u64 = (off as u64) * 16;
                    let merged = cpu[rd as usize] | ((imm16 as u64) << shift);
                    cpu.set(rd as usize, merged);
                }
                i = i + 1;
            },
            DecodedInstr::SubsShift { rm } => {
                if rm < 31 {
                    acc.push(cpu[rm as usize]);
                }
                i = i + 1;
            },
            DecodedInstr::Other => {
                i = i + 1;
            },
        }
    }
    acc
}

/// The decimal digits of `n`, most significant first.
pub open spec fn dec_digits(n: nat) -> Seq<u8>
    decreases n,
{
    if n < 10 {
        seq![(0x30 + n) as u8]
    } else {
        dec_digits(n / 10).push((0x30 + n % 10) as u8)
    }
}

/// Write `n` in decimal.
pub fn dec_bytes(n: usize) -> (r: Vec<u8>)
    ensures
        r@ == dec_digits(n as nat),
    decreases n,
{
    if n < 10 {
        let mut v: Vec<u8> = Vec::new();
        v.push(0x30 + (n as u8));
        proof {
            assert(v@ =~= dec_digits(n as nat));
        }
        v
    } else {
        let mut v = dec_bytes(n / 10);
        v.push(0x30 + ((n % 10) as u8));
        v
    }
}

/// Append a byte string.
pub fn push_bytes(v: &mut Vec<u8>, s: &[u8])
    ensures
        final(v)@ == old(v)@ + s@,
{
    let n = s.len();
    let mut i: usize = 0;
    while i < n
        invariant
            n == s@.len(),
            0 <= i <= n,
            v@ == old(v)@ + s@.take(i as int),
        decreases n - i,
    {
        proof {
            assert(old(v)@ + s@.take(i + 1) =~= (old(v)@ + s@.take(i as int)).push(
                s@[i as int],
            ));
        }
        v.push(s[i]);
        i = i + 1;
    }
    proof {
        assert(old(v)@ + s@.take(n as int) =~= old(v)@ + s@);
    }
}

/// The full creation entry-point function name for one agent and piece.
pub open spec fn create_agent_func_name_spec(fighter: Seq<u8>, func: Seq<u8>) -> Seq<u8> {
    create_agent_prefix_spec() + func + seq![95u8] + fighter
}

/// The mangled exported name of a creation entry point: the fixed prefix,
/// the function name's length in decimal, the function name, and the fixed
/// argument suffix.
pub open spec fn mangled_symbol_spec(fighter: Seq<u8>, func: Seq<u8>) -> Seq<u8> {
    mangle_prefix_spec() + dec_digits(create_agent_func_name_spec(fighter, func).len())
        + create_agent_func_name_spec(fighter, func) + mangle_suffix_spec()
}

/// Build the mangled exported name of a creation entry point.
pub fn format_create_agent_symbol(fighter: &[u8], func: &[u8]) -> (r: Vec<u8>)
    requires
        fighter@.len() + func@.len() + 22 <= usize::MAX,
    ensures
        r@ == mangled_symbol_spec(fighter@, func@),
{
    let mut name: Vec<u8> = create_agent_prefix();
    push_bytes(&mut name, func);
    name.push(95);
    push_bytes(&mut name, fighter);
    proof {
        assert(name@ =~= create_agent_func_name_spec(fighter@, func@));
    }
    let mut r: Vec<u8> = mangle_prefix();
    let digits = dec_bytes(name.len());
    push_bytes(&mut r, digits.as_slice());
    push_bytes(&mut r, name.as_slice());
    let suffix = mangle_suffix();
    push_bytes(&mut r, suffix.as_slice());
    r
}

/// Where the identity scan of a constructor starts: its symbol value as a
/// word index, clamped to the code window.
pub open spec fn scan_start(st_value: u64, code_len: int) -> int {
    if (st_value as int) / 4 <= code_len {
        (st_value as int) / 4
    } else {
        code_len
    }
}

/// The symbol values after redirecting symbol `i` to `redirect` (unchanged
/// when `i` is out of range).
pub open spec fn patched_dynsym(
    d: Seq<crate::resolver::ElfSymbol>,
    i: int,
    redirect: u64,
    base: u64,
) -> Seq<crate::resolver::ElfSymbol> {
    if 0 <= i < d.len() {
        d.update(
            i,
            crate::resolver::ElfSymbol {
                st_name: d[i].st_name,
                st_shndx: d[i].st_shndx,
                st_value: vstd::wrapping::u64_specs::wrapping_sub(redirect, base),
            },
        )
    } else {
        d
    }
}

/// The symbol values after redirecting one mangled name, if it resolves.
pub open spec fn patch_sym_spec(
    m0: crate::resolver::ModuleObject,
    d: Seq<crate::resolver::ElfSymbol>,
    symbol: Seq<u8>,
    redirect: u64,
) -> Seq<crate::resolver::ElfSymbol> {
    match m0.resolve_spec(symbol) {
        Some(i) => patched_dynsym(d, i, redirect, m0.base),
        None => d,
    }
}

/// Redirect one creation entry point of a freshly loaded module: resolve
/// its mangled name, remember the original constructor's address together
/// with the identities its code can produce, and rewrite the symbol to the
/// tracker's redirection.  A module that does not export the name is left
/// untouched.
pub fn patch_create_agent_symbol(
    m: &mut crate::resolver::ModuleObject,
    func: &[u8],
    category: Category,
    is_share: bool,
    redirect: u64,
    create_agents: &mut Vec<CreateAgentInfo>,
    slots: &mut Slots,
) -> (found: bool)
    requires
        old(m).wf(),
        old(m).name@.len() + func@.len() + 22 <= usize::MAX,
        forall|k: int| 0 <= k < func@.len() ==> func@[k] != 0,
    ensures
        final(m).wf(),
        crate::hooks::same_shape(*old(m), *final(m)),
        final(slots).values@ == old(slots).values@,
        found == (old(m).resolve_spec(mangled_symbol_spec(old(m).name@, func@)) is Some),
        match old(m).resolve_spec(mangled_symbol_spec(old(m).name@, func@)) {
            Some(i) => {
                &&& final(m).dynsym@ == patched_dynsym(old(m).dynsym@, i, redirect, old(m).base)
                &&& final(create_agents)@.len() == old(create_agents)@.len() + 1
                &&& final(create_agents)@.drop_last() == old(create_agents)@
                &&& final(create_agents)@.last().module@ == old(m).name@
                &&& final(create_agents)@.last().category == category
                &&& final(create_agents)@.last().is_share == is_share
                &&& final(create_agents)@.last().original == old(m).sym_addr(i)
                &&& final(create_agents)@.last().hashes@ == recover_hashes(
                    old(m).code@,
                    scan_start(old(m).dynsym@[i].st_value, old(m).code@.len() as int),
                )
            },
            None => {
                &&& final(m).dynsym@ == old(m).dynsym@
                &&& final(create_agents)@ == old(create_agents)@
            },
        },
{
    let symbol = format_create_agent_symbol(m.name.as_slice(), func);
    proof {
        lemma_mangled_no_nul(old(m).name@, func@);
    }
    match crate::resolver::get_symbol_by_name(m, symbol.as_slice()) {
        Some(i) => {
            let sym = m.dynsym[i];
            let original_addr = sym.st_value.wrapping_add(m.base);
            let code_len = m.code.len();
            let start: usize = if sym.st_value / 4 <= code_len as u64 {
                (sym.st_value / 4) as usize
            } else {
                code_len
            };
            let hashes = read_hashes_from_executable(m.code.as_slice(), start);
            crate::hooks::symbol_replace(m, i, redirect, None, slots);
            let name_copy = copy_bytes(m.name.as_slice());
            let entry = CreateAgentInfo {
                module: name_copy,
                category,
                is_share,
                original: original_addr,
                hashes,
            };
            create_agents.push(entry);
            proof {
                assert(final(create_agents)@.drop_last() =~= old(create_agents)@);
            }
            true
        },
        None => false,
    }
}

/// Redirect one conditional creation entry point, as
/// [`patch_create_agent_symbol`] does for script entry points.
pub fn patch_create_agent_status(
    m: &mut crate::resolver::ModuleObject,
    redirect: u64,
    status_create_agents: &mut Vec<StatusCreateAgentInfo>,
    slots: &mut Slots,
) -> (found: bool)
    requires
        old(m).wf(),
        old(m).name@.len() + 35 <= usize::MAX,
    ensures
        final(m).wf(),
        crate::hooks::same_shape(*old(m), *final(m)),
        final(slots).values@ == old(slots).values@,
        found == (old(m).resolve_spec(
            mangled_symbol_spec(old(m).name@, status_func_name_spec()),
        ) is Some),
        match old(m).resolve_spec(mangled_symbol_spec(old(m).name@, status_func_name_spec())) {
            Some(i) => {
                &&& final(m).dynsym@ == patched_dynsym(old(m).dynsym@, i, redirect, old(m).base)
                &&& final(status_create_agents)@.len() == old(status_create_agents)@.len() + 1
                &&& final(status_create_agents)@.drop_last() == old(status_create_agents)@
                &&& final(status_create_agents)@.last().module@ == old(m).name@
                &&& final(status_create_agents)@.last().original == old(m).sym_addr(i)
                &&& final(status_create_agents)@.last().hashes@ == recover_hashes(
                    old(m).code@,
                    scan_start(old(m).dynsym@[i].st_value, old(m).code@.len() as int),
                )
            },
            None => {
                &&& final(m).dynsym@ == old(m).dynsym@
                &&& final(status_create_agents)@ == old(status_create_agents)@
            },
        },
{
    proof {
        lemma_status_func_name_no_nul();
    }
    let func = status_func_name();
    let symbol = format_create_agent_symbol(m.name.as_slice(), func.as_slice());
    proof {
        lemma_mangled_no_nul(old(m).name@, status_func_name_spec());
    }
    match crate::resolver::get_symbol_by_name(m, symbol.as_slice()) {
        Some(i) => {
            let sym = m.dynsym[i];
            let original_addr = sym.st_value.wrapping_add(m.base);
            let code_len = m.code.len();
            let start: usize = if sym.st_value / 4 <= code_len as u64 {
                (sym.st_value / 4) as usize
            } else {
                code_len
            };
            let hashes = read_hashes_from_executable(m.code.as_slice(), start);
            crate::hooks::symbol_replace(m, i, redirect, None, slots);
            let name_copy = copy_bytes(m.name.as_slice());
            let entry = StatusCreateAgentInfo { module: name_copy, original: original_addr, hashes };
            status_create_agents.push(entry);
            proof {
                assert(final(status_create_agents)@.drop_last() =~= old(status_create_agents)@);
            }
            true
        },
        None => false,
    }
}

/// Redirect both creation entry points (plain and shared) of one category
/// for a freshly loaded module.
pub fn patch_create_agent_animcmd(
    m: &mut crate::resolver::ModuleObject,
    category: Category,
    redirect_unshared: u64,
    redirect_shared: u64,
    create_agents: &mut Vec<CreateAgentInfo>,
    slots: &mut Slots,
) -> (r: (bool, bool))
    requires
        old(m).wf(),
        old(m).name@.len() + 48 <= usize::MAX,
    ensures
        final(m).wf(),
        crate::hooks::same_shape(*old(m), *final(m)),
        final(m).dynsym@ == patch_sym_spec(
            *old(m),
            patch_sym_spec(
                *old(m),
                old(m).dynsym@,
                mangled_symbol_spec(old(m).name@, category_func_name_spec(category, false)),
                redirect_unshared,
            ),
            mangled_symbol_spec(old(m).name@, category_func_name_spec(category, true)),
            redirect_shared,
        ),
        final(slots).values@ == old(slots).values@,
        r.0 == (old(m).resolve_spec(
            mangled_symbol_spec(old(m).name@, category_func_name_spec(category, false)),
        ) is Some),
        r.1 == (old(m).resolve_spec(
            mangled_symbol_spec(old(m).name@, category_func_name_spec(category, true)),
        ) is Some),
        final(create_agents)@.len() == old(create_agents)@.len() + (if r.0 {
            1int
        } else {
            0int
        }) + (if r.1 {
            1int
        } else {
            0int
        }),
        forall|j: int|
            0 <= j < old(create_agents)@.len() ==> final(create_agents)@[j] == old(
                create_agents,
            )@[j],
        r.0 ==> match old(m).resolve_spec(
            mangled_symbol_spec(old(m).name@, category_func_name_spec(category, false)),
        ) {
            Some(i) => {
            let entry = final(create_agents)@[old(create_agents)@.len() as int];
            &&& entry.module@ == old(m).name@
            &&& entry.category == category
            &&& entry.is_share == false
            &&& entry.original == old(m).sym_addr(i)
            &&& entry.hashes@ == recover_hashes(
                old(m).code@,
                scan_start(old(m).dynsym@[i].st_value, old(m).code@.len() as int),
            )
            },
            None => true,
        },
        r.1 ==> match old(m).resolve_spec(
            mangled_symbol_spec(old(m).name@, category_func_name_spec(category, true)),
        ) {
            Some(i) => {
            let entry = final(create_agents)@.last();
            &&& entry.module@ == old(m).name@
            &&& entry.category == category
            &&& entry.is_share == true
            &&& entry.original == vstd::wrapping::u64_specs::wrapping_add(
                patched_dynsym(
                    old(m).dynsym@,
                    match old(m).resolve_spec(
                        mangled_symbol_spec(
                            old(m).name@,
                            category_func_name_spec(category, false),
                        ),
                    ) {
                        Some(i1) => i1,
                        None => -1,
                    },
                    redirect_unshared,
                    old(m).base,
                )[i].st_value,
                old(m).base,
            )
            &&& entry.hashes@ == recover_hashes(
                old(m).code@,
                scan_start(
                    patched_dynsym(
                        old(m).dynsym@,
                        match old(m).resolve_spec(
                            mangled_symbol_spec(
                                old(m).name@,
                                category_func_name_spec(category, false),
                            ),
                        ) {
                            Some(i1) => i1,
                            None => -1,
                        },
                        redirect_unshared,
                        old(m).base,
                    )[i].st_value,
                    old(m).code@.len() as int,
                ),
            )
            },
            None => true,
        },
{
    proof {
        lemma_category_func_name_no_nul(category, false);
        lemma_category_func_name_no_nul(category, true);
    }
    let ghost sym1 = mangled_symbol_spec(old(m).name@, category_func_name_spec(category, false));
    let ghost sym2 = mangled_symbol_spec(old(m).name@, category_func_name_spec(category, true));
    let func1 = category_func_name(category, false);
    let r0 = patch_create_agent_symbol(
        m,
        func1.as_slice(),
        category,
        false,
        redirect_unshared,
        create_agents,
        slots,
    );
    proof {
        assert(m.dynsym@ == patch_sym_spec(*old(m), old(m).dynsym@, sym1, redirect_unshared));
        crate::hooks::lemma_same_shape_resolve(*old(m), *m, sym2);
    }
    let ghost m_mid = *m;
    let func2 = category_func_name(category, true);
    let r1 = patch_create_agent_symbol(
        m,
        func2.as_slice(),
        category,
        true,
        redirect_shared,
        create_agents,
        slots,
    );
    proof {
        assert(m_mid.name@ == old(m).name@ && m_mid.base == old(m).base);
        assert(m.dynsym@ == patch_sym_spec(*old(m), m_mid.dynsym@, sym2, redirect_shared));
    }
    (r0, r1)
}

/// A mangled name never holds a NUL byte, as long as its variable pieces
/// hold none; the identities resolved here come from items' exported
/// names, which are NUL-terminated strings themselves.
pub proof fn lemma_mangled_no_nul(fighter: Seq<u8>, func: Seq<u8>)
    requires
        forall|k: int| 0 <= k < fighter.len() ==> fighter[k] != 0,
        forall|k: int| 0 <= k < func.len() ==> func[k] != 0,
    ensures
        forall|k: int|
            0 <= k < mangled_symbol_spec(fighter, func).len() ==> mangled_symbol_spec(
                fighter,
                func,
            )[k] != 0,
{
    lemma_dec_digits_no_nul(create_agent_func_name_spec(fighter, func).len());
}

/// Creation entry-point name pieces hold no NUL byte.
pub proof fn lemma_category_func_name_no_nul(category: Category, is_share: bool)
    ensures
        forall|k: int|
            0 <= k < category_func_name_spec(category, is_share).len()
                ==> category_func_name_spec(category, is_share)[k] != 0,
{
}

/// The conditional entry-point name piece holds no NUL byte.
pub proof fn lemma_status_func_name_no_nul()
    ensures
        forall|k: int| 0 <= k < status_func_name_spec().len() ==> status_func_name_spec()[k] != 0,
{
}

/// Decimal digits are never NUL bytes.
pub proof fn lemma_dec_digits_no_nul(n: nat)
    ensures
        forall|k: int| 0 <= k < dec_digits(n).len() ==> dec_digits(n)[k] != 0,
    decreases n,
{
    if n < 10 {
        assert(dec_digits(n) == seq![(0x30 + n) as u8]);
        assert(dec_digits(n)[0] == (0x30 + n) as u8);
        assert((0x30 + n) as u8 != 0);
    } else {
        lemma_dec_digits_no_nul(n / 10);
        let prev = dec_digits(n / 10);
        assert(dec_digits(n) == prev.push((0x30 + n % 10) as u8));
        assert forall|k: int| 0 <= k < dec_digits(n).len() implies dec_digits(n)[k] != 0 by {
            if k < prev.len() {
                assert(dec_digits(n)[k] == prev[k]);
            } else {
                assert(dec_digits(n)[k] == (0x30 + n % 10) as u8);
                assert((0x30 + n % 10) as u8 != 0);
            }
        }
    }
}

} // verus!
