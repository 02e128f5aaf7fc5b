//! The script override registry: category-partitioned tables mapping a
//! target identity (an agent) and a script key to a registered replacement,
//! with priority-based conflict resolution.  Within one category, one agent
//! and one script key hold at most one record: a normal-priority record
//! always wins, a second normal-priority registration is rejected, and a
//! low-priority record is replaced by any later registration at its key.

use vstd::prelude::*;

use crate::RegisterOutcome;

verus! {

/// The disjoint script categories.  A lookup in one category never finds a
/// record from another.
#[allow(non_camel_case_types)]
#[derive(Clone, Copy, PartialEq, Eq, Structural, Debug)]
pub enum Category {
    ACMD_GAME,
    ACMD_EFFECT,
    ACMD_SOUND,
    ACMD_EXPRESSION,
}

/// One registered script override: the target agent and script identities
/// (opaque 64-bit keyed hashes, matched by exact equality), its priority,
/// the replacement code address (`bind_fn`), an optional backup slot for
/// the caller, and the observed pre-patch address (`backup`).
#[derive(Clone, Copy)]
pub struct ScriptInfo {
    pub agent: u64,
    pub script: u64,
    pub category: Category,
    pub low_priority: bool,
    pub bind_fn: u64,
    pub original: Option<usize>,
    pub backup: u64,
}

/// Two records target the same key: same category, agent, and script.
pub open spec fn same_key(a: ScriptInfo, b: ScriptInfo) -> bool {
    a.category == b.category && a.agent == b.agent && a.script == b.script
}

/// The first index of `s` holding `x`'s key, if any.
pub open spec fn first_key_idx(s: Seq<ScriptInfo>, x: ScriptInfo) -> Option<int>
    decreases s.len(),
{
    if s.len() == 0 {
        None
    } else if same_key(s[0], x) {
        Some(0)
    } else {
        match first_key_idx(s.drop_first(), x) {
            Some(i) => Some(i + 1),
            None => None,
        }
    }
}

/// Characterization of [`first_key_idx`]: it is the least index holding the
/// key, or `None` when no index does.
pub proof fn lemma_first_key_idx_char(s: Seq<ScriptInfo>, x: ScriptInfo)
    ensures
        match first_key_idx(s, x) {
            Some(i) => 0 <= i < s.len() && same_key(s[i], x) && forall|j: int|
                0 <= j < i ==> !same_key(s[j], x),
            None => forall|j: int| 0 <= j < s.len() ==> !same_key(s[j], x),
        },
    decreases s.len(),
{
    if s.len() > 0 {
        lemma_first_key_idx_char(s.drop_first(), x);
        assert forall|j: int| 0 < j < s.len() implies s.drop_first()[j - 1] == s[j] by {}
    }
}

/// What one registration does: a free key appends the record (`Added`), a
/// key held by a low-priority record is replaced in place (`Replaced`),
/// and a key held by a normal-priority record keeps the existing record
/// and rejects the new one (`Rejected`).
pub open spec fn register_spec(records: Seq<ScriptInfo>, info: ScriptInfo) -> (
    Seq<ScriptInfo>,
    crate::RegisterOutcome,
) {
    match first_key_idx(records, info) {
        Some(j) => if records[j].low_priority {
            (records.update(j, info), crate::RegisterOutcome::Replaced)
        } else {
            (records, crate::RegisterOutcome::Rejected)
        },
        None => (records.push(info), crate::RegisterOutcome::Added),
    }
}

/// The table after a whole sequence of registrations, in order.
pub open spec fn register_all(records: Seq<ScriptInfo>, infos: Seq<ScriptInfo>) -> Seq<ScriptInfo>
    decreases infos.len(),
{
    if infos.len() == 0 {
        records
    } else {
        register_spec(register_all(records, infos.drop_last()), infos.last()).0
    }
}

/// How many of a sequence of registrations are rejected.
pub open spec fn count_rejected(records: Seq<ScriptInfo>, infos: Seq<ScriptInfo>) -> nat
    decreases infos.len(),
{
    if infos.len() == 0 {
        0
    } else {
        let prev = count_rejected(records, infos.drop_last());
        if register_spec(register_all(records, infos.drop_last()), infos.last()).1
            == crate::RegisterOutcome::Rejected {
            prev + 1
        } else {
            prev
        }
    }
}

/// For every order in which any number of normal-priority script overrides
/// are registered at one free category + agent + script key, exactly one
/// wins — the first registered — and every later one is rejected with a
/// reported conflict.
pub proof fn lemma_normal_priority_first_wins(
    records: Seq<ScriptInfo>,
    infos: Seq<ScriptInfo>,
)
    requires
        infos.len() >= 1,
        forall|i: int| 0 <= i < infos.len() ==> !(#[trigger] infos[i]).low_priority,
        forall|i: int| 0 <= i < infos.len() ==> same_key(#[trigger] infos[i], infos[0]),
        forall|j: int| 0 <= j < records.len() ==> !same_key(#[trigger] records[j], infos[0]),
    ensures
        register_all(records, infos) == records.push(infos[0]),
        count_rejected(records, infos) == infos.len() - 1,
    decreases infos.len(),
{
    reveal_with_fuel(register_all, 3);
    reveal_with_fuel(count_rejected, 3);
    if infos.len() == 1 {
        lemma_first_key_idx_char(records, infos[0]);
        match first_key_idx(records, infos[0]) {
            Some(w) => {
                assert(!same_key(records[w], infos[0]));
            },
            None => {},
        }
        assert(infos.drop_last() =~= Seq::<ScriptInfo>::empty());
        assert(register_all(records, infos) == register_spec(records, infos[0]).0);
    } else {
        let prefix = infos.drop_last();
        assert(prefix[0] == infos[0]);
        assert forall|i: int| 0 <= i < prefix.len() implies !(#[trigger] prefix[i]).low_priority
            && same_key(prefix[i], prefix[0]) by {
            assert(prefix[i] == infos[i]);
        }
        lemma_normal_priority_first_wins(records, prefix);
        let mid = records.push(infos[0]);
        let x = infos.last();
        lemma_first_key_idx_char(mid, x);
        assert(same_key(mid[records.len() as int], x)) by {
            assert(same_key(x, infos[0]));
        }
        match first_key_idx(mid, x) {
            Some(w) => {
                if w < records.len() {
                    assert(mid[w] == records[w]);
                    assert(same_key(records[w], x));
                    assert(same_key(records[w], infos[0]));
                } else {
                    assert(w == records.len());
                    assert(!mid[w].low_priority);
                }
            },
            None => {
                assert(!same_key(mid[records.len() as int], x));
            },
        }
        assert(register_spec(mid, x) == (mid, crate::RegisterOutcome::Rejected));
    }
}

/// The records of `s` whose replacement address lies outside `[begin, end)`,
/// in order.
pub open spec fn records_outside_range(s: Seq<ScriptInfo>, begin: u64, end: u64) -> Seq<
    ScriptInfo,
>
    decreases s.len(),
{
    if s.len() == 0 {
        Seq::empty()
    } else {
        let rest = records_outside_range(s.drop_last(), begin, end);
        if crate::in_range(s.last().bind_fn, begin, end) {
            rest
        } else {
            rest.push(s.last())
        }
    }
}

/// Every record the range filter keeps comes from the input.
pub proof fn lemma_outside_range_elems(s: Seq<ScriptInfo>, begin: u64, end: u64)
    ensures
        forall|k: int|
            0 <= k < records_outside_range(s, begin, end).len() ==> exists|j: int|
                0 <= j < s.len() && #[trigger] records_outside_range(s, begin, end)[k] == s[j],
    decreases s.len(),
{
    if s.len() > 0 {
        lemma_outside_range_elems(s.drop_last(), begin, end);
        let rest = records_outside_range(s.drop_last(), begin, end);
        assert forall|k: int|
            0 <= k < records_outside_range(s, begin, end).len() implies exists|j: int|
            0 <= j < s.len() && #[trigger] records_outside_range(s, begin, end)[k] == s[j] by {
            if k < rest.len() {
                let j = choose|j: int| 0 <= j < s.drop_last().len() && rest[k] == s.drop_last()[j];
                assert(records_outside_range(s, begin, end)[k] == s[j]);
            } else {
                assert(records_outside_range(s, begin, end)[k] == s[s.len() - 1]);
            }
        }
    }
}

/// Every record the range filter keeps has its replacement outside the
/// range, and every record with a replacement outside the range is kept:
/// the purge removes exactly the records whose code lies in `[begin, end)`.
pub proof fn lemma_outside_range_is_outside(s: Seq<ScriptInfo>, begin: u64, end: u64)
    ensures
        forall|k: int|
            0 <= k < records_outside_range(s, begin, end).len() ==> !crate::in_range(
                (#[trigger] records_outside_range(s, begin, end)[k]).bind_fn,
                begin,
                end,
            ),
        forall|j: int|
            0 <= j < s.len() && !crate::in_range((#[trigger] s[j]).bind_fn, begin, end)
                ==> exists|k: int|
                0 <= k < records_outside_range(s, begin, end).len()
                    && #[trigger] records_outside_range(s, begin, end)[k] == s[j],
    decreases s.len(),
{
    if s.len() > 0 {
        lemma_outside_range_is_outside(s.drop_last(), begin, end);
        let rest = records_outside_range(s.drop_last(), begin, end);
        let whole = records_outside_range(s, begin, end);
        assert forall|k: int|
            0 <= k < whole.len() implies !crate::in_range(
            (#[trigger] whole[k]).bind_fn,
            begin,
            end,
        ) by {
            if k < rest.len() {
                assert(whole[k] == rest[k]);
            } else {
                assert(whole[k] == s[s.len() - 1]);
            }
        }
        assert forall|j: int|
            0 <= j < s.len() && !crate::in_range((#[trigger] s[j]).bind_fn, begin, end) implies exists|k: int|
            0 <= k < whole.len() && #[trigger] whole[k] == s[j] by {
            if j == s.len() - 1 {
                assert(whole[whole.len() - 1] == s[j]);
            } else {
                assert(s.drop_last()[j] == s[j]);
                let k = choose|k: int| 0 <= k < rest.len() && #[trigger] rest[k] == s.drop_last()[j];
                assert(whole[k] == s[j]);
            }
        }
    }
}

/// The range filter keeps keys pairwise distinct.
pub proof fn lemma_outside_range_distinct(s: Seq<ScriptInfo>, begin: u64, end: u64)
    requires
        forall|i: int, j: int| 0 <= i < j < s.len() ==> !same_key(s[i], s[j]),
    ensures
        forall|i: int, j: int|
            0 <= i < j < records_outside_range(s, begin, end).len() ==> !same_key(
                records_outside_range(s, begin, end)[i],
                records_outside_range(s, begin, end)[j],
            ),
    decreases s.len(),
{
    if s.len() > 0 {
        lemma_outside_range_distinct(s.drop_last(), begin, end);
        lemma_outside_range_elems(s.drop_last(), begin, end);
        let rest = records_outside_range(s.drop_last(), begin, end);
        let whole = records_outside_range(s, begin, end);
        assert forall|i: int, j: int| 0 <= i < j < whole.len() implies !same_key(
            whole[i],
            whole[j],
        ) by {
            if j < rest.len() {
                assert(whole[i] == rest[i] && whole[j] == rest[j]);
            } else {
                assert(whole[i] == rest[i] && whole[j] == s[s.len() - 1]);
                let w = choose|w: int|
                    0 <= w < s.drop_last().len() && rest[i] == s.drop_last()[w];
                assert(s[w] == rest[i]);
                assert(!same_key(s[w], s[s.len() - 1]));
            }
        }
    }
}

/// The per-category script override tables, kept as one record list with a
/// category tag; categories never cross-match.
pub struct AcmdRegistry {
    pub records: Vec<ScriptInfo>,
}

impl AcmdRegistry {
    /// An empty registry.
    pub fn new() -> (r: AcmdRegistry)
        ensures
            r.records@.len() == 0,
            r.wf(),
    {
        AcmdRegistry { records: Vec::new() }
    }

    /// At most one record per category + agent + script key.
    pub open spec fn wf(self) -> bool {
        forall|i: int, j: int|
            0 <= i < j < self.records@.len() ==> !same_key(self.records@[i], self.records@[j])
    }

    /// Some record holds `info`'s key.
    pub open spec fn occupied(self, info: ScriptInfo) -> bool {
        exists|j: int| 0 <= j < self.records@.len() && same_key(self.records@[j], info)
    }

    /// Register a script override.  A free key appends the record; a key
    /// held by a low-priority record is replaced; a key held by a
    /// normal-priority record rejects the new registration and keeps the
    /// existing record.
    pub fn register(&mut self, info: ScriptInfo) -> (r: RegisterOutcome)
        requires
            old(self).wf(),
        ensures
            final(self).wf(),
            !old(self).occupied(info) ==> final(self).records@ == old(self).records@.push(info)
                && r == RegisterOutcome::Added,
            forall|j: int| #![trigger old(self).records@[j]]
                0 <= j < old(self).records@.len() && same_key(old(self).records@[j], info)
                    ==> if old(self).records@[j].low_priority {
                    final(self).records@ == old(self).records@.update(j, info) && r
                        == RegisterOutcome::Replaced
                } else {
                    final(self).records@ == old(self).records@ && r == RegisterOutcome::Rejected
                },
            r == RegisterOutcome::Added <==> !old(self).occupied(info),
            (final(self).records@, r) == register_spec(old(self).records@, info),
    {
        proof {
            lemma_first_key_idx_char(old(self).records@, info);
        }
        let n = self.records.len();
        let mut j: usize = 0;
        while j < n
            invariant
                n == self.records@.len(),
                0 <= j <= n,
                self.wf(),
                self.records@ == old(self).records@,
                forall|k: int| 0 <= k < j ==> !same_key(self.records@[k], info),
            decreases n - j,
        {
            let existing = &self.records[j];
            if existing.category == info.category && existing.agent == info.agent
                && existing.script == info.script {
                proof {
                    let orig = old(self).records@;
                    assert(same_key(orig[j as int], info));
                    assert forall|k: int|
                        0 <= k < orig.len() && same_key(orig[k], info) implies k == j as int by {
                        if k < j as int {
                            assert(!same_key(orig[k], orig[j as int]));
                        } else if k > j as int {
                            assert(!same_key(orig[j as int], orig[k]));
                        }
                    }
                    lemma_first_key_idx_char(orig, info);
                    assert(first_key_idx(orig, info) == Some(j as int));
                }
                if existing.low_priority {
                    self.records.set(j, info);
                    proof {
                        let orig = old(self).records@;
                        assert forall|i1: int, i2: int|
                            0 <= i1 < i2 < self.records@.len() implies !same_key(
                            self.records@[i1],
                            self.records@[i2],
                        ) by {
                            assert(same_key(orig[j as int], info));
                            if i1 == j as int {
                                assert(!same_key(orig[i1], orig[i2]));
                                assert(self.records@[i1] == info);
                                assert(self.records@[i2] == orig[i2]);
                            } else if i2 == j as int {
                                assert(!same_key(orig[i1], orig[i2]));
                                assert(self.records@[i1] == orig[i1]);
                                assert(self.records@[i2] == info);
                            } else {
                                assert(!same_key(orig[i1], orig[i2]));
                                assert(self.records@[i1] == orig[i1]);
                                assert(self.records@[i2] == orig[i2]);
                            }
                        }
                    }
                    return RegisterOutcome::Replaced;
                } else {
                    return RegisterOutcome::Rejected;
                }
            }
            j = j + 1;
        }
        self.records.push(info);
        proof {
            assert forall|i1: int, i2: int|
                0 <= i1 < i2 < self.records@.len() implies !same_key(
                self.records@[i1],
                self.records@[i2],
            ) by {
                if i2 == self.records@.len() - 1 {
                    assert(self.records@[i1] == old(self).records@[i1]);
                }
            }
            match first_key_idx(old(self).records@, info) {
                Some(w) => {
                    assert(!same_key(old(self).records@[w], info));
                },
                None => {},
            }
        }
        RegisterOutcome::Added
    }

    /// Drop every record whose replacement address lies in `[begin, end)`:
    /// the code it points to belongs to a module that is unloading.
    pub fn remove_in_range(&mut self, begin: u64, end: u64)
        requires
            old(self).wf(),
        ensures
            final(self).wf(),
            final(self).records@ == records_outside_range(old(self).records@, begin, end),
    {
        let n = self.records.len();
        let mut kept: Vec<ScriptInfo> = Vec::new();
        let mut i: usize = 0;
        proof {
            assert(self.records@.take(0) =~= Seq::<ScriptInfo>::empty());
        }
        while i < n
            invariant
                n == self.records@.len(),
                0 <= i <= n,
                self.wf(),
                kept@ == records_outside_range(self.records@.take(i as int), begin, end),
            decreases n - i,
        {
            proof {
                assert(self.records@.take(i + 1).drop_last() =~= self.records@.take(i as int));
                assert(self.records@.take(i + 1).last() == self.records@[i as int]);
            }
            let rec = self.records[i];
            if !(begin <= rec.bind_fn && rec.bind_fn < end) {
                kept.push(rec);
            }
            i = i + 1;
        }
        proof {
            assert(self.records@.take(n as int) =~= self.records@);
            lemma_outside_range_distinct(self.records@, begin, end);
        }
        self.records = kept;
    }
}

} // verus!
