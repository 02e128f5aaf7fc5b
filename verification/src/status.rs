//! The conditional ("status") override registry.  A record targets an agent
//! identity plus a status/condition key pair whose values may still be
//! symbolic at registration time.  Before the condition-constant table is
//! available, registrations are queued without comparison; when the module
//! that defines the table loads, a one-time finalize pass resolves every
//! key, keeps all normal-priority records (first registration wins, later
//! duplicates are counted as conflicts), keeps a low-priority record only
//! when no normal-priority record holds its key, and de-duplicates
//! low-priority records among themselves (later wins).  After finalize,
//! registration compares resolved keys immediately.

use vstd::prelude::*;

use crate::RegisterOutcome;
use crate::constant::ConstTable;
use crate::constant::LuaConstant;

verus! {

/// The agent key that shared ("common") overrides are registered under.
pub const COMMON_AGENT_HASH: u64 = 0x6E5EC7051;

/// One conditional override: the target agent, the status and condition
/// keys (possibly still symbolic), its priority, the replacement code
/// address, an optional backup slot, and the observed pre-patch address.
#[derive(Clone, Copy)]
pub struct StatusInfo {
    pub agent: u64,
    pub status: LuaConstant,
    pub condition: LuaConstant,
    pub low_priority: bool,
    pub replacement: u64,
    pub original: Option<usize>,
    pub backup: u64,
}

impl StatusInfo {
    /// Both keys can be resolved against `t`.
    pub open spec fn resolvable(self, t: ConstTable) -> bool {
        self.status.resolvable(t) && self.condition.resolvable(t)
    }
}

/// Two records hold the same key once resolved: same agent, same status
/// value, same condition value.
pub open spec fn eq_key(a: StatusInfo, b: StatusInfo, t: ConstTable) -> bool {
    a.agent == b.agent && a.status.value_spec(t) == b.status.value_spec(t)
        && a.condition.value_spec(t) == b.condition.value_spec(t)
}

/// Some record of `s` holds `x`'s key.
pub open spec fn contains_key(s: Seq<StatusInfo>, x: StatusInfo, t: ConstTable) -> bool {
    exists|j: int| 0 <= j < s.len() && eq_key(s[j], x, t)
}

/// The first index of `s` holding `x`'s key, if any.
pub open spec fn first_key_idx(s: Seq<StatusInfo>, x: StatusInfo, t: ConstTable) -> Option<int>
    decreases s.len(),
{
    if s.len() == 0 {
        None
    } else if eq_key(s[0], x, t) {
        Some(0)
    } else {
        match first_key_idx(s.drop_first(), x, t) {
            Some(i) => Some(i + 1),
            None => None,
        }
    }
}

/// The normal-priority records that survive finalize: processed in order,
/// a record is kept when no earlier kept record holds its key (first
/// registration wins).
pub open spec fn high_kept(s: Seq<StatusInfo>, t: ConstTable) -> Seq<StatusInfo>
    decreases s.len(),
{
    if s.len() == 0 {
        Seq::empty()
    } else {
        let prev = high_kept(s.drop_last(), t);
        let x = s.last();
        if !x.low_priority && !contains_key(prev, x, t) {
            prev.push(x)
        } else {
            prev
        }
    }
}

/// How many normal-priority records finalize drops as duplicates of an
/// earlier normal-priority record at the same key.
pub open spec fn high_conflicts(s: Seq<StatusInfo>, t: ConstTable) -> nat
    decreases s.len(),
{
    if s.len() == 0 {
        0
    } else {
        let prev = high_conflicts(s.drop_last(), t);
        let x = s.last();
        if !x.low_priority && contains_key(high_kept(s.drop_last(), t), x, t) {
            prev + 1
        } else {
            prev
        }
    }
}

/// The low-priority records that survive finalize, given the surviving
/// normal-priority records `highs`: a low-priority record is dropped when a
/// normal-priority record holds its key, and otherwise de-duplicated
/// against the other low-priority records — a later registration replaces
/// the earlier one in place.
pub open spec fn low_kept(s: Seq<StatusInfo>, highs: Seq<StatusInfo>, t: ConstTable) -> Seq<
    StatusInfo,
>
    decreases s.len(),
{
    if s.len() == 0 {
        Seq::empty()
    } else {
        let prev = low_kept(s.drop_last(), highs, t);
        let x = s.last();
        if !x.low_priority || contains_key(highs, x, t) {
            prev
        } else {
            match first_key_idx(prev, x, t) {
                Some(i) => prev.update(i, x),
                None => prev.push(x),
            }
        }
    }
}

/// How many low-priority records finalize drops because a normal-priority
/// record holds their key.
pub open spec fn low_conflicts(s: Seq<StatusInfo>, highs: Seq<StatusInfo>, t: ConstTable) -> nat
    decreases s.len(),
{
    if s.len() == 0 {
        0
    } else {
        let prev = low_conflicts(s.drop_last(), highs, t);
        let x = s.last();
        if x.low_priority && contains_key(highs, x, t) {
            prev + 1
        } else {
            prev
        }
    }
}

/// The record list after the finalize pass: the surviving low-priority
/// records followed by the surviving normal-priority records.
pub open spec fn finalize_spec(s: Seq<StatusInfo>, t: ConstTable) -> Seq<StatusInfo> {
    low_kept(s, high_kept(s, t), t) + high_kept(s, t)
}

/// The conflicts the finalize pass reports for one record list.
pub open spec fn finalize_conflicts_spec(s: Seq<StatusInfo>, t: ConstTable) -> nat {
    high_conflicts(s, t) + low_conflicts(s, high_kept(s, t), t)
}

/// The records of `s` whose replacement address lies outside `[begin, end)`,
/// in order.
pub open spec fn status_outside_range(s: Seq<StatusInfo>, begin: u64, end: u64) -> Seq<
    StatusInfo,
>
    decreases s.len(),
{
    if s.len() == 0 {
        Seq::empty()
    } else {
        let rest = status_outside_range(s.drop_last(), begin, end);
        if crate::in_range(s.last().replacement, begin, end) {
            rest
        } else {
            rest.push(s.last())
        }
    }
}

/// What one registration against a resolved table does: a free key appends
/// the record (`Added`), a key held by a low-priority record is replaced in
/// place (`Replaced`), and a key held by a normal-priority record keeps the
/// existing record and rejects the new one (`Rejected`).
pub open spec fn register_spec(records: Seq<StatusInfo>, info: StatusInfo, t: ConstTable) -> (
    Seq<StatusInfo>,
    crate::RegisterOutcome,
) {
    match first_key_idx(records, info, t) {
        Some(j) => if records[j].low_priority {
            (records.update(j, info), crate::RegisterOutcome::Replaced)
        } else {
            (records, crate::RegisterOutcome::Rejected)
        },
        None => (records.push(info), crate::RegisterOutcome::Added),
    }
}

/// The table after a whole sequence of registrations, in order.
pub open spec fn register_all(records: Seq<StatusInfo>, infos: Seq<StatusInfo>, t: ConstTable) -> Seq<
    StatusInfo,
>
    decreases infos.len(),
{
    if infos.len() == 0 {
        records
    } else {
        register_spec(register_all(records, infos.drop_last(), t), infos.last(), t).0
    }
}

/// How many of a sequence of registrations are rejected.
pub open spec fn count_rejected(records: Seq<StatusInfo>, infos: Seq<StatusInfo>, t: ConstTable) -> nat
    decreases infos.len(),
{
    if infos.len() == 0 {
        0
    } else {
        let prev = count_rejected(records, infos.drop_last(), t);
        if register_spec(register_all(records, infos.drop_last(), t), infos.last(), t).1
            == crate::RegisterOutcome::Rejected {
            prev + 1
        } else {
            prev
        }
    }
}

/// For every order in which any number of normal-priority overrides are
/// registered at one free identity + condition key, exactly one wins — the
/// first registered — and every later one is rejected with a reported
/// conflict.
pub proof fn lemma_normal_priority_first_wins(
    records: Seq<StatusInfo>,
    infos: Seq<StatusInfo>,
    t: ConstTable,
)
    requires
        infos.len() >= 1,
        forall|i: int| 0 <= i < infos.len() ==> !(#[trigger] infos[i]).low_priority,
        forall|i: int| 0 <= i < infos.len() ==> eq_key(#[trigger] infos[i], infos[0], t),
        forall|j: int| 0 <= j < records.len() ==> !eq_key(#[trigger] records[j], infos[0], t),
    ensures
        register_all(records, infos, t) == records.push(infos[0]),
        count_rejected(records, infos, t) == infos.len() - 1,
    decreases infos.len(),
{
    reveal_with_fuel(register_all, 3);
    reveal_with_fuel(count_rejected, 3);
    if infos.len() == 1 {
        lemma_first_key_idx_char(records, infos[0], t);
        match first_key_idx(records, infos[0], t) {
            Some(w) => {
                assert(!eq_key(records[w], infos[0], t));
            },
            None => {},
        }
        assert(infos.drop_last() =~= Seq::<StatusInfo>::empty());
        assert(register_all(records, infos, t) == register_spec(records, infos[0], t).0);
    } else {
        let prefix = infos.drop_last();
        assert(prefix[0] == infos[0]);
        assert forall|i: int| 0 <= i < prefix.len() implies !(#[trigger] prefix[i]).low_priority
            && eq_key(prefix[i], prefix[0], t) by {
            assert(prefix[i] == infos[i]);
        }
        lemma_normal_priority_first_wins(records, prefix, t);
        let mid = records.push(infos[0]);
        let x = infos.last();
        lemma_first_key_idx_char(mid, x, t);
        assert(eq_key(mid[records.len() as int], x, t)) by {
            assert(eq_key(x, infos[0], t));
        }
        match first_key_idx(mid, x, t) {
            Some(w) => {
                if w < records.len() {
                    assert(mid[w] == records[w]);
                    assert(eq_key(records[w], x, t));
                    assert(eq_key(records[w], infos[0], t));
                } else {
                    assert(w == records.len());
                    assert(!mid[w].low_priority);
                }
            },
            None => {
                assert(!eq_key(mid[records.len() as int], x, t));
            },
        }
        assert(register_spec(mid, x, t) == (mid, crate::RegisterOutcome::Rejected));
    }
}

/// The finalize pass obeys the same law for overrides queued before the
/// constant table was available: of any number of normal-priority records
/// at one key, the first registered survives and the rest are counted as
/// conflicts.
pub proof fn lemma_finalize_normal_first_wins(s: Seq<StatusInfo>, t: ConstTable)
    requires
        s.len() >= 1,
        forall|i: int| 0 <= i < s.len() ==> !(#[trigger] s[i]).low_priority,
        forall|i: int| 0 <= i < s.len() ==> eq_key(#[trigger] s[i], s[0], t),
    ensures
        high_kept(s, t) =~= seq![s[0]],
        high_conflicts(s, t) == s.len() - 1,
        finalize_spec(s, t) =~= seq![s[0]],
        finalize_conflicts_spec(s, t) == s.len() - 1,
    decreases s.len(),
{
    reveal_with_fuel(high_kept, 3);
    reveal_with_fuel(high_conflicts, 3);
    lemma_all_high_low_kept_empty(s, high_kept(s, t), t);
    if s.len() == 1 {
        assert(s.drop_last() =~= Seq::<StatusInfo>::empty());
        assert(high_kept(s, t) =~= seq![s[0]]);
        assert(finalize_spec(s, t) =~= Seq::<StatusInfo>::empty() + high_kept(s, t));
        assert(finalize_spec(s, t) =~= seq![s[0]]);
    } else {
        let prefix = s.drop_last();
        assert(prefix[0] == s[0]);
        assert forall|i: int| 0 <= i < prefix.len() implies !(#[trigger] prefix[i]).low_priority
            && eq_key(prefix[i], prefix[0], t) by {
            assert(prefix[i] == s[i]);
        }
        lemma_finalize_normal_first_wins(prefix, t);
        let x = s.last();
        assert(eq_key(high_kept(prefix, t)[0], x, t)) by {
            assert(high_kept(prefix, t)[0] == s[0]);
            assert(eq_key(x, s[0], t));
        }
        assert(contains_key(high_kept(prefix, t), x, t));
        assert(high_kept(s, t) == high_kept(prefix, t));
        assert(high_kept(s, t) =~= seq![s[0]]);
        assert(finalize_spec(s, t) =~= Seq::<StatusInfo>::empty() + high_kept(s, t));
        assert(finalize_spec(s, t) =~= seq![s[0]]);
    }
}

/// With only normal-priority records queued, the low-priority passes keep
/// and count nothing.
pub proof fn lemma_all_high_low_kept_empty(s: Seq<StatusInfo>, highs: Seq<StatusInfo>, t: ConstTable)
    requires
        forall|i: int| 0 <= i < s.len() ==> !(#[trigger] s[i]).low_priority,
    ensures
        low_kept(s, highs, t) =~= Seq::<StatusInfo>::empty(),
        low_conflicts(s, highs, t) == 0,
    decreases s.len(),
{
    if s.len() > 0 {
        assert forall|i: int| 0 <= i < s.drop_last().len() implies !(#[trigger] s.drop_last()[i]).low_priority by {
            assert(s.drop_last()[i] == s[i]);
        }
        lemma_all_high_low_kept_empty(s.drop_last(), highs, t);
        assert(!s.last().low_priority);
    }
}

/// For a low- and a normal-priority override registered at the same key in
/// either order before finalize, the record that survives finalize is
/// always the normal-priority one.
pub proof fn lemma_low_normal_pair_finalize(a: StatusInfo, b: StatusInfo, t: ConstTable)
    requires
        eq_key(a, b, t),
        a.low_priority != b.low_priority,
    ensures
        finalize_spec(seq![a, b], t) =~= seq![
            if a.low_priority {
                b
            } else {
                a
            },
        ],
{
    reveal_with_fuel(high_kept, 4);
    reveal_with_fuel(high_conflicts, 4);
    reveal_with_fuel(low_kept, 4);
    reveal_with_fuel(low_conflicts, 4);
    let s = seq![a, b];
    assert(s.drop_last() =~= seq![a]);
    assert(seq![a].drop_last() =~= Seq::<StatusInfo>::empty());
    assert(s.last() == b);
    assert(seq![a].last() == a);
    if a.low_priority {
        assert(high_kept(seq![a], t) =~= Seq::<StatusInfo>::empty());
        assert(high_kept(s, t) =~= seq![b]);
        let highs = high_kept(s, t);
        assert(eq_key(highs[0], a, t)) by {
            assert(highs[0] == b);
            assert(eq_key(b, a, t));
        }
        assert(contains_key(highs, a, t));
        assert(low_kept(seq![a], highs, t) =~= Seq::<StatusInfo>::empty());
        assert(low_kept(s, highs, t) =~= Seq::<StatusInfo>::empty());
        assert(finalize_spec(s, t) =~= seq![b]);
    } else {
        assert(high_kept(seq![a], t) =~= seq![a]);
        assert(eq_key(high_kept(seq![a], t)[0], b, t)) by {
            assert(high_kept(seq![a], t)[0] == a);
            assert(eq_key(a, b, t));
        }
        assert(contains_key(high_kept(seq![a], t), b, t));
        assert(high_kept(s, t) == high_kept(seq![a], t));
        let highs = high_kept(s, t);
        assert(low_kept(seq![a], highs, t) =~= Seq::<StatusInfo>::empty());
        assert(eq_key(highs[0], b, t));
        assert(contains_key(highs, b, t));
        assert(low_kept(s, highs, t) =~= Seq::<StatusInfo>::empty());
        assert(finalize_spec(s, t) =~= seq![a]);
    }
}

/// For a low- and a normal-priority override registered at one free key in
/// either order after finalize, the record that holds the key afterwards is
/// always the normal-priority one.
pub proof fn lemma_low_normal_pair_register(
    records: Seq<StatusInfo>,
    a: StatusInfo,
    b: StatusInfo,
    t: ConstTable,
)
    requires
        eq_key(a, b, t),
        a.low_priority != b.low_priority,
        forall|j: int| 0 <= j < records.len() ==> !eq_key(#[trigger] records[j], a, t),
    ensures
        register_all(records, seq![a, b], t) =~= records.push(
            if a.low_priority {
                b
            } else {
                a
            },
        ),
{
    reveal_with_fuel(register_all, 4);
    let s = seq![a, b];
    assert(s.drop_last() =~= seq![a]);
    assert(seq![a].drop_last() =~= Seq::<StatusInfo>::empty());
    lemma_first_key_idx_char(records, a, t);
    match first_key_idx(records, a, t) {
        Some(w) => {
            assert(!eq_key(records[w], a, t));
        },
        None => {},
    }
    assert(register_all(records, seq![a], t) == records.push(a));
    let mid = records.push(a);
    lemma_first_key_idx_char(mid, b, t);
    assert(eq_key(mid[records.len() as int], b, t)) by {
        assert(mid[records.len() as int] == a);
        assert(eq_key(a, b, t));
    }
    match first_key_idx(mid, b, t) {
        Some(w) => {
            if w < records.len() {
                assert(mid[w] == records[w]);
                assert(eq_key(records[w], b, t));
                assert(eq_key(records[w], a, t));
            } else {
                assert(w == records.len());
            }
        },
        None => {
            assert(!eq_key(mid[records.len() as int], b, t));
        },
    }
    if a.low_priority {
        assert(register_spec(mid, b, t).0 == mid.update(records.len() as int, b));
        assert(mid.update(records.len() as int, b) =~= records.push(b));
    } else {
        assert(register_spec(mid, b, t).0 == mid);
    }
}

/// Characterization of [`first_key_idx`]: it is the least index holding the
/// key, or `None` when no index does.
pub proof fn lemma_first_key_idx_char(s: Seq<StatusInfo>, x: StatusInfo, t: ConstTable)
    ensures
        match first_key_idx(s, x, t) {
            Some(i) => 0 <= i < s.len() && eq_key(s[i], x, t) && forall|j: int|
                0 <= j < i ==> !eq_key(s[j], x, t),
            None => forall|j: int| 0 <= j < s.len() ==> !eq_key(s[j], x, t),
        },
    decreases s.len(),
{
    if s.len() > 0 {
        lemma_first_key_idx_char(s.drop_first(), x, t);
        assert forall|j: int| 0 < j < s.len() implies s.drop_first()[j - 1] == s[j] by {}
    }
}

/// A list and a filter result: every record the filters keep comes from the
/// input list.
pub open spec fn all_from(result: Seq<StatusInfo>, source: Seq<StatusInfo>) -> bool {
    forall|k: int|
        0 <= k < result.len() ==> exists|j: int|
            0 <= j < source.len() && #[trigger] result[k] == #[trigger] source[j]
}

/// No two records of `s` hold the same key.
pub open spec fn distinct_keys(s: Seq<StatusInfo>, t: ConstTable) -> bool {
    forall|i: int, j: int| 0 <= i < j < s.len() ==> !eq_key(s[i], s[j], t)
}

/// Every record of `s` is resolvable against `t`.
pub open spec fn all_resolvable(s: Seq<StatusInfo>, t: ConstTable) -> bool {
    forall|i: int| 0 <= i < s.len() ==> (#[trigger] s[i]).resolvable(t)
}

/// The surviving normal-priority records come from the input, are all
/// normal priority, and hold pairwise distinct keys.
pub proof fn lemma_high_kept(s: Seq<StatusInfo>, t: ConstTable)
    ensures
        all_from(high_kept(s, t), s),
        distinct_keys(high_kept(s, t), t),
        forall|k: int| 0 <= k < high_kept(s, t).len() ==> !(#[trigger] high_kept(s, t)[k]).low_priority,
    decreases s.len(),
{
    if s.len() > 0 {
        lemma_high_kept(s.drop_last(), t);
        let prev = high_kept(s.drop_last(), t);
        let whole = high_kept(s, t);
        let x = s.last();
        assert forall|k: int| 0 <= k < whole.len() implies exists|j: int|
            0 <= j < s.len() && #[trigger] whole[k] == #[trigger] s[j] by {
            if k < prev.len() {
                let j = choose|j: int| 0 <= j < s.drop_last().len() && prev[k] == #[trigger] s.drop_last()[j];
                assert(whole[k] == s[j]);
            } else {
                assert(whole[k] == s[s.len() - 1]);
            }
        }
        if !x.low_priority && !contains_key(prev, x, t) {
            assert forall|i: int, j: int| 0 <= i < j < whole.len() implies !eq_key(
                whole[i],
                whole[j],
                t,
            ) by {
                if j == whole.len() - 1 {
                    assert(whole[i] == prev[i] && whole[j] == x);
                    assert(!eq_key(prev[i], x, t));
                }
            }
        }
    }
}

/// The surviving low-priority records come from the input, are all low
/// priority, hold pairwise distinct keys, and none of their keys is held by
/// a surviving normal-priority record.
pub proof fn lemma_low_kept(s: Seq<StatusInfo>, highs: Seq<StatusInfo>, t: ConstTable)
    ensures
        all_from(low_kept(s, highs, t), s),
        distinct_keys(low_kept(s, highs, t), t),
        forall|k: int|
            0 <= k < low_kept(s, highs, t).len() ==> (#[trigger] low_kept(s, highs, t)[k]).low_priority
                && !contains_key(highs, low_kept(s, highs, t)[k], t),
    decreases s.len(),
{
    if s.len() > 0 {
        lemma_low_kept(s.drop_last(), highs, t);
        let prev = low_kept(s.drop_last(), highs, t);
        let whole = low_kept(s, highs, t);
        let x = s.last();
        if !x.low_priority || contains_key(highs, x, t) {
            // whole == prev: everything carries over.
        } else {
            lemma_first_key_idx_char(prev, x, t);
            match first_key_idx(prev, x, t) {
                Some(i) => {
                    assert forall|k: int| 0 <= k < whole.len() implies exists|j: int|
                        0 <= j < s.len() && #[trigger] whole[k] == #[trigger] s[j] by {
                        if k == i {
                            assert(whole[k] == s[s.len() - 1]);
                        } else {
                            let j = choose|j: int|
                                0 <= j < s.drop_last().len() && prev[k] == #[trigger] s.drop_last()[j];
                            assert(whole[k] == prev[k] && prev[k] == s[j]);
                        }
                    }
                    assert forall|i1: int, i2: int| 0 <= i1 < i2 < whole.len() implies !eq_key(
                        whole[i1],
                        whole[i2],
                        t,
                    ) by {
                        if i1 == i {
                            assert(whole[i1] == x && whole[i2] == prev[i2]);
                            assert(eq_key(prev[i], x, t));
                            assert(!eq_key(prev[i], prev[i2], t));
                        } else if i2 == i {
                            assert(whole[i1] == prev[i1] && whole[i2] == x);
                            assert(eq_key(prev[i], x, t));
                            assert(!eq_key(prev[i1], prev[i], t));
                        } else {
                            assert(whole[i1] == prev[i1] && whole[i2] == prev[i2]);
                        }
                    }
                    assert forall|k: int| 0 <= k < whole.len() implies (#[trigger] whole[k]).low_priority
                        && !contains_key(highs, whole[k], t) by {
                        if k == i {
                            assert(whole[k] == x);
                        } else {
                            assert(whole[k] == prev[k]);
                        }
                    }
                },
                None => {
                    assert forall|k: int| 0 <= k < whole.len() implies exists|j: int|
                        0 <= j < s.len() && #[trigger] whole[k] == #[trigger] s[j] by {
                        if k < prev.len() {
                            let j = choose|j: int|
                                0 <= j < s.drop_last().len() && prev[k] == #[trigger] s.drop_last()[j];
                            assert(whole[k] == s[j]);
                        } else {
                            assert(whole[k] == s[s.len() - 1]);
                        }
                    }
                    assert forall|i1: int, i2: int| 0 <= i1 < i2 < whole.len() implies !eq_key(
                        whole[i1],
                        whole[i2],
                        t,
                    ) by {
                        if i2 == whole.len() - 1 {
                            assert(whole[i1] == prev[i1] && whole[i2] == x);
                            assert(!eq_key(prev[i1], x, t));
                        }
                    }
                },
            }
        }
    }
}

/// Finalize keeps keys pairwise distinct, keeps only resolvable records,
/// and reports at most one conflict per input record.
pub proof fn lemma_finalize_wf(s: Seq<StatusInfo>, t: ConstTable)
    requires
        all_resolvable(s, t),
    ensures
        distinct_keys(finalize_spec(s, t), t),
        all_resolvable(finalize_spec(s, t), t),
        finalize_conflicts_spec(s, t) <= s.len(),
{
    let highs = high_kept(s, t);
    let lows = low_kept(s, highs, t);
    lemma_high_kept(s, t);
    lemma_low_kept(s, highs, t);
    let whole = finalize_spec(s, t);
    assert forall|i: int, j: int| 0 <= i < j < whole.len() implies !eq_key(
        whole[i],
        whole[j],
        t,
    ) by {
        if j < lows.len() {
            assert(whole[i] == lows[i] && whole[j] == lows[j]);
        } else if i >= lows.len() {
            assert(whole[i] == highs[i - lows.len()] && whole[j] == highs[j - lows.len()]);
        } else {
            assert(whole[i] == lows[i] && whole[j] == highs[j - lows.len()]);
            assert(!contains_key(highs, lows[i], t));
            assert(eq_key(lows[i], whole[j], t) ==> eq_key(highs[j - lows.len()], lows[i], t));
        }
    }
    assert forall|k: int| 0 <= k < whole.len() implies (#[trigger] whole[k]).resolvable(t) by {
        if k < lows.len() {
            assert(whole[k] == lows[k]);
            let j = choose|j: int| 0 <= j < s.len() && lows[k] == #[trigger] s[j];
            assert(s[j].resolvable(t));
        } else {
            assert(whole[k] == highs[k - lows.len()]);
            let j = choose|j: int| 0 <= j < s.len() && highs[k - lows.len()] == #[trigger] s[j];
            assert(s[j].resolvable(t));
        }
    }
    lemma_conflict_bound(s, highs, t);
}

/// Every record the finalize pass keeps comes from the input list.
pub proof fn lemma_finalize_from(s: Seq<StatusInfo>, t: ConstTable)
    ensures
        forall|j: int|
            0 <= j < finalize_spec(s, t).len() ==> exists|w: int|
                0 <= w < s.len() && #[trigger] finalize_spec(s, t)[j] == s[w],
{
    let highs = high_kept(s, t);
    let lows = low_kept(s, highs, t);
    lemma_high_kept(s, t);
    lemma_low_kept(s, highs, t);
    assert forall|j: int| 0 <= j < finalize_spec(s, t).len() implies exists|w: int|
        0 <= w < s.len() && #[trigger] finalize_spec(s, t)[j] == s[w] by {
        if j < lows.len() {
            assert(finalize_spec(s, t)[j] == lows[j]);
            let w = choose|w: int| 0 <= w < s.len() && #[trigger] lows[j] == #[trigger] s[w];
            assert(finalize_spec(s, t)[j] == s[w]);
        } else {
            assert(finalize_spec(s, t)[j] == highs[j - lows.len()]);
            let w = choose|w: int|
                0 <= w < s.len() && #[trigger] highs[j - lows.len()] == #[trigger] s[w];
            assert(finalize_spec(s, t)[j] == s[w]);
        }
    }
}

/// Each input record is counted as a conflict at most once.
pub proof fn lemma_conflict_bound(s: Seq<StatusInfo>, highs: Seq<StatusInfo>, t: ConstTable)
    ensures
        high_conflicts(s, t) + low_conflicts(s, highs, t) <= s.len(),
    decreases s.len(),
{
    if s.len() > 0 {
        lemma_conflict_bound(s.drop_last(), highs, t);
    }
}

/// Compare two records' resolved keys.
fn keys_eq(a: &StatusInfo, b: &StatusInfo, t: &ConstTable) -> (r: bool)
    requires
        t.wf(),
        a.resolvable(*t),
        b.resolvable(*t),
    ensures
        r == eq_key(*a, *b, *t),
{
    if a.agent != b.agent {
        return false;
    }
    let a_status = a.status.eval(t);
    let b_status = b.status.eval(t);
    if a_status != b_status {
        return false;
    }
    let a_cond = a.condition.eval(t);
    let b_cond = b.condition.eval(t);
    a_cond == b_cond
}

/// Find the first record of `v` holding `x`'s key.
fn find_key_in(v: &Vec<StatusInfo>, x: &StatusInfo, t: &ConstTable) -> (r: Option<usize>)
    requires
        t.wf(),
        x.resolvable(*t),
        all_resolvable(v@, *t),
    ensures
        r == match first_key_idx(v@, *x, *t) {
            Some(i) => Some(i as usize),
            None => None::<usize>,
        },
        r is Some <==> contains_key(v@, *x, *t),
{
    proof {
        lemma_first_key_idx_char(v@, *x, *t);
    }
    let n = v.len();
    let mut i: usize = 0;
    while i < n
        invariant
            t.wf(),
            x.resolvable(*t),
            all_resolvable(v@, *t),
            n == v@.len(),
            0 <= i <= n,
            forall|j: int| 0 <= j < i ==> !eq_key(v@[j], *x, *t),
        decreases n - i,
    {
        if keys_eq(&v[i], x, t) {
            proof {
                lemma_first_key_idx_char(v@, *x, *t);
                match first_key_idx(v@, *x, *t) {
                    Some(w) => {
                        if w < i as int {
                            assert(!eq_key(v@[w], *x, *t));
                        }
                        if w > i as int {
                            assert(!eq_key(v@[i as int], *x, *t));
                        }
                    },
                    None => {
                        assert(!eq_key(v@[i as int], *x, *t));
                    },
                }
            }
            return Some(i);
        }
        i = i + 1;
    }
    proof {
        lemma_first_key_idx_char(v@, *x, *t);
        match first_key_idx(v@, *x, *t) {
            Some(w) => {
                assert(!eq_key(v@[w], *x, *t));
            },
            None => {},
        }
    }
    None
}

/// The one-time finalize pass over one record list.
fn finalize_list(list: &Vec<StatusInfo>, t: &ConstTable) -> (r: (Vec<StatusInfo>, usize))
    requires
        t.wf(),
        all_resolvable(list@, *t),
    ensures
        r.0@ == finalize_spec(list@, *t),
        r.1 == finalize_conflicts_spec(list@, *t),
{
    let n = list.len();
    let mut highs: Vec<StatusInfo> = Vec::new();
    let mut conflicts: usize = 0;
    let mut i: usize = 0;
    proof {
        assert(list@.take(0) =~= Seq::<StatusInfo>::empty());
        lemma_conflict_bound(list@, highs@, *t);
    }
    while i < n
        invariant
            t.wf(),
            all_resolvable(list@, *t),
            n == list@.len(),
            0 <= i <= n,
            highs@ == high_kept(list@.take(i as int), *t),
            all_resolvable(highs@, *t),
            conflicts == high_conflicts(list@.take(i as int), *t),
            conflicts <= i,
        decreases n - i,
    {
        proof {
            assert(list@.take(i + 1).drop_last() =~= list@.take(i as int));
            assert(list@.take(i + 1).last() == list@[i as int]);
        }
        let rec = list[i];
        if !rec.low_priority {
            match find_key_in(&highs, &rec, t) {
                Some(_) => {
                    conflicts = conflicts + 1;
                },
                None => {
                    highs.push(rec);
                },
            }
        }
        i = i + 1;
    }
    proof {
        assert(list@.take(n as int) =~= list@);
    }
    let high_conflict_count = conflicts;
    let ghost highs_full = highs@;
    let mut lows: Vec<StatusInfo> = Vec::new();
    let mut low_conflict_count: usize = 0;
    let mut i: usize = 0;
    proof {
        assert(list@.take(0) =~= Seq::<StatusInfo>::empty());
    }
    while i < n
        invariant
            t.wf(),
            all_resolvable(list@, *t),
            n == list@.len(),
            0 <= i <= n,
            highs@ == highs_full,
            all_resolvable(highs@, *t),
            lows@ == low_kept(list@.take(i as int), highs_full, *t),
            all_resolvable(lows@, *t),
            low_conflict_count == low_conflicts(list@.take(i as int), highs_full, *t),
            low_conflict_count <= i,
        decreases n - i,
    {
        proof {
            assert(list@.take(i + 1).drop_last() =~= list@.take(i as int));
            assert(list@.take(i + 1).last() == list@[i as int]);
        }
        let rec = list[i];
        if rec.low_priority {
            match find_key_in(&highs, &rec, t) {
                Some(_) => {
                    low_conflict_count = low_conflict_count + 1;
                },
                None => {
                    proof {
                        lemma_first_key_idx_char(lows@, rec, *t);
                    }
                    match find_key_in(&lows, &rec, t) {
                        Some(j) => {
                            lows.set(j, rec);
                        },
                        None => {
                            lows.push(rec);
                        },
                    }
                },
            }
        }
        i = i + 1;
    }
    proof {
        assert(list@.take(n as int) =~= list@);
    }
    let mut result = lows;
    let mut highs = highs;
    result.append(&mut highs);
    proof {
        lemma_conflict_bound(list@, highs_full, *t);
    }
    (result, high_conflict_count + low_conflict_count)
}

/// The conditional override registry: the per-agent table, the shared
/// ("common") table, and — once the defining module has loaded — the
/// condition-constant table that every key resolves against.
pub struct StatusRegistry {
    pub records: Vec<StatusInfo>,
    pub common: Vec<StatusInfo>,
    pub consts: Option<ConstTable>,
}

impl StatusRegistry {
    /// An empty, not yet finalized registry.
    pub fn new() -> (r: StatusRegistry)
        ensures
            r.records@.len() == 0,
            r.common@.len() == 0,
            r.consts is None,
            r.wf(),
    {
        StatusRegistry { records: Vec::new(), common: Vec::new(), consts: None }
    }

    /// Every shared record carries the shared agent key (both code paths
    /// force it); before finalize anything else may be queued, and after
    /// finalize both tables hold only resolvable records with pairwise
    /// distinct keys.
    pub open spec fn wf(self) -> bool {
        &&& forall|j: int|
            0 <= j < self.common@.len() ==> (#[trigger] self.common@[j]).agent
                == COMMON_AGENT_HASH
        &&& match self.consts {
            None => true,
            Some(t) => t.wf() && all_resolvable(self.records@, t) && distinct_keys(
                self.records@,
                t,
            ) && all_resolvable(self.common@, t) && distinct_keys(self.common@, t),
        }
    }

    /// Register a conditional override for one agent.  Before finalize the
    /// record is queued; afterwards a free key appends, a low-priority
    /// holder is replaced, and a normal-priority holder rejects the new
    /// record.
    pub fn replace_status_script(&mut self, info: StatusInfo) -> (r: RegisterOutcome)
        requires
            old(self).wf(),
            match old(self).consts {
                Some(t) => info.resolvable(t),
                None => true,
            },
        ensures
            final(self).wf(),
            final(self).consts == old(self).consts,
            final(self).common@ == old(self).common@,
            match old(self).consts {
                None => final(self).records@ == old(self).records@.push(info) && r
                    == RegisterOutcome::Added,
                Some(t) => {
                    &&& (!contains_key(old(self).records@, info, t) ==> final(self).records@
                        == old(self).records@.push(info) && r == RegisterOutcome::Added)
                    &&& forall|j: int| #![trigger old(self).records@[j]]
                        0 <= j < old(self).records@.len() && eq_key(
                            old(self).records@[j],
                            info,
                            t,
                        ) ==> if old(self).records@[j].low_priority {
                            final(self).records@ == old(self).records@.update(j, info) && r
                                == RegisterOutcome::Replaced
                        } else {
                            final(self).records@ == old(self).records@ && r
                                == RegisterOutcome::Rejected
                        }
                    &&& (r == RegisterOutcome::Added <==> !contains_key(
                        old(self).records@,
                        info,
                        t,
                    ))
                },
            },
    {
        let has_consts = self.consts.is_some();
        if !has_consts {
            self.records.push(info);
            return RegisterOutcome::Added;
        }
        let r = match &self.consts {
            Some(t) => {
                proof {
                    assert(old(self).consts == Some(*t));
                }
                register_resolved(&mut self.records, info, t)
            },
            None => RegisterOutcome::Added,  // unreachable: consts checked above
        };
        r
    }

    /// Register a shared override: it is forced to the shared agent key and
    /// to normal priority, into the shared table.
    pub fn replace_common_status_script(&mut self, info: StatusInfo) -> (r: RegisterOutcome)
        requires
            old(self).wf(),
            match old(self).consts {
                Some(t) => info.resolvable(t),
                None => true,
            },
        ensures
            final(self).wf(),
            final(self).consts == old(self).consts,
            final(self).records@ == old(self).records@,
            match old(self).consts {
                None => final(self).common@ == old(self).common@.push(common_forced(info)) && r
                    == RegisterOutcome::Added,
                Some(t) => {
                    &&& (!contains_key(old(self).common@, common_forced(info), t) ==> final(self).common@ == old(self).common@.push(common_forced(info)) && r
                        == RegisterOutcome::Added)
                    &&& forall|j: int| #![trigger old(self).common@[j]]
                        0 <= j < old(self).common@.len() && eq_key(
                            old(self).common@[j],
                            common_forced(info),
                            t,
                        ) ==> if old(self).common@[j].low_priority {
                            final(self).common@ == old(self).common@.update(
                                j,
                                common_forced(info),
                            ) && r == RegisterOutcome::Replaced
                        } else {
                            final(self).common@ == old(self).common@ && r
                                == RegisterOutcome::Rejected
                        }
                    &&& (r == RegisterOutcome::Added <==> !contains_key(
                        old(self).common@,
                        common_forced(info),
                        t,
                    ))
                },
            },
    {
        let forced = StatusInfo {
            agent: COMMON_AGENT_HASH,
            status: info.status,
            condition: info.condition,
            low_priority: false,
            replacement: info.replacement,
            original: info.original,
            backup: info.backup,
        };
        proof {
            assert(forced == common_forced(info));
        }
        let has_consts = self.consts.is_some();
        if !has_consts {
            self.common.push(forced);
            return RegisterOutcome::Added;
        }
        let r = match &self.consts {
            Some(t) => {
                proof {
                    assert(old(self).consts == Some(*t));
                }
                register_resolved(&mut self.common, forced, t)
            },
            None => RegisterOutcome::Added,  // unreachable: consts checked above
        };
        r
    }

    /// The one-time finalize step, run when the module defining the shared
    /// condition-constant table loads.  Every queued key resolves against
    /// `table`; conflicts are counted, never silently dropped.
    pub fn resolve_conflicts_at_finalize(&mut self, table: ConstTable) -> (conflicts: usize)
        requires
            old(self).wf(),
            old(self).consts is None,
            table.wf(),
            all_resolvable(old(self).records@, table),
            all_resolvable(old(self).common@, table),
            old(self).records@.len() + old(self).common@.len() <= usize::MAX,
        ensures
            final(self).wf(),
            final(self).consts == Some(table),
            final(self).records@ == finalize_spec(old(self).records@, table),
            final(self).common@ == finalize_spec(old(self).common@, table),
            conflicts == finalize_conflicts_spec(old(self).records@, table)
                + finalize_conflicts_spec(old(self).common@, table),
    {
        let ghost common0 = self.common@;
        proof {
            lemma_finalize_wf(self.records@, table);
            lemma_finalize_wf(self.common@, table);
            lemma_finalize_from(self.common@, table);
        }
        let (new_records, c1) = finalize_list(&self.records, &table);
        let (new_common, c2) = finalize_list(&self.common, &table);
        self.records = new_records;
        self.common = new_common;
        self.consts = Some(table);
        proof {
            assert forall|j: int|
                0 <= j < self.common@.len() implies (#[trigger] self.common@[j]).agent
                == COMMON_AGENT_HASH by {
                let w = choose|w: int|
                    0 <= w < common0.len() && #[trigger] finalize_spec(common0, table)[j]
                        == common0[w];
                assert(common0[w].agent == COMMON_AGENT_HASH);
            }
        }
        c1 + c2
    }

    /// Drop every record, in both tables, whose replacement address lies in
    /// `[begin, end)`.
    pub fn remove_in_range(&mut self, begin: u64, end: u64)
        requires
            old(self).wf(),
        ensures
            final(self).wf(),
            final(self).consts == old(self).consts,
            final(self).records@ == status_outside_range(old(self).records@, begin, end),
            final(self).common@ == status_outside_range(old(self).common@, begin, end),
    {
        let ghost common0 = self.common@;
        let new_records = retain_outside(&self.records, begin, end);
        let new_common = retain_outside(&self.common, begin, end);
        proof {
            match &self.consts {
                Some(t) => {
                    lemma_status_outside_preserves(self.records@, begin, end, *t);
                    lemma_status_outside_preserves(self.common@, begin, end, *t);
                },
                None => {},
            }
            lemma_status_outside_elems(self.common@, begin, end);
        }
        self.records = new_records;
        self.common = new_common;
        proof {
            assert forall|j: int|
                0 <= j < self.common@.len() implies (#[trigger] self.common@[j]).agent
                == COMMON_AGENT_HASH by {
                let w = choose|w: int|
                    0 <= w < common0.len() && #[trigger] status_outside_range(
                        common0,
                        begin,
                        end,
                    )[j] == common0[w];
                assert(common0[w].agent == COMMON_AGENT_HASH);
            }
        }
    }
}

/// The shared record as it is actually registered: under the shared agent
/// key, at normal priority.
pub open spec fn common_forced(info: StatusInfo) -> StatusInfo {
    StatusInfo {
        agent: COMMON_AGENT_HASH,
        status: info.status,
        condition: info.condition,
        low_priority: false,
        replacement: info.replacement,
        original: info.original,
        backup: info.backup,
    }
}

/// Registration against a resolved table.
fn register_resolved(records: &mut Vec<StatusInfo>, info: StatusInfo, t: &ConstTable) -> (r:
    RegisterOutcome)
    requires
        t.wf(),
        info.resolvable(*t),
        all_resolvable(old(records)@, *t),
        distinct_keys(old(records)@, *t),
    ensures
        all_resolvable(final(records)@, *t),
        distinct_keys(final(records)@, *t),
        !contains_key(old(records)@, info, *t) ==> final(records)@ == old(records)@.push(info)
            && r == RegisterOutcome::Added,
        forall|j: int| #![trigger old(records)@[j]]
            0 <= j < old(records)@.len() && eq_key(old(records)@[j], info, *t)
                ==> if old(records)@[j].low_priority {
                final(records)@ == old(records)@.update(j, info) && r
                    == RegisterOutcome::Replaced
            } else {
                final(records)@ == old(records)@ && r == RegisterOutcome::Rejected
            },
        r == RegisterOutcome::Added <==> !contains_key(old(records)@, info, *t),
        (final(records)@, r) == register_spec(old(records)@, info, *t),
{
    proof {
        lemma_first_key_idx_char(old(records)@, info, *t);
    }
    let n = records.len();
    let mut j: usize = 0;
    while j < n
        invariant
            t.wf(),
            info.resolvable(*t),
            n == records@.len(),
            0 <= j <= n,
            records@ == old(records)@,
            all_resolvable(records@, *t),
            distinct_keys(records@, *t),
            forall|k: int| 0 <= k < j ==> !eq_key(records@[k], info, *t),
        decreases n - j,
    {
        if keys_eq(&records[j], &info, t) {
            proof {
                let orig = old(records)@;
                assert forall|k: int|
                    0 <= k < orig.len() && eq_key(orig[k], info, *t) implies k == j as int by {
                    if k < j as int {
                        assert(!eq_key(orig[k], orig[j as int], *t));
                    } else if k > j as int {
                        assert(!eq_key(orig[j as int], orig[k], *t));
                    }
                }
                lemma_first_key_idx_char(orig, info, *t);
                assert(first_key_idx(orig, info, *t) == Some(j as int));
            }
            if records[j].low_priority {
                records.set(j, info);
                proof {
                    let orig = old(records)@;
                    assert forall|i1: int, i2: int|
                        0 <= i1 < i2 < records@.len() implies !eq_key(
                        records@[i1],
                        records@[i2],
                        *t,
                    ) by {
                        assert(eq_key(orig[j as int], info, *t));
                        if i1 == j as int {
                            assert(!eq_key(orig[i1], orig[i2], *t));
                            assert(records@[i1] == info && records@[i2] == orig[i2]);
                        } else if i2 == j as int {
                            assert(!eq_key(orig[i1], orig[i2], *t));
                            assert(records@[i1] == orig[i1] && records@[i2] == info);
                        } else {
                            assert(!eq_key(orig[i1], orig[i2], *t));
                            assert(records@[i1] == orig[i1] && records@[i2] == orig[i2]);
                        }
                    }
                }
                return RegisterOutcome::Replaced;
            } else {
                return RegisterOutcome::Rejected;
            }
        }
        j = j + 1;
    }
    records.push(info);
    proof {
        assert forall|i1: int, i2: int|
            0 <= i1 < i2 < records@.len() implies !eq_key(records@[i1], records@[i2], *t) by {
            if i2 == records@.len() - 1 {
                assert(records@[i1] == old(records)@[i1]);
            }
        }
        lemma_first_key_idx_char(old(records)@, info, *t);
        match first_key_idx(old(records)@, info, *t) {
            Some(w) => {
                assert(!eq_key(old(records)@[w], info, *t));
            },
            None => {},
        }
    }
    RegisterOutcome::Added
}

/// The records of `v` whose replacement address lies outside the range.
fn retain_outside(v: &Vec<StatusInfo>, begin: u64, end: u64) -> (r: Vec<StatusInfo>)
    ensures
        r@ == status_outside_range(v@, begin, end),
{
    let n = v.len();
    let mut kept: Vec<StatusInfo> = Vec::new();
    let mut i: usize = 0;
    proof {
        assert(v@.take(0) =~= Seq::<StatusInfo>::empty());
    }
    while i < n
        invariant
            n == v@.len(),
            0 <= i <= n,
            kept@ == status_outside_range(v@.take(i as int), begin, end),
        decreases n - i,
    {
        proof {
            assert(v@.take(i + 1).drop_last() =~= v@.take(i as int));
            assert(v@.take(i + 1).last() == v@[i as int]);
        }
        let rec = v[i];
        if !(begin <= rec.replacement && rec.replacement < end) {
            kept.push(rec);
        }
        i = i + 1;
    }
    proof {
        assert(v@.take(n as int) =~= v@);
    }
    kept
}

/// The range filter keeps resolvability and key distinctness.
pub proof fn lemma_status_outside_preserves(s: Seq<StatusInfo>, begin: u64, end: u64, t: ConstTable)
    requires
        all_resolvable(s, t),
        distinct_keys(s, t),
    ensures
        all_resolvable(status_outside_range(s, begin, end), t),
        distinct_keys(status_outside_range(s, begin, end), t),
    decreases s.len(),
{
    if s.len() > 0 {
        lemma_status_outside_preserves(s.drop_last(), begin, end, t);
        lemma_status_outside_elems(s.drop_last(), begin, end);
        let rest = status_outside_range(s.drop_last(), begin, end);
        let whole = status_outside_range(s, begin, end);
        if !crate::in_range(s.last().replacement, begin, end) {
            assert forall|i: int, j: int| 0 <= i < j < whole.len() implies !eq_key(
                whole[i],
                whole[j],
                t,
            ) by {
                if j == whole.len() - 1 {
                    assert(whole[i] == rest[i] && whole[j] == s[s.len() - 1]);
                    let w = choose|w: int|
                        0 <= w < s.drop_last().len() && rest[i] == #[trigger] s.drop_last()[w];
                    assert(s[w] == rest[i]);
                    assert(!eq_key(s[w], s[s.len() - 1], t));
                }
            }
            assert forall|k: int| 0 <= k < whole.len() implies (#[trigger] whole[k]).resolvable(
                t,
            ) by {
                if k < rest.len() {
                    assert(whole[k] == rest[k]);
                } else {
                    assert(whole[k] == s[s.len() - 1]);
                }
            }
        }
    }
}

/// Every record the range filter keeps comes from the input.
pub proof fn lemma_status_outside_elems(s: Seq<StatusInfo>, begin: u64, end: u64)
    ensures
        forall|k: int|
            0 <= k < status_outside_range(s, begin, end).len() ==> exists|j: int|
                0 <= j < s.len() && #[trigger] status_outside_range(s, begin, end)[k]
                    == #[trigger] s[j],
    decreases s.len(),
{
    if s.len() > 0 {
        lemma_status_outside_elems(s.drop_last(), begin, end);
        let rest = status_outside_range(s.drop_last(), begin, end);
        assert forall|k: int|
            0 <= k < status_outside_range(s, begin, end).len() implies exists|j: int|
            0 <= j < s.len() && #[trigger] status_outside_range(s, begin, end)[k] == #[trigger] s[j] by {
            if k < rest.len() {
                let j = choose|j: int|
                    0 <= j < s.drop_last().len() && rest[k] == #[trigger] s.drop_last()[j];
                assert(status_outside_range(s, begin, end)[k] == s[j]);
            } else {
                assert(status_outside_range(s, begin, end)[k] == s[s.len() - 1]);
            }
        }
    }
}

} // verus!
