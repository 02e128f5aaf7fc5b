//! The override registries: priority rules, deferred resolution, and the
//! one-time finalize pass.

use smashline::acmd::{AcmdRegistry, Category, ScriptInfo};
use smashline::constant::{ConstTable, LuaConstant};
use smashline::status::{StatusInfo, StatusRegistry, COMMON_AGENT_HASH};
use smashline::RegisterOutcome;

fn script(agent: u64, key: u64, low: bool, bind: u64) -> ScriptInfo {
    ScriptInfo {
        agent,
        script: key,
        category: Category::ACMD_GAME,
        low_priority: low,
        bind_fn: bind,
        original: None,
        backup: 0,
    }
}

fn status(agent: u64, st: i32, cond: i32, low: bool, replacement: u64) -> StatusInfo {
    StatusInfo {
        agent,
        status: LuaConstant::Evaluated(st),
        condition: LuaConstant::Evaluated(cond),
        low_priority: low,
        replacement,
        original: None,
        backup: 0,
    }
}

#[test]
fn acmd_first_normal_wins_rest_rejected() {
    // Three normal-priority registrations at one key: the first wins, the
    // other two are rejected and the table keeps the first record.
    let mut reg = AcmdRegistry::new();
    assert_eq!(reg.register(script(1, 2, false, 0x100)), RegisterOutcome::Added);
    assert_eq!(reg.register(script(1, 2, false, 0x200)), RegisterOutcome::Rejected);
    assert_eq!(reg.register(script(1, 2, false, 0x300)), RegisterOutcome::Rejected);
    assert_eq!(reg.records.len(), 1);
    assert_eq!(reg.records[0].bind_fn, 0x100);
}

#[test]
fn acmd_low_priority_is_replaced_by_either_priority() {
    let mut reg = AcmdRegistry::new();
    assert_eq!(reg.register(script(1, 2, true, 0x100)), RegisterOutcome::Added);
    // A later low-priority registration replaces the low-priority holder.
    assert_eq!(reg.register(script(1, 2, true, 0x150)), RegisterOutcome::Replaced);
    assert_eq!(reg.records[0].bind_fn, 0x150);
    // A normal-priority registration also replaces it, and then holds.
    assert_eq!(reg.register(script(1, 2, false, 0x200)), RegisterOutcome::Replaced);
    assert_eq!(reg.register(script(1, 2, true, 0x300)), RegisterOutcome::Rejected);
    assert_eq!(reg.records[0].bind_fn, 0x200);
}

#[test]
fn acmd_categories_never_cross_match() {
    let mut reg = AcmdRegistry::new();
    let mut effect = script(1, 2, false, 0x100);
    effect.category = Category::ACMD_EFFECT;
    assert_eq!(reg.register(script(1, 2, false, 0x200)), RegisterOutcome::Added);
    assert_eq!(reg.register(effect), RegisterOutcome::Added);
    assert_eq!(reg.records.len(), 2);
}

#[test]
fn acmd_remove_in_range_is_exact() {
    let mut reg = AcmdRegistry::new();
    reg.register(script(1, 2, false, 0x100));
    reg.register(script(1, 3, false, 0x1500));
    reg.register(script(2, 2, false, 0x1fff));
    reg.register(script(2, 3, false, 0x2000));
    reg.remove_in_range(0x1000, 0x2000);
    // Exactly the records with replacement code in [0x1000, 0x2000) left.
    assert_eq!(reg.records.len(), 2);
    assert_eq!(reg.records[0].bind_fn, 0x100);
    assert_eq!(reg.records[1].bind_fn, 0x2000);
}

#[test]
fn const_table_lookup_and_caching() {
    let mut table = ConstTable::new();
    table.insert(7, 0x2a);
    table.insert(9, -3);
    assert_eq!(table.lookup(7), Some(0x2a));
    assert_eq!(table.lookup(9), Some(-3));
    assert_eq!(table.lookup(8), None);
    let mut c = LuaConstant::Symbolic(9);
    assert_eq!(c.get(&table), -3);
    // The value is cached after the first read.
    assert_eq!(c, LuaConstant::Evaluated(-3));
    assert_eq!(c.eval(&table), -3);
}

#[test]
fn status_low_then_normal_finalizes_to_normal() {
    let mut reg = StatusRegistry::new();
    assert_eq!(reg.replace_status_script(status(1, 10, 20, true, 0x100)), RegisterOutcome::Added);
    assert_eq!(reg.replace_status_script(status(1, 10, 20, false, 0x200)), RegisterOutcome::Added);
    let conflicts = reg.resolve_conflicts_at_finalize(ConstTable::new());
    assert_eq!(conflicts, 1);
    assert_eq!(reg.records.len(), 1);
    assert_eq!(reg.records[0].replacement, 0x200);
    assert!(!reg.records[0].low_priority);
}

#[test]
fn status_normal_then_low_finalizes_to_normal() {
    let mut reg = StatusRegistry::new();
    reg.replace_status_script(status(1, 10, 20, false, 0x200));
    reg.replace_status_script(status(1, 10, 20, true, 0x100));
    let conflicts = reg.resolve_conflicts_at_finalize(ConstTable::new());
    assert_eq!(conflicts, 1);
    assert_eq!(reg.records.len(), 1);
    assert_eq!(reg.records[0].replacement, 0x200);
}

#[test]
fn status_queued_normals_first_wins_at_finalize() {
    let mut reg = StatusRegistry::new();
    reg.replace_status_script(status(1, 10, 20, false, 0x100));
    reg.replace_status_script(status(1, 10, 20, false, 0x200));
    reg.replace_status_script(status(1, 10, 20, false, 0x300));
    let conflicts = reg.resolve_conflicts_at_finalize(ConstTable::new());
    assert_eq!(conflicts, 2);
    assert_eq!(reg.records.len(), 1);
    assert_eq!(reg.records[0].replacement, 0x100);
}

#[test]
fn status_low_priority_dedup_later_wins() {
    let mut reg = StatusRegistry::new();
    reg.replace_status_script(status(1, 10, 20, true, 0x100));
    reg.replace_status_script(status(1, 10, 20, true, 0x200));
    reg.replace_status_script(status(1, 11, 20, true, 0x300));
    let conflicts = reg.resolve_conflicts_at_finalize(ConstTable::new());
    assert_eq!(conflicts, 0);
    assert_eq!(reg.records.len(), 2);
    // The later registration replaced the earlier one in place.
    assert_eq!(reg.records[0].replacement, 0x200);
    assert_eq!(reg.records[1].replacement, 0x300);
}

#[test]
fn status_symbolic_keys_resolve_at_finalize() {
    let mut table = ConstTable::new();
    table.insert(100, 10);
    table.insert(200, 20);
    let mut reg = StatusRegistry::new();
    // Registered symbolically before the table is available...
    reg.replace_status_script(StatusInfo {
        agent: 1,
        status: LuaConstant::Symbolic(100),
        condition: LuaConstant::Symbolic(200),
        low_priority: false,
        replacement: 0x500,
        original: None,
        backup: 0,
    });
    // ...and concretely at the same resolved key.
    reg.replace_status_script(status(1, 10, 20, false, 0x600));
    let conflicts = reg.resolve_conflicts_at_finalize(table);
    // The two records collide once resolved; the first wins.
    assert_eq!(conflicts, 1);
    assert_eq!(reg.records.len(), 1);
    assert_eq!(reg.records[0].replacement, 0x500);
}

#[test]
fn status_post_finalize_registration_applies_priority_rules() {
    let mut reg = StatusRegistry::new();
    reg.resolve_conflicts_at_finalize(ConstTable::new());
    assert_eq!(reg.replace_status_script(status(1, 10, 20, true, 0x100)), RegisterOutcome::Added);
    assert_eq!(
        reg.replace_status_script(status(1, 10, 20, false, 0x200)),
        RegisterOutcome::Replaced
    );
    assert_eq!(
        reg.replace_status_script(status(1, 10, 20, true, 0x300)),
        RegisterOutcome::Rejected
    );
    assert_eq!(reg.records.len(), 1);
    assert_eq!(reg.records[0].replacement, 0x200);
}

#[test]
fn common_status_scripts_are_forced_to_normal_priority() {
    let mut reg = StatusRegistry::new();
    reg.resolve_conflicts_at_finalize(ConstTable::new());
    let mut info = status(999, 10, 20, true, 0x100);
    info.low_priority = true;
    assert_eq!(reg.replace_common_status_script(info), RegisterOutcome::Added);
    assert_eq!(reg.common.len(), 1);
    assert_eq!(reg.common[0].agent, COMMON_AGENT_HASH);
    assert!(!reg.common[0].low_priority);
    // Being normal priority, a second shared record at the key is rejected.
    assert_eq!(
        reg.replace_common_status_script(status(5, 10, 20, true, 0x300)),
        RegisterOutcome::Rejected
    );
}

#[test]
fn status_remove_in_range_covers_both_tables() {
    let mut reg = StatusRegistry::new();
    reg.resolve_conflicts_at_finalize(ConstTable::new());
    reg.replace_status_script(status(1, 10, 20, false, 0x1800));
    reg.replace_status_script(status(1, 11, 20, false, 0x2800));
    reg.replace_common_status_script(status(0, 12, 20, false, 0x1900));
    reg.remove_in_range(0x1000, 0x2000);
    assert_eq!(reg.records.len(), 1);
    assert_eq!(reg.records[0].replacement, 0x2800);
    assert_eq!(reg.common.len(), 0);
}
