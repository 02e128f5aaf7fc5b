//! The engine end to end: the patch ledger across module lifecycles, the
//! full override scenario, extension teardown, and the region bookkeeping.

use smashline::acmd::{Category, ScriptInfo};
use smashline::constant::{ConstTable, LuaConstant};
use smashline::engine::{Redirects, Smashline};
use smashline::nx::{MemoryInfo, MemoryState, PageInfo, QueryMemoryResult};
use smashline::resolver::{get_symbol_by_name, ElfSymbol, ModuleObject};
use smashline::scripts::{dispatch_get, AcmdInstance};
use smashline::status::StatusInfo;
use smashline::unwind::{find_subsequence, PluginRegistry};
use smashline::RegisterOutcome;

fn redirects() -> Redirects {
    Redirects {
        animcmd_game: 0xE000,
        animcmd_game_share: 0xE010,
        animcmd_effect: 0xE020,
        animcmd_effect_share: 0xE030,
        animcmd_sound: 0xE040,
        animcmd_sound_share: 0xE050,
        animcmd_expression: 0xE060,
        animcmd_expression_share: 0xE070,
        status_create: 0xE080,
        status_dtor: 0xE090,
        status_del_dtor: 0xE0A0,
        status_set: 0xE0B0,
        common_table: 0xE0C0,
        fighter_init: 0xE0D0,
        weapon_init: 0xE0E0,
    }
}

fn module(name: &[u8]) -> ModuleObject {
    ModuleObject {
        name: name.to_vec(),
        base: 0x10000,
        size: 0x1000,
        hash_bucket: vec![1],
        hash_chain: vec![0, 2, 0],
        dynsym: vec![
            ElfSymbol { st_name: 0, st_shndx: 0, st_value: 0 },
            ElfSymbol { st_name: 1, st_shndx: 1, st_value: 0x100 },
            ElfSymbol { st_name: 7, st_shndx: 1, st_value: 0x200 },
        ],
        dynstr: b"\0name1\0name2\0".to_vec(),
        code: Vec::new(),
    }
}

fn region(base: u64, size: u64) -> QueryMemoryResult {
    QueryMemoryResult {
        mem_info: MemoryInfo {
            base_address: base,
            size,
            state: MemoryState::Code,
            attribute: 0,
            permission: 5,
            device_refcount: 0,
            ipc_refcount: 0,
            padding: 0,
        },
        page_info: PageInfo { flags: 0 },
    }
}

#[test]
fn ledger_applies_on_load_and_nulls_on_unload() {
    let mut engine = Smashline::new(redirects());
    let slot = engine.slots.new_slot();
    engine.replace_symbol(b"mod1".to_vec(), b"name1".to_vec(), 0x4000, Some(slot));
    let mut m = module(b"mod1");
    engine.on_module_load(&mut m, None);
    // The queued replacement was applied: the symbol's backup slot holds
    // the pre-patch address and the table resolves to the replacement.
    assert_eq!(engine.slots.read(slot), 0x10100);
    let idx = get_symbol_by_name(&m, b"name1").unwrap();
    assert_eq!(m.dynsym[idx].st_value.wrapping_add(m.base), 0x4000);
    // A load of an unrelated module applies nothing.
    let mut other = module(b"mod2");
    engine.on_module_load(&mut other, None);
    assert_eq!(other.dynsym[1].st_value, 0x100);
    // On unload, the backup slot is nulled: the original is gone.
    engine.on_module_unload(b"mod1", 0x10000);
    assert_eq!(engine.slots.read(slot), 0);
}

#[test]
fn replace_symbol_now_applies_immediately() {
    let mut engine = Smashline::new(redirects());
    let mut m = module(b"mod1");
    let slot = engine.slots.new_slot();
    let found = engine.replace_symbol_now(&mut m, b"name2".to_vec(), 0x4400, Some(slot));
    assert!(found);
    assert_eq!(engine.slots.read(slot), 0x10200);
    assert_eq!(m.dynsym[2].st_value.wrapping_add(m.base), 0x4400);
    // It is also queued: a later load of a same-named module is patched.
    let mut reload = module(b"mod1");
    engine.on_module_load(&mut reload, None);
    assert_eq!(reload.dynsym[2].st_value.wrapping_add(reload.base), 0x4400);
}

#[test]
fn full_override_scenario() {
    // Register override O1 (normal) for identity 0x1, key 0x2; construct a
    // matching instance; it dispatches to O1.  A low-priority O2 at the
    // same key is rejected and O1 stays.  Unloading O1's owning module
    // with range [0x1000, 0x2000) (O1's code is at 0x1500) leaves the
    // instance dispatching to its original pre-O1 handler.
    let mut engine = Smashline::new(redirects());
    let slot = engine.slots.new_slot();
    let o1 = ScriptInfo {
        agent: 0x1,
        script: 0x2,
        category: Category::ACMD_GAME,
        low_priority: false,
        bind_fn: 0x1500,
        original: Some(slot),
        backup: 0,
    };
    assert_eq!(engine.replace_acmd_script(o1, region(0x1000, 0x1000)), RegisterOutcome::Added);

    let inst = AcmdInstance {
        handle: 0xC0,
        hash: 0x1,
        category: Category::ACMD_GAME,
        is_share: false,
        module_base: 0x100,
        module_size: 0x100,
        functions: vec![(0x2, 0x150)],
    };
    engine.on_acmd_instance_constructed(inst);
    // I1 dispatches to O1; the pre-patch handler was captured.
    assert_eq!(dispatch_get(&engine.acmd_agents[0].functions, 0x2), 0x1500);
    assert_eq!(engine.acmd.records[0].backup, 0x150);
    assert_eq!(engine.slots.read(slot), 0x150);

    // O2 (low priority) at the same key is rejected; O1 unchanged.
    let o2 = ScriptInfo { low_priority: true, bind_fn: 0x1600, original: None, ..o1 };
    assert_eq!(engine.replace_acmd_script(o2, region(0x1000, 0x1000)), RegisterOutcome::Rejected);
    assert_eq!(dispatch_get(&engine.acmd_agents[0].functions, 0x2), 0x1500);
    assert_eq!(engine.acmd.records[0].bind_fn, 0x1500);

    // O1's owning extension unloads: its records leave, the instance is
    // reverted to the pre-O1 handler — not to O2's or anyone else's code.
    engine.uninstall_extension(0x1000, 0x2000);
    assert_eq!(dispatch_get(&engine.acmd_agents[0].functions, 0x2), 0x150);
    assert_eq!(engine.acmd.records.len(), 0);

    // Purging the same range again changes nothing.
    engine.uninstall_extension(0x1000, 0x2000);
    assert_eq!(dispatch_get(&engine.acmd_agents[0].functions, 0x2), 0x150);
}

#[test]
fn registration_after_instance_patches_retroactively() {
    // The instance exists first; a later registration patches it, and a
    // purge restores the exact pre-patch value.
    let mut engine = Smashline::new(redirects());
    let inst = AcmdInstance {
        handle: 0xC1,
        hash: 0x7,
        category: Category::ACMD_GAME,
        is_share: false,
        module_base: 0x100,
        module_size: 0x100,
        functions: vec![(0x9, 0x177)],
    };
    engine.on_acmd_instance_constructed(inst);
    assert_eq!(dispatch_get(&engine.acmd_agents[0].functions, 0x9), 0x177);

    let o = ScriptInfo {
        agent: 0x7,
        script: 0x9,
        category: Category::ACMD_GAME,
        low_priority: false,
        bind_fn: 0x3300,
        original: None,
        backup: 0,
    };
    assert_eq!(engine.replace_acmd_script(o, region(0x3000, 0x1000)), RegisterOutcome::Added);
    assert_eq!(dispatch_get(&engine.acmd_agents[0].functions, 0x9), 0x3300);
    assert_eq!(engine.acmd.records[0].backup, 0x177);

    engine.uninstall_extension(0x3000, 0x4000);
    assert_eq!(dispatch_get(&engine.acmd_agents[0].functions, 0x9), 0x177);
}

#[test]
fn bootstrap_load_finalizes_the_conditional_registry() {
    let mut engine = Smashline::new(redirects());
    engine.install();
    // Queued before the bootstrap module: a low/normal pair at one key.
    let low = StatusInfo {
        agent: 1,
        status: LuaConstant::Symbolic(100),
        condition: LuaConstant::Evaluated(20),
        low_priority: true,
        replacement: 0x100,
        original: None,
        backup: 0,
    };
    let normal = StatusInfo { low_priority: false, replacement: 0x200, ..low };
    engine.replace_status_script(low);
    engine.replace_status_script(normal);
    let mut table = ConstTable::new();
    table.insert(100, 10);
    let mut common = module(b"common");
    let conflicts = engine.on_module_load(&mut common, Some(table));
    assert_eq!(conflicts, 1);
    assert_eq!(engine.status.records.len(), 1);
    assert_eq!(engine.status.records[0].replacement, 0x200);
    assert_eq!(engine.common_region, Some((0x10000, 0x1000)));
}

#[test]
fn status_scenario_with_live_instance() {
    let mut engine = Smashline::new(redirects());
    engine.install();
    let mut common = module(b"common");
    engine.on_module_load(&mut common, Some(ConstTable::new()));

    // A conditional instance constructed under the tracked path.
    let host_vtable: Vec<u64> = (0..15).map(|i| 0x10000 + i as u64).collect();
    engine.on_status_instance_constructed(0xD0, 0x1, 0x10000, 0x1000, &host_vtable, Vec::new(), 0x55);
    assert_eq!(engine.status_agents.len(), 1);
    assert_eq!(engine.vtables, vec![(0x10000, 0x55)]);

    // Register a conditional override; the instance is patched at once.
    let slot = engine.slots.new_slot();
    let o1 = StatusInfo {
        agent: 0x1,
        status: LuaConstant::Evaluated(0x2),
        condition: LuaConstant::Evaluated(0x3),
        low_priority: false,
        replacement: 0x1500,
        original: Some(slot),
        backup: 0,
    };
    assert_eq!(engine.replace_status_script(o1), RegisterOutcome::Added);
    let k = smashline::scripts::make_status_key(0x2, 0x3);
    assert_eq!(dispatch_get(&engine.status_agents[0].statuses, k), 0x1500);

    // Unload the extension owning the replacement: reverted to the null
    // pre-patch entry, record gone.
    engine.uninstall_extension(0x1000, 0x2000);
    assert_eq!(dispatch_get(&engine.status_agents[0].statuses, k), 0);
    assert_eq!(engine.status.records.len(), 0);
}

#[test]
fn frame_replacement_chain_decides_control() {
    let mut engine = Smashline::new(redirects());
    engine.install();
    let mut common = module(b"common");
    engine.on_module_load(&mut common, Some(ConstTable::new()));
    let s1 = engine.slots.new_slot();
    let s2 = engine.slots.new_slot();
    engine.replace_fighter_frame(LuaConstant::Evaluated(7), Some(s1), 0x6000);
    engine.replace_fighter_frame(LuaConstant::Evaluated(8), None, 0x6100);
    engine.replace_fighter_frame(LuaConstant::Evaluated(7), Some(s2), 0x6200);
    // For kind 7 the last registered replacement wins; each match captured
    // its predecessor in the chain.
    let control = engine.sys_line_system_fighter_init(7, 0x5000);
    assert_eq!(control, 0x6200);
    assert_eq!(engine.slots.read(s1), 0x5000);
    assert_eq!(engine.slots.read(s2), 0x6000);
    // For an unmatched kind the default control stands.
    let control = engine.sys_line_system_init(9, 0x5000);
    assert_eq!(control, 0x5000);
}

#[test]
fn extension_regions_are_tracked_and_queried() {
    let mut reg = PluginRegistry::new();
    reg.register_skyline_plugin(region(0x7000, 0x1000));
    reg.register_skyline_plugin(region(0x7000, 0x1000));
    reg.register_skyline_plugin(region(0x9000, 0x500));
    assert_eq!(reg.regions.len(), 2);
    assert!(reg.is_custom_eh_mem(0x7000));
    assert!(reg.is_custom_eh_mem(0x7FFF));
    assert!(!reg.is_custom_eh_mem(0x8000));
    assert!(reg.is_custom_eh_mem(0x9400));
    reg.unregister_skyline_plugin(0x7000);
    assert!(!reg.is_custom_eh_mem(0x7000));
    assert!(reg.is_custom_eh_mem(0x9400));
}

#[test]
fn subsequence_search_finds_first_occurrence() {
    assert_eq!(find_subsequence(b"abcabc", b"bc"), Some(1));
    assert_eq!(find_subsequence(b"abcabc", b"abcabc"), Some(0));
    assert_eq!(find_subsequence(b"abcabc", b"cb"), None);
    assert_eq!(find_subsequence(b"ab", b"abc"), None);
}

#[test]
fn callback_teardown_is_range_scoped() {
    let mut engine = Smashline::new(redirects());
    engine.callbacks.add_fighter_reset_callback(0x1100);
    engine.callbacks.add_fighter_reset_callback(0x2100);
    engine.callbacks.add_fighter_init_callback(0x1200);
    engine.callbacks.add_agent_init_callback(0x2200);
    engine.uninstall_extension(0x1000, 0x2000);
    assert_eq!(engine.callbacks.fighter_resets, vec![0x2100]);
    assert_eq!(engine.callbacks.fighter_init_callbacks.len(), 0);
    assert_eq!(engine.callbacks.agent_init_callbacks, vec![0x2200]);
}

#[test]
fn status_setup_applies_per_agent_records() {
    let mut engine = Smashline::new(redirects());
    engine.install();
    let mut common = module(b"common");
    engine.on_module_load(&mut common, Some(ConstTable::new()));
    // A record registered for agent 0x42, then an instance constructed;
    // the redirected status-setup entry installs the record.
    let slot = engine.slots.new_slot();
    engine.replace_status_script(StatusInfo {
        agent: 0x42,
        status: LuaConstant::Evaluated(3),
        condition: LuaConstant::Evaluated(4),
        low_priority: false,
        replacement: 0x5100,
        original: Some(slot),
        backup: 0,
    });
    let host_vtable: Vec<u64> = (0..15).map(|i| 0x10000 + i as u64).collect();
    let initial = vec![(smashline::scripts::make_status_key(3, 4), 0x10333u64)];
    engine.on_status_instance_constructed(0xD1, 0x42, 0x10000, 0x1000, &host_vtable, initial, 0x66);
    engine.set_status_scripts(0);
    let k = smashline::scripts::make_status_key(3, 4);
    assert_eq!(dispatch_get(&engine.status_agents[0].statuses, k), 0x5100);
    // The displaced per-instance entry was captured as the backup.
    assert_eq!(engine.status.records[0].backup, 0x10333);
    assert_eq!(engine.slots.read(slot), 0x10333);
}

#[test]
fn shared_table_setup_skips_the_none_sentinel() {
    let mut engine = Smashline::new(redirects());
    engine.install();
    let mut common = module(b"common");
    engine.on_module_load(&mut common, Some(ConstTable::new()));
    engine.replace_common_status_script(StatusInfo {
        agent: 0,
        status: LuaConstant::Evaluated(0),
        condition: LuaConstant::Evaluated(9),
        low_priority: false,
        replacement: 0x5200,
        original: None,
        backup: 0,
    });
    engine.replace_common_status_script(StatusInfo {
        agent: 0,
        status: LuaConstant::Evaluated(5),
        condition: LuaConstant::Evaluated(9),
        low_priority: false,
        replacement: 0x5300,
        original: None,
        backup: 0,
    });
    // Both shared registrations landed in the shared table, under the
    // shared agent key at normal priority.
    assert_eq!(engine.status.common.len(), 2);
    assert!(engine.status.common.iter().all(|r| {
        r.agent == smashline::status::COMMON_AGENT_HASH && !r.low_priority
    }));
    let host_vtable: Vec<u64> = (0..15).map(|i| 0x10000 + i as u64).collect();
    engine.on_status_instance_constructed(0xD2, 0x7, 0x10000, 0x1000, &host_vtable, Vec::new(), 0x77);
    // Status value 0 is the "none" sentinel here: that record is skipped.
    engine.sub_set_fighter_common_table(0, 0);
    assert_eq!(
        dispatch_get(&engine.status_agents[0].statuses, smashline::scripts::make_status_key(0, 9)),
        0
    );
    assert_eq!(
        dispatch_get(&engine.status_agents[0].statuses, smashline::scripts::make_status_key(5, 9)),
        0x5300
    );
}

#[test]
fn named_removal_entry_points_match_the_bulk_teardown() {
    let mut engine = Smashline::new(redirects());
    let o = ScriptInfo {
        agent: 0x3,
        script: 0x4,
        category: Category::ACMD_GAME,
        low_priority: false,
        bind_fn: 0x1700,
        original: None,
        backup: 0,
    };
    engine.replace_acmd_script(o, region(0x1000, 0x1000));
    engine.remove_acmd_scripts(0x1000, 0x2000);
    assert_eq!(engine.acmd.records.len(), 0);
    engine.replace_status_script(StatusInfo {
        agent: 0x3,
        status: LuaConstant::Evaluated(1),
        condition: LuaConstant::Evaluated(2),
        low_priority: false,
        replacement: 0x1800,
        original: None,
        backup: 0,
    });
    engine.remove_status_scripts(0x1000, 0x2000);
    assert_eq!(engine.status.records.len(), 0);
}

#[test]
fn unnamed_and_item_modules_only_get_ledger_treatment() {
    let mut engine = Smashline::new(redirects());
    let mut unnamed = module(b"");
    engine.on_module_load(&mut unnamed, None);
    let mut item = module(b"item");
    engine.on_module_load(&mut item, None);
    // No creation path was tracked for either.
    assert_eq!(engine.create_agents.len(), 0);
    assert_eq!(engine.status_create_agents.len(), 0);
}

#[test]
fn reloaded_module_answers_with_its_fresh_constructor() {
    let mut engine = Smashline::new(redirects());
    let make_fighter = |base: u64| {
        let symbol = smashline::scripts::format_create_agent_symbol(b"mario", b"animcmd_game");
        let mut dynstr = vec![0u8];
        dynstr.extend_from_slice(&symbol);
        dynstr.push(0);
        ModuleObject {
            name: b"mario".to_vec(),
            base,
            size: 0x1000,
            hash_bucket: vec![1],
            hash_chain: vec![0, 0],
            dynsym: vec![
                ElfSymbol { st_name: 0, st_shndx: 0, st_value: 0 },
                ElfSymbol { st_name: 1, st_shndx: 1, st_value: 8 },
            ],
            dynstr,
            // Two padding words, then: cmp x0, x8; ret (x8 is zero).
            code: vec![0, 0, 0xEB08001F, 0xD65F03C0],
        }
    };
    let mut first = make_fighter(0x100000);
    engine.on_module_load(&mut first, None);
    assert_eq!(engine.find_acmd_original(Category::ACMD_GAME, false, 0), Some(0x100008));
    engine.on_module_unload(b"mario", 0x100000);
    // The module reloads at a new base; the lookup must answer with the
    // fresh constructor, never the stale one inside freed code.
    let mut second = make_fighter(0x300000);
    engine.on_module_load(&mut second, None);
    assert_eq!(engine.find_acmd_original(Category::ACMD_GAME, false, 0), Some(0x300008));
}

#[test]
fn registering_a_script_override_registers_its_code_region() {
    let mut engine = Smashline::new(redirects());
    let o = ScriptInfo {
        agent: 0x1,
        script: 0x2,
        category: Category::ACMD_GAME,
        low_priority: false,
        bind_fn: 0x1500,
        original: None,
        backup: 0,
    };
    engine.replace_acmd_script(o, region(0x1000, 0x1000));
    // The extension's code region is now known to the crash-containment
    // bookkeeping; the bulk teardown forgets it again.
    assert!(engine.plugins.is_custom_eh_mem(0x1500));
    engine.uninstall_extension(0x1000, 0x2000);
    assert!(!engine.plugins.is_custom_eh_mem(0x1500));
}
