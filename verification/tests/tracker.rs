//! The live instance tracker: retroactive installation, range-scoped
//! reverts, instance lifetime, and the identity scan.

use smashline::acmd::{AcmdRegistry, Category, ScriptInfo};
use smashline::constant::{ConstTable, LuaConstant};
use smashline::scripts::{
    clear_loaded_agent, decode_word, dispatch_get, format_create_agent_symbol, get_movk_offset,
    install_live_acmd_scripts, install_live_status_scripts, on_acmd_instance_constructed,
    read_hashes_from_executable, recreate_status_vtable, release_status_vtables,
    remove_live_acmd_scripts, remove_live_status_scripts, AcmdInstance, CreateAgentInfo,
    DecodedInstr, StatusCreateAgentInfo, StatusInstance, STATUS_AGENT_HASH, STATUS_DEL_DTOR,
    STATUS_DTOR, STATUS_SET,
};
use smashline::slots::Slots;
use smashline::status::{StatusInfo, StatusRegistry};
use smashline::RegisterOutcome;

fn script(agent: u64, key: u64, bind: u64, original: Option<usize>) -> ScriptInfo {
    ScriptInfo {
        agent,
        script: key,
        category: Category::ACMD_GAME,
        low_priority: false,
        bind_fn: bind,
        original,
        backup: 0,
    }
}

fn instance(hash: u64, base: u64, size: u64, funcs: Vec<(u64, u64)>) -> AcmdInstance {
    AcmdInstance {
        handle: 0xA0,
        hash,
        category: Category::ACMD_GAME,
        is_share: false,
        module_base: base,
        module_size: size,
        functions: funcs,
    }
}

#[test]
fn retroactive_install_patches_matching_instances() {
    // A live instance exists; registering an override afterwards patches
    // it and captures the pre-patch value into backup field and slot.
    let mut agents = vec![instance(1, 0x100, 0x100, vec![(2, 0x150)])];
    let mut slots = Slots::new();
    let slot = slots.new_slot();
    let mut info = script(1, 2, 0x5000, Some(slot));
    let patched = install_live_acmd_scripts(&mut agents, &mut info, &mut slots);
    assert!(patched);
    assert_eq!(dispatch_get(&agents[0].functions, 2), 0x5000);
    assert_eq!(info.backup, 0x150);
    assert_eq!(slots.read(slot), 0x150);
}

#[test]
fn retroactive_install_skips_foreign_redirections() {
    // The currently-installed pointer belongs to neither the instance's
    // own module nor null: a third party redirected it, so it is left.
    let mut agents = vec![instance(1, 0x100, 0x100, vec![(2, 0x9999)])];
    let mut slots = Slots::new();
    let mut info = script(1, 2, 0x5000, None);
    let patched = install_live_acmd_scripts(&mut agents, &mut info, &mut slots);
    assert!(!patched);
    assert_eq!(dispatch_get(&agents[0].functions, 2), 0x9999);
    assert_eq!(info.backup, 0);
}

#[test]
fn purge_restores_backup_and_is_idempotent() {
    // Round trip: install, then purge by the override's own range; the
    // instance reads back exactly the recorded backup.  Purging again
    // changes nothing once the records are gone.
    let mut agents = vec![instance(1, 0x100, 0x100, vec![(2, 0x150)])];
    let mut slots = Slots::new();
    let mut registry = AcmdRegistry::new();
    let mut info = script(1, 2, 0x5000, None);
    install_live_acmd_scripts(&mut agents, &mut info, &mut slots);
    registry.register(info);
    assert_eq!(dispatch_get(&agents[0].functions, 2), 0x5000);

    remove_live_acmd_scripts(&mut agents, &registry, 0x4000, 0x6000);
    registry.remove_in_range(0x4000, 0x6000);
    assert_eq!(dispatch_get(&agents[0].functions, 2), 0x150);
    assert_eq!(registry.records.len(), 0);

    // Second purge of the same range: a no-op.
    remove_live_acmd_scripts(&mut agents, &registry, 0x4000, 0x6000);
    assert_eq!(dispatch_get(&agents[0].functions, 2), 0x150);
}

#[test]
fn purge_is_total_and_precise_over_ranges() {
    // Two overrides on one instance; an overlapping range purges only the
    // one whose code lies inside it, a disjoint range purges nothing.
    let mut agents = vec![instance(1, 0x100, 0x100, vec![(2, 0x150), (3, 0x160)])];
    let mut slots = Slots::new();
    let mut registry = AcmdRegistry::new();
    let mut o1 = script(1, 2, 0x5000, None);
    install_live_acmd_scripts(&mut agents, &mut o1, &mut slots);
    registry.register(o1);
    let mut o2 = script(1, 3, 0x7000, None);
    install_live_acmd_scripts(&mut agents, &mut o2, &mut slots);
    registry.register(o2);
    assert_eq!(dispatch_get(&agents[0].functions, 2), 0x5000);
    assert_eq!(dispatch_get(&agents[0].functions, 3), 0x7000);

    // Disjoint range: nothing reverted.
    remove_live_acmd_scripts(&mut agents, &registry, 0x8000, 0x9000);
    assert_eq!(dispatch_get(&agents[0].functions, 2), 0x5000);
    assert_eq!(dispatch_get(&agents[0].functions, 3), 0x7000);

    // Overlapping range covering only o1's code.
    remove_live_acmd_scripts(&mut agents, &registry, 0x4000, 0x6000);
    assert_eq!(dispatch_get(&agents[0].functions, 2), 0x150);
    assert_eq!(dispatch_get(&agents[0].functions, 3), 0x7000);
}

#[test]
fn construction_applies_registered_overrides() {
    // Overrides registered before construction are installed on the new
    // instance's own table; the pre-patch value is captured per record.
    let mut agents: Vec<AcmdInstance> = Vec::new();
    let mut registry = AcmdRegistry::new();
    let mut slots = Slots::new();
    let slot = slots.new_slot();
    registry.register(script(1, 2, 0x5000, Some(slot)));
    on_acmd_instance_constructed(
        &mut agents,
        &mut registry,
        &mut slots,
        instance(1, 0x100, 0x100, vec![(2, 0x150)]),
    );
    assert_eq!(agents.len(), 1);
    assert_eq!(dispatch_get(&agents[0].functions, 2), 0x5000);
    assert_eq!(registry.records[0].backup, 0x150);
    assert_eq!(slots.read(slot), 0x150);
}

#[test]
fn clear_drops_instances_of_the_unloading_module() {
    let mut acmd_agents = vec![
        instance(1, 0x100, 0x100, Vec::new()),
        instance(9, 0x300, 0x100, Vec::new()),
    ];
    let mut status_agents: Vec<StatusInstance> = Vec::new();
    let create_agents = vec![CreateAgentInfo {
        module: b"mario".to_vec(),
        category: Category::ACMD_GAME,
        is_share: false,
        original: 0x100,
        hashes: vec![1, 5],
    }];
    let status_create_agents: Vec<StatusCreateAgentInfo> = Vec::new();
    clear_loaded_agent(
        &mut acmd_agents,
        &mut status_agents,
        &create_agents,
        &status_create_agents,
        b"mario",
    );
    // Only the instance whose identity the module's constructor produces
    // is dropped.
    assert_eq!(acmd_agents.len(), 1);
    assert_eq!(acmd_agents[0].hash, 9);
}

#[test]
fn status_retroactive_install_and_purge() {
    let consts = ConstTable::new();
    let mut registry = StatusRegistry::new();
    registry.resolve_conflicts_at_finalize(ConstTable::new());
    let mut agents = vec![StatusInstance {
        handle: 0xB0,
        hash: 1,
        module_base: 0x100,
        module_size: 0x100,
        vtable: Vec::new(),
        statuses: Vec::new(),
    }];
    let mut slots = Slots::new();
    let slot = slots.new_slot();
    let mut info = StatusInfo {
        agent: 1,
        status: LuaConstant::Evaluated(10),
        condition: LuaConstant::Evaluated(20),
        low_priority: false,
        replacement: 0x5000,
        original: Some(slot),
        backup: 0,
    };
    // Null per-instance entry: safe to install.
    let patched = install_live_status_scripts(
        &mut agents, &mut info, false, 0x8000, 0x100, &consts, &mut slots,
    );
    assert!(patched);
    assert_eq!(info.backup, 0);
    assert_eq!(registry.replace_status_script(info), RegisterOutcome::Added);
    let key_present = {
        let k = smashline::scripts::make_status_key(10, 20);
        dispatch_get(&agents[0].statuses, k)
    };
    assert_eq!(key_present, 0x5000);

    remove_live_status_scripts(&mut agents, &registry, 0x4000, 0x6000, &consts);
    let k = smashline::scripts::make_status_key(10, 20);
    assert_eq!(dispatch_get(&agents[0].statuses, k), 0);
}

#[test]
fn recreated_vtable_layout() {
    let host: Vec<u64> = (0..15).map(|i| 0x1000 + i as u64).collect();
    let v = recreate_status_vtable(&host, 0xABC, 0x20, 0x21, 0x22);
    assert_eq!(v.len(), 19);
    assert_eq!(v[0], 0x20);
    assert_eq!(v[1], 0x21);
    assert_eq!(v[9], 0x22);
    assert_eq!(v[2], 0x1002);
    assert_eq!(v[STATUS_DTOR], 0x1000);
    assert_eq!(v[STATUS_DEL_DTOR], 0x1001);
    assert_eq!(v[STATUS_SET], 0x1009);
    assert_eq!(v[STATUS_AGENT_HASH], 0xABC);
}

#[test]
fn release_vtables_by_module_base() {
    let mut vtables = vec![(0x100u64, 0xAAu64), (0x200, 0xBB), (0x100, 0xCC)];
    release_status_vtables(&mut vtables, 0x100);
    assert_eq!(vtables, vec![(0x200, 0xBB)]);
}

#[test]
fn decode_classifies_the_four_patterns() {
    assert_eq!(decode_word(0xD65F03C0), DecodedInstr::Ret);
    assert_eq!(decode_word(0xD2824688), DecodedInstr::Movz { imm16: 0x1234, rd: 8 });
    assert_eq!(decode_word(0xF2B579A8), DecodedInstr::Movk { imm16: 0xABCD, rd: 8 });
    assert_eq!(decode_word(0xEB08001F), DecodedInstr::SubsShift { rm: 8 });
    assert_eq!(decode_word(0x00000000), DecodedInstr::Other);
    assert_eq!(get_movk_offset(0xF2B579A8), 1);
    assert_eq!(get_movk_offset(0xF2D579A8), 2);
}

#[test]
fn identity_scan_recovers_compared_constants() {
    // movz x8, #0x1234; movk x8, #0xABCD, lsl 16; cmp x0, x8; ret;
    // then a stray constant after the return that must not be scanned.
    let code: Vec<u32> = vec![0xD2824688, 0xF2B579A8, 0xEB08001F, 0xD65F03C0, 0xD2824688];
    let hashes = read_hashes_from_executable(&code, 0);
    assert_eq!(hashes, vec![0xABCD1234]);
    // Starting past the return finds nothing to compare.
    let hashes = read_hashes_from_executable(&code, 4);
    assert_eq!(hashes, vec![]);
}

#[test]
fn mangled_creation_symbol_matches_the_scheme() {
    let sym = format_create_agent_symbol(b"mario", b"animcmd_game");
    assert_eq!(
        sym,
        b"_ZN7lua2cpp39create_agent_fighter_animcmd_game_marioEN3phx6Hash40EPN3app12BattleObjectEPNS2_26BattleObjectModuleAccessorEP9lua_State".to_vec()
    );
}

#[test]
fn creation_lookup_prefers_the_latest_entry() {
    // A module that unloaded and reloaded under the same name leaves two
    // tracked entries; only the freshest constructor address is live.
    let entries = vec![
        CreateAgentInfo {
            module: b"mario".to_vec(),
            category: Category::ACMD_GAME,
            is_share: false,
            original: 0x100100,
            hashes: vec![0x1],
        },
        CreateAgentInfo {
            module: b"mario".to_vec(),
            category: Category::ACMD_GAME,
            is_share: false,
            original: 0x200100,
            hashes: vec![0x1],
        },
    ];
    let found = smashline::scripts::find_create_agent(&entries, Category::ACMD_GAME, false, 0x1);
    assert_eq!(found, Some(1));
    let status_entries = vec![
        StatusCreateAgentInfo { module: b"mario".to_vec(), original: 0x100200, hashes: vec![0x1] },
        StatusCreateAgentInfo { module: b"mario".to_vec(), original: 0x200200, hashes: vec![0x1] },
    ];
    assert_eq!(smashline::scripts::find_status_create_agent(&status_entries, 0x1), Some(1));
}

#[test]
fn shared_records_are_restored_on_top_at_purge() {
    // The purge reverts an instance's own records first, then the shared
    // ones: when both hold the same resolved key, the shared backup is
    // what remains installed.
    let consts = ConstTable::new();
    let mut registry = StatusRegistry::new();
    registry.resolve_conflicts_at_finalize(ConstTable::new());
    let own = StatusInfo {
        agent: 1,
        status: LuaConstant::Evaluated(10),
        condition: LuaConstant::Evaluated(20),
        low_priority: false,
        replacement: 0x5000,
        original: None,
        backup: 0x111,
    };
    let shared = StatusInfo {
        agent: smashline::status::COMMON_AGENT_HASH,
        status: LuaConstant::Evaluated(10),
        condition: LuaConstant::Evaluated(20),
        low_priority: false,
        replacement: 0x5100,
        original: None,
        backup: 0x222,
    };
    registry.records.push(own);
    registry.common.push(shared);
    let k = smashline::scripts::make_status_key(10, 20);
    let mut agents = vec![StatusInstance {
        handle: 0xB1,
        hash: 1,
        module_base: 0x100,
        module_size: 0x100,
        vtable: Vec::new(),
        statuses: vec![(k, 0x5100)],
    }];
    remove_live_status_scripts(&mut agents, &registry, 0x4000, 0x6000, &consts);
    assert_eq!(dispatch_get(&agents[0].statuses, k), 0x222);
}
