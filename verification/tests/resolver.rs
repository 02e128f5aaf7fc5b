//! Symbol resolution, hashing, and in-table patching.

use smashline::resolver::{
    gen_rtld_elf_hash, get_symbol_by_name, get_symbol_by_resolved_address,
    get_module_object_from_address, ElfSymbol, Mod0, Mod0Header, ModuleObject, MOD0_MAGIC,
};
use smashline::hooks::{lazy_symbol_replace, replace_static_symbol, symbol_replace, StaticSymbol};
use smashline::nx::{MemoryInfo, MemoryState, PageInfo, QueryMemoryResult};
use smashline::slots::Slots;
use smashline::EngineError;

/// A module with two defining symbols, `name1` and `name2`, reachable from
/// one hash bucket.
fn sample_module() -> ModuleObject {
    ModuleObject {
        name: b"mod1".to_vec(),
        base: 0x10000,
        size: 0x1000,
        hash_bucket: vec![1],
        hash_chain: vec![0, 2, 0],
        dynsym: vec![
            ElfSymbol { st_name: 0, st_shndx: 0, st_value: 0 },
            ElfSymbol { st_name: 1, st_shndx: 1, st_value: 0x100 },
            ElfSymbol { st_name: 7, st_shndx: 1, st_value: 0x200 },
        ],
        dynstr: b"\0name1\0name2\0".to_vec(),
        code: Vec::new(),
    }
}

fn region(base: u64, size: u64) -> QueryMemoryResult {
    QueryMemoryResult {
        mem_info: MemoryInfo {
            base_address: base,
            size,
            state: MemoryState::Code,
            attribute: 0,
            permission: 5,
            device_refcount: 0,
            ipc_refcount: 0,
            padding: 0,
        },
        page_info: PageInfo { flags: 0 },
    }
}

#[test]
fn elf_hash_known_values() {
    assert_eq!(gen_rtld_elf_hash(b""), 0);
    assert_eq!(gen_rtld_elf_hash(b"main"), 0x737fe);
    assert_eq!(gen_rtld_elf_hash(b"name1"), 0x748381);
}

#[test]
fn resolve_by_name_finds_each_symbol() {
    let m = sample_module();
    assert_eq!(get_symbol_by_name(&m, b"name1"), Some(1));
    assert_eq!(get_symbol_by_name(&m, b"name2"), Some(2));
    assert_eq!(get_symbol_by_name(&m, b"name3"), None);
    assert_eq!(get_symbol_by_name(&m, b"name"), None);
    assert_eq!(get_symbol_by_name(&m, b"name12"), None);
}

#[test]
fn resolve_skips_common_symbols() {
    let mut m = sample_module();
    m.dynsym[1].st_shndx = 0xFFF2;
    assert_eq!(get_symbol_by_name(&m, b"name1"), None);
    assert_eq!(get_symbol_by_name(&m, b"name2"), Some(2));
}

#[test]
fn resolve_by_address_finds_first_defining_match() {
    let m = sample_module();
    assert_eq!(get_symbol_by_resolved_address(&m, 0x10100), Some(1));
    assert_eq!(get_symbol_by_resolved_address(&m, 0x10200), Some(2));
    assert_eq!(get_symbol_by_resolved_address(&m, 0x10300), None);
}

#[test]
fn symbol_replace_rewrites_and_captures_backup() {
    let mut m = sample_module();
    let mut slots = Slots::new();
    let slot = slots.new_slot();
    symbol_replace(&mut m, 1, 0x7000, Some(slot), &mut slots);
    // The backup slot holds the pre-patch resolved address.
    assert_eq!(slots.read(slot), 0x10100);
    // The symbol now resolves to the replacement, even though the
    // replacement lies below the module base (the rewrite wraps).
    let idx = get_symbol_by_name(&m, b"name1").unwrap();
    assert_eq!(m.dynsym[idx].st_value.wrapping_add(m.base), 0x7000);
}

#[test]
fn lazy_symbol_replace_reports_missing_symbols() {
    let mut m = sample_module();
    let mut slots = Slots::new();
    let found = lazy_symbol_replace(&mut m, b"absent", 0x7000, None, &mut slots);
    assert!(!found);
    assert_eq!(m.dynsym[1].st_value, 0x100);
    let found = lazy_symbol_replace(&mut m, b"name2", 0x20000, None, &mut slots);
    assert!(found);
    assert_eq!(m.dynsym[2].st_value.wrapping_add(m.base), 0x20000);
}

#[test]
fn static_symbol_replace_by_resolved_address() {
    let mut m = sample_module();
    let mut slots = Slots::new();
    let slot = slots.new_slot();
    let found = replace_static_symbol(
        &mut m,
        &StaticSymbol::Resolved(0x10200),
        0x9000,
        Some(slot),
        &mut slots,
    );
    assert!(found);
    assert_eq!(slots.read(slot), 0x10200);
    assert_eq!(m.dynsym[2].st_value.wrapping_add(m.base), 0x9000);
    let found = replace_static_symbol(&mut m, &StaticSymbol::Resolved(0xdead), 0x9000, None, &mut slots);
    assert!(!found);
}

#[test]
fn module_object_location_checks_magic() {
    let mem = region(0x80000, 0x4000);
    let header = Mod0Header { reserved: 0, mod0_offset: 0x40 };
    let good = Mod0 {
        magic: MOD0_MAGIC,
        dynamic_offset: 0,
        bss_start_offset: 0,
        bss_end_offset: 0,
        unwind_start_offset: 0,
        unwind_end_offset: 0,
        module_object_offset: 0x10,
    };
    assert_eq!(get_module_object_from_address(&mem, header, good), Ok(0x80050));
    let bad = Mod0 { magic: 0x12345678, ..good };
    assert_eq!(
        get_module_object_from_address(&mem, header, bad),
        Err(EngineError::InvariantViolation)
    );
}
