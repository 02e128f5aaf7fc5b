//! The patch ledger: per-module queues of pending symbol replacements.  A
//! replacement registered before its target module loads is applied when the
//! module-load notification for that name arrives; the symbol's current
//! address is captured into the caller's backup slot, then the symbol table
//! entry is rewritten in place to the replacement.  On unload the backup
//! slots are nulled — the code they pointed into is being torn down.

use vstd::prelude::*;

use crate::resolver::ElfSymbol;
use crate::resolver::ModuleObject;
use crate::slots::Slots;
use crate::slots::write_opt_spec;

verus! {

/// One pending symbol replacement: target module name, symbol name, the
/// replacement code address, and an optional backup slot for the address
/// that was active before the rewrite.
pub struct HookCtx {
    pub module: Vec<u8>,
    pub symbol: Vec<u8>,
    pub replace: u64,
    pub original: Option<usize>,
}

impl HookCtx {
    /// The symbol name has no NUL byte (it must match a NUL-terminated
    /// string-table entry) and the backup slot, if any, is a real slot.
    pub open spec fn wf(self, slots: Slots) -> bool {
        &&& forall|k: int| 0 <= k < self.symbol@.len() ==> self.symbol@[k] != 0
        &&& slots.slot_ok(self.original)
    }
}

/// The ledger of pending symbol replacements, in registration order.
pub struct SymbolHooks {
    pub hooks: Vec<HookCtx>,
}

/// Two modules agree on everything except their symbol values.  Applying a
/// replacement only rewrites symbol values, and resolution never reads them,
/// so resolution results agree on same-shaped modules.
pub open spec fn same_shape(a: ModuleObject, b: ModuleObject) -> bool {
    &&& a.name@ == b.name@
    &&& a.base == b.base
    &&& a.size == b.size
    &&& a.hash_bucket@ == b.hash_bucket@
    &&& a.hash_chain@ == b.hash_chain@
    &&& a.dynstr@ == b.dynstr@
    &&& a.code@ == b.code@
    &&& a.dynsym@.len() == b.dynsym@.len()
    &&& forall|i: int|
        0 <= i < a.dynsym@.len() ==> a.dynsym@[i].st_name == b.dynsym@[i].st_name
            && a.dynsym@[i].st_shndx == b.dynsym@[i].st_shndx
}

/// Chain walks agree on same-shaped modules.
pub proof fn lemma_same_shape_chain(a: ModuleObject, b: ModuleObject, i: int, name: Seq<u8>, fuel: nat)
    requires
        same_shape(a, b),
        a.wf(),
        0 <= i < a.dynsym@.len(),
    ensures
        a.chain_lookup(i, name, fuel) == b.chain_lookup(i, name, fuel),
    decreases fuel,
{
    if fuel > 0 && i != 0 {
        assert(a.sym_common(i) == b.sym_common(i));
        assert(a.name_matches(i, name) == b.name_matches(i, name));
        lemma_same_shape_chain(a, b, a.hash_chain@[i] as int, name, (fuel - 1) as nat);
    }
}

/// Resolution agrees on same-shaped modules.
pub proof fn lemma_same_shape_resolve(a: ModuleObject, b: ModuleObject, name: Seq<u8>)
    requires
        same_shape(a, b),
        a.wf(),
    ensures
        a.resolve_spec(name) == b.resolve_spec(name),
{
    lemma_same_shape_chain(
        a,
        b,
        a.hash_bucket@[crate::resolver::elf_hash(name) as int % (a.hash_bucket@.len() as int)]
            as int,
        name,
        a.dynsym@.len() as nat,
    );
}

/// The effect of applying one replacement to a module's symbol values and
/// the slot store: if the module name matches and the symbol resolves, the
/// symbol's current address is captured into the backup slot and its value
/// is rewritten so it resolves to `replace`; otherwise nothing changes.
/// `m0` fixes the resolution results (they never change while values are
/// rewritten).
pub open spec fn apply_hook_spec(
    m0: ModuleObject,
    h: HookCtx,
    dynsym: Seq<ElfSymbol>,
    slots: Seq<u64>,
) -> (Seq<ElfSymbol>, Seq<u64>) {
    if h.module@ == m0.name@ {
        match m0.resolve_spec(h.symbol@) {
            Some(i) => {
                if 0 <= i < dynsym.len() {
                    let captured = vstd::wrapping::u64_specs::wrapping_add(
                        dynsym[i].st_value,
                        m0.base,
                    );
                    let patched = ElfSymbol {
                        st_name: dynsym[i].st_name,
                        st_shndx: dynsym[i].st_shndx,
                        st_value: vstd::wrapping::u64_specs::wrapping_sub(h.replace, m0.base),
                    };
                    (dynsym.update(i, patched), write_opt_spec(slots, h.original, captured))
                } else {
                    (dynsym, slots)
                }
            },
            None => (dynsym, slots),
        }
    } else {
        (dynsym, slots)
    }
}

/// The effect of applying a queue of replacements in order.
pub open spec fn apply_hooks_spec(
    m0: ModuleObject,
    hooks: Seq<HookCtx>,
    dynsym: Seq<ElfSymbol>,
    slots: Seq<u64>,
) -> (Seq<ElfSymbol>, Seq<u64>)
    decreases hooks.len(),
{
    if hooks.len() == 0 {
        (dynsym, slots)
    } else {
        let prev = apply_hooks_spec(m0, hooks.drop_last(), dynsym, slots);
        apply_hook_spec(m0, hooks.last(), prev.0, prev.1)
    }
}

/// Applying hooks never changes the number of symbols or slots.
pub proof fn lemma_apply_hooks_len(
    m0: ModuleObject,
    hooks: Seq<HookCtx>,
    dynsym: Seq<ElfSymbol>,
    slots: Seq<u64>,
)
    ensures
        apply_hooks_spec(m0, hooks, dynsym, slots).0.len() == dynsym.len(),
        apply_hooks_spec(m0, hooks, dynsym, slots).1.len() == slots.len(),
    decreases hooks.len(),
{
    if hooks.len() > 0 {
        lemma_apply_hooks_len(m0, hooks.drop_last(), dynsym, slots);
    }
}

impl SymbolHooks {
    /// An empty ledger.
    pub fn new() -> (r: SymbolHooks)
        ensures
            r.hooks@.len() == 0,
    {
        SymbolHooks { hooks: Vec::new() }
    }

    /// Every queued replacement is well formed against the slot store.
    pub open spec fn wf(self, slots: Slots) -> bool {
        forall|j: int| 0 <= j < self.hooks@.len() ==> self.hooks@[j].wf(slots)
    }

    /// Queue a replacement for a module that has not loaded yet.  It is
    /// applied on every later load of a module with that name.
    pub fn replace_symbol(
        &mut self,
        module: Vec<u8>,
        symbol: Vec<u8>,
        replace: u64,
        original: Option<usize>,
        slots: &Slots,
    )
        requires
            forall|k: int| 0 <= k < symbol@.len() ==> symbol@[k] != 0,
            slots.slot_ok(original),
            old(self).wf(*slots),
        ensures
            final(self).hooks@.len() == old(self).hooks@.len() + 1,
            final(self).hooks@.last().module@ == module@,
            final(self).hooks@.last().symbol@ == symbol@,
            final(self).hooks@.last().replace == replace,
            final(self).hooks@.last().original == original,
            final(self).hooks@.drop_last() == old(self).hooks@,
            final(self).wf(*slots),
    {
        let ctx = HookCtx { module, symbol, replace, original };
        self.hooks.push(ctx);
        proof {
            assert(self.hooks@.drop_last() =~= old(self).hooks@);
        }
    }

    /// Apply every queued replacement whose module name matches the newly
    /// loaded module, in registration order.  A symbol that does not resolve
    /// is skipped and stays queued for a later load of a same-named module.
    pub fn on_module_load(&self, m: &mut ModuleObject, slots: &mut Slots)
        requires
            old(m).wf(),
            self.wf(*old(slots)),
        ensures
            final(m).wf(),
            same_shape(*old(m), *final(m)),
            (final(m).dynsym@, final(slots).values@) == apply_hooks_spec(
                *old(m),
                self.hooks@,
                old(m).dynsym@,
                old(slots).values@,
            ),
            final(slots).values@.len() == old(slots).values@.len(),
            self.wf(*final(slots)),
    {
        let n = self.hooks.len();
        let mut j: usize = 0;
        proof {
            assert(self.hooks@.take(0) =~= Seq::<HookCtx>::empty());
        }
        while j < n
            invariant
                n == self.hooks@.len(),
                0 <= j <= n,
                m.wf(),
                same_shape(*old(m), *m),
                self.wf(*old(slots)),
                (m.dynsym@, slots.values@) == apply_hooks_spec(
                    *old(m),
                    self.hooks@.take(j as int),
                    old(m).dynsym@,
                    old(slots).values@,
                ),
                slots.values@.len() == old(slots).values@.len(),
            decreases n - j,
        {
            proof {
                assert(self.hooks@.take(j + 1).drop_last() =~= self.hooks@.take(j as int));
                assert(self.hooks@.take(j + 1).last() == self.hooks@[j as int]);
            }
            let hook = &self.hooks[j];
            if crate::bytes_eq(hook.module.as_slice(), m.name.as_slice()) {
                let found = crate::resolver::get_symbol_by_name(m, hook.symbol.as_slice());
                proof {
                    lemma_same_shape_resolve(*old(m), *m, hook.symbol@);
                }
                match found {
                    Some(i) => {
                        let sym = m.dynsym[i];
                        let captured = sym.st_value.wrapping_add(m.base);
                        slots.write_opt(hook.original, captured);
                        let patched = ElfSymbol {
                            st_name: sym.st_name,
                            st_shndx: sym.st_shndx,
                            st_value: hook.replace.wrapping_sub(m.base),
                        };
                        m.dynsym.set(i, patched);
                    },
                    None => {
                        // Not found: logged by the caller, request stays queued.
                    },
                }
            }
            j = j + 1;
        }
        proof {
            assert(self.hooks@.take(n as int) =~= self.hooks@);
        }
    }

    /// On unload of a module, null the backup slot of every replacement that
    /// targeted it: the "original" code is no longer callable.  The in-table
    /// rewrite is not undone — the module's memory is being torn down.
    pub fn on_module_unload(&self, module_name: &[u8], slots: &mut Slots)
        requires
            self.wf(*old(slots)),
        ensures
            final(slots).values@ == null_hooks_spec(
                self.hooks@,
                module_name@,
                old(slots).values@,
            ),
            final(slots).values@.len() == old(slots).values@.len(),
            self.wf(*final(slots)),
    {
        proof {
            lemma_null_hooks_len(self.hooks@, module_name@, old(slots).values@);
        }
        let n = self.hooks.len();
        let mut j: usize = 0;
        proof {
            assert(self.hooks@.take(0) =~= Seq::<HookCtx>::empty());
        }
        while j < n
            invariant
                n == self.hooks@.len(),
                0 <= j <= n,
                self.wf(*old(slots)),
                slots.values@ == null_hooks_spec(
                    self.hooks@.take(j as int),
                    module_name@,
                    old(slots).values@,
                ),
                slots.values@.len() == old(slots).values@.len(),
            decreases n - j,
        {
            proof {
                assert(self.hooks@.take(j + 1).drop_last() =~= self.hooks@.take(j as int));
                assert(self.hooks@.take(j + 1).last() == self.hooks@[j as int]);
            }
            let hook = &self.hooks[j];
            if crate::bytes_eq(hook.module.as_slice(), module_name) {
                match hook.original {
                    Some(id) => {
                        slots.write(id, 0);
                    },
                    None => (),
                }
            }
            j = j + 1;
        }
        proof {
            assert(self.hooks@.take(n as int) =~= self.hooks@);
        }
    }
}

/// The slot values after nulling the backup slot of every replacement that
/// targets `name`, in queue order.
pub open spec fn null_hooks_spec(hooks: Seq<HookCtx>, name: Seq<u8>, slots: Seq<u64>) -> Seq<u64>
    decreases hooks.len(),
{
    if hooks.len() == 0 {
        slots
    } else {
        let prev = null_hooks_spec(hooks.drop_last(), name, slots);
        let h = hooks.last();
        if h.module@ == name {
            write_opt_spec(prev, h.original, 0)
        } else {
            prev
        }
    }
}

/// Nulling backup slots never changes the number of slots.
pub proof fn lemma_null_hooks_len(hooks: Seq<HookCtx>, name: Seq<u8>, slots: Seq<u64>)
    ensures
        null_hooks_spec(hooks, name, slots).len() == slots.len(),
    decreases hooks.len(),
{
    if hooks.len() > 0 {
        lemma_null_hooks_len(hooks.drop_last(), name, slots);
    }
}

/// Resolve `symbol` in `m` and, if found, redirect it: capture the current
/// address into the backup slot, then rewrite the symbol value in place so
/// it resolves to `replace`.  Returns whether the symbol was found.
pub fn lazy_symbol_replace(
    m: &mut ModuleObject,
    symbol: &[u8],
    replace: u64,
    original: Option<usize>,
    slots: &mut Slots,
) -> (found: bool)
    requires
        old(m).wf(),
        forall|k: int| 0 <= k < symbol@.len() ==> symbol@[k] != 0,
        old(slots).slot_ok(original),
    ensures
        final(m).wf(),
        same_shape(*old(m), *final(m)),
        found == (old(m).resolve_spec(symbol@) is Some),
        final(slots).values@.len() == old(slots).values@.len(),
        match old(m).resolve_spec(symbol@) {
            Some(i) => {
                &&& final(m).dynsym@ == old(m).dynsym@.update(
                    i,
                    ElfSymbol {
                        st_name: old(m).dynsym@[i].st_name,
                        st_shndx: old(m).dynsym@[i].st_shndx,
                        st_value: vstd::wrapping::u64_specs::wrapping_sub(replace, old(m).base),
                    },
                )
                &&& final(slots).values@ == write_opt_spec(
                    old(slots).values@,
                    original,
                    old(m).sym_addr(i),
                )
            },
            None => {
                &&& final(m).dynsym@ == old(m).dynsym@
                &&& final(slots).values@ == old(slots).values@
            },
        },
{
    let found = crate::resolver::get_symbol_by_name(m, symbol);
    match found {
        Some(i) => {
            symbol_replace(m, i, replace, original, slots);
            true
        },
        None => false,
    }
}

/// Rewrite symbol `i` of `m` in place: capture its current address into the
/// backup slot, then store the value that makes it resolve to `replace`.
pub fn symbol_replace(
    m: &mut ModuleObject,
    i: usize,
    replace: u64,
    original: Option<usize>,
    slots: &mut Slots,
)
    requires
        old(m).wf(),
        i < old(m).dynsym@.len(),
        old(slots).slot_ok(original),
    ensures
        final(m).wf(),
        same_shape(*old(m), *final(m)),
        final(m).dynsym@ == old(m).dynsym@.update(
            i as int,
            ElfSymbol {
                st_name: old(m).dynsym@[i as int].st_name,
                st_shndx: old(m).dynsym@[i as int].st_shndx,
                st_value: vstd::wrapping::u64_specs::wrapping_sub(replace, old(m).base),
            },
        ),
        final(slots).values@ == write_opt_spec(
            old(slots).values@,
            original,
            old(m).sym_addr(i as int),
        ),
{
    let sym = m.dynsym[i];
    let captured = sym.st_value.wrapping_add(m.base);
    slots.write_opt(original, captured);
    let patched = ElfSymbol {
        st_name: sym.st_name,
        st_shndx: sym.st_shndx,
        st_value: replace.wrapping_sub(m.base),
    };
    m.dynsym.set(i, patched);
}

/// A statically linked target: either an already resolved code address, or
/// a symbol name the host must look up first.
pub enum StaticSymbol {
    Resolved(u64),
    Unresolved(Vec<u8>),
}

/// Redirect a statically linked symbol inside the module that owns it.  For
/// an unresolved name the symbol is found by name; for a resolved address
/// the symbol record is found by reverse lookup.  Returns whether a symbol
/// record was found and rewritten.
pub fn replace_static_symbol(
    m: &mut ModuleObject,
    symbol: &StaticSymbol,
    replace: u64,
    original: Option<usize>,
    slots: &mut Slots,
) -> (found: bool)
    requires
        old(m).wf(),
        match symbol {
            StaticSymbol::Unresolved(name) => forall|k: int|
                0 <= k < name@.len() ==> name@[k] != 0,
            StaticSymbol::Resolved(_) => true,
        },
        old(slots).slot_ok(original),
    ensures
        final(m).wf(),
        same_shape(*old(m), *final(m)),
        final(slots).values@.len() == old(slots).values@.len(),
        match symbol {
            StaticSymbol::Unresolved(name) => {
                &&& found == (old(m).resolve_spec(name@) is Some)
                &&& match old(m).resolve_spec(name@) {
                    Some(i) => final(m).dynsym@ == old(m).dynsym@.update(
                        i,
                        ElfSymbol {
                            st_name: old(m).dynsym@[i].st_name,
                            st_shndx: old(m).dynsym@[i].st_shndx,
                            st_value: vstd::wrapping::u64_specs::wrapping_sub(
                                replace,
                                old(m).base,
                            ),
                        },
                    ) && final(slots).values@ == write_opt_spec(
                        old(slots).values@,
                        original,
                        old(m).sym_addr(i),
                    ),
                    None => final(m).dynsym@ == old(m).dynsym@ && final(slots).values@ == old(
                        slots,
                    ).values@,
                }
            },
            StaticSymbol::Resolved(addr) => {
                &&& (!found) ==> final(m).dynsym@ == old(m).dynsym@ && final(slots).values@
                    == old(slots).values@ && forall|j: int|
                    0 <= j < old(m).dynsym@.len() ==> !old(m).addr_match(
                        j,
                        addr.wrapping_sub(old(m).base),
                    )
                &&& found ==> exists|i: int|
                    {
                        &&& 0 <= i < old(m).dynsym@.len()
                        &&& old(m).addr_match(i, addr.wrapping_sub(old(m).base))
                        &&& final(m).dynsym@ == old(m).dynsym@.update(
                            i,
                            ElfSymbol {
                                st_name: old(m).dynsym@[i].st_name,
                                st_shndx: old(m).dynsym@[i].st_shndx,
                                st_value: vstd::wrapping::u64_specs::wrapping_sub(
                                    replace,
                                    old(m).base,
                                ),
                            },
                        )
                        &&& final(slots).values@ == write_opt_spec(
                            old(slots).values@,
                            original,
                            old(m).sym_addr(i),
                        )
                    }
            },
        },
{
    match symbol {
        StaticSymbol::Unresolved(name) => lazy_symbol_replace(
            m,
            name.as_slice(),
            replace,
            original,
            slots,
        ),
        StaticSymbol::Resolved(addr) => {
            match crate::resolver::get_symbol_by_resolved_address(m, *addr) {
                Some(i) => {
                    symbol_replace(m, i, replace, original, slots);
                    true
                },
                None => false,
            }
        },
    }
}

} // verus!
