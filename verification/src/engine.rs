//! External-facing entry points, wired together per module-lifecycle event.
//! The engine owns the patch ledger, the override registries, the live
//! instance tracker, the backup-slot store and the extension-region
//! bookkeeping; the host's loader glue drives it with load and unload
//! notifications, construction events, and extension registrations.

use vstd::prelude::*;

use crate::acmd::AcmdRegistry;
use crate::acmd::Category;
use crate::acmd::ScriptInfo;
use crate::callbacks::CallbackTables;
use crate::constant::ConstTable;
use crate::constant::LuaConstant;
use crate::hooks::SymbolHooks;
use crate::nx::QueryMemoryResult;
use crate::resolver::ModuleObject;
use crate::scripts::AcmdInstance;
use crate::scripts::CreateAgentInfo;
use crate::scripts::StatusCreateAgentInfo;
use crate::scripts::StatusInstance;
use crate::slots::Slots;
use crate::status::StatusInfo;
use crate::status::StatusRegistry;
use crate::unwind::PluginRegistry;
use crate::RegisterOutcome;

verus! {

/// The name of the shared bootstrap module.
pub open spec fn common_module_name_spec() -> Seq<u8> {
    seq![99u8, 111u8, 109u8, 109u8, 111u8, 110u8]
}

/// Build the byte string `"common"`.
pub fn common_module_name() -> (r: Vec<u8>)
    ensures
        r@ == common_module_name_spec(),
{
    let mut v: Vec<u8> = Vec::new();
    v.push(99);
    v.push(111);
    v.push(109);
    v.push(109);
    v.push(111);
    v.push(110);
    proof {
        assert(v@ =~= common_module_name_spec());
    }
    v
}

/// The name of the item module, which defines no tracked creation paths.
pub open spec fn item_module_name_spec() -> Seq<u8> {
    seq![105u8, 116u8, 101u8, 109u8]
}

/// Build the byte string `"item"`.
pub fn item_module_name() -> (r: Vec<u8>)
    ensures
        r@ == item_module_name_spec(),
{
    let mut v: Vec<u8> = Vec::new();
    v.push(105);
    v.push(116);
    v.push(101);
    v.push(109);
    proof {
        assert(v@ =~= item_module_name_spec());
    }
    v
}

/// The exported name of the shared-table setup entry.
pub open spec fn common_table_symbol_spec() -> Seq<u8> {
    seq![95u8, 90u8, 78u8, 55u8, 108u8, 117u8, 97u8, 50u8, 99u8, 112u8, 112u8, 49u8, 54u8, 76u8, 50u8, 67u8, 70u8, 105u8, 103u8, 104u8, 116u8, 101u8, 114u8, 67u8, 111u8, 109u8, 109u8, 111u8, 110u8, 50u8, 56u8, 115u8, 117u8, 98u8, 95u8, 115u8, 101u8, 116u8, 95u8, 102u8, 105u8, 103u8, 104u8, 116u8, 101u8, 114u8, 95u8, 99u8, 111u8, 109u8, 109u8, 111u8, 110u8, 95u8, 116u8, 97u8, 98u8, 108u8, 101u8, 69u8, 118u8]
}

/// Build the byte string `"_ZN7lua2cpp16L2CFighterCommon28sub_set_fighter_common_tableEv"`.
pub fn common_table_symbol() -> (r: Vec<u8>)
    ensures
        r@ == common_table_symbol_spec(),
{
    let mut v: Vec<u8> = Vec::new();
    v.push(95);
    v.push(90);
    v.push(78);
    v.push(55);
    v.push(108);
    v.push(117);
    v.push(97);
    v.push(50);
    v.push(99);
    v.push(112);
    v.push(112);
    v.push(49);
    v.push(54);
    v.push(76);
    v.push(50);
    v.push(67);
    v.push(70);
    v.push(105);
    v.push(103);
    v.push(104);
    v.push(116);
    v.push(101);
    v.push(114);
    v.push(67);
    v.push(111);
    v.push(109);
    v.push(109);
    v.push(111);
    v.push(110);
    v.push(50);
    v.push(56);
    v.push(115);
    v.push(117);
    v.push(98);
    v.push(95);
    v.push(115);
    v.push(101);
    v.push(116);
    v.push(95);
    v.push(102);
    v.push(105);
    v.push(103);
    v.push(104);
    v.push(116);
    v.push(101);
    v.push(114);
    v.push(95);
    v.push(99);
    v.push(111);
    v.push(109);
    v.push(109);
    v.push(111);
    v.push(110);
    v.push(95);
    v.push(116);
    v.push(97);
    v.push(98);
    v.push(108);
    v.push(101);
    v.push(69);
    v.push(118);
    proof {
        assert(v@ =~= common_table_symbol_spec());
    }
    v
}

/// The exported name of the fighter init entry.
pub open spec fn fighter_init_symbol_spec() -> Seq<u8> {
    seq![95u8, 90u8, 78u8, 55u8, 108u8, 117u8, 97u8, 50u8, 99u8, 112u8, 112u8, 49u8, 54u8, 76u8, 50u8, 67u8, 70u8, 105u8, 103u8, 104u8, 116u8, 101u8, 114u8, 67u8, 111u8, 109u8, 109u8, 111u8, 110u8, 50u8, 48u8, 115u8, 121u8, 115u8, 95u8, 108u8, 105u8, 110u8, 101u8, 95u8, 115u8, 121u8, 115u8, 116u8, 101u8, 109u8, 95u8, 105u8, 110u8, 105u8, 116u8, 69u8, 118u8]
}

/// Build the byte string `"_ZN7lua2cpp16L2CFighterCommon20sys_line_system_initEv"`.
pub fn fighter_init_symbol() -> (r: Vec<u8>)
    ensures
        r@ == fighter_init_symbol_spec(),
{
    let mut v: Vec<u8> = Vec::new();
    v.push(95);
    v.push(90);
    v.push(78);
    v.push(55);
    v.push(108);
    v.push(117);
    v.push(97);
    v.push(50);
    v.push(99);
    v.push(112);
    v.push(112);
    v.push(49);
    v.push(54);
    v.push(76);
    v.push(50);
    v.push(67);
    v.push(70);
    v.push(105);
    v.push(103);
    v.push(104);
    v.push(116);
    v.push(101);
    v.push(114);
    v.push(67);
    v.push(111);
    v.push(109);
    v.push(109);
    v.push(111);
    v.push(110);
    v.push(50);
    v.push(48);
    v.push(115);
    v.push(121);
    v.push(115);
    v.push(95);
    v.push(108);
    v.push(105);
    v.push(110);
    v.push(101);
    v.push(95);
    v.push(115);
    v.push(121);
    v.push(115);
    v.push(116);
    v.push(101);
    v.push(109);
    v.push(95);
    v.push(105);
    v.push(110);
    v.push(105);
    v.push(116);
    v.push(69);
    v.push(118);
    proof {
        assert(v@ =~= fighter_init_symbol_spec());
    }
    v
}

/// The exported name of the weapon init entry.
pub open spec fn weapon_init_symbol_spec() -> Seq<u8> {
    seq![95u8, 90u8, 78u8, 55u8, 108u8, 117u8, 97u8, 50u8, 99u8, 112u8, 112u8, 49u8, 52u8, 76u8, 50u8, 67u8, 70u8, 105u8, 103u8, 104u8, 116u8, 101u8, 114u8, 66u8, 97u8, 115u8, 101u8, 50u8, 48u8, 115u8, 121u8, 115u8, 95u8, 108u8, 105u8, 110u8, 101u8, 95u8, 115u8, 121u8, 115u8, 116u8, 101u8, 109u8, 95u8, 105u8, 110u8, 105u8, 116u8, 69u8, 118u8]
}

/// Build the byte string `"_ZN7lua2cpp14L2CFighterBase20sys_line_system_initEv"`.
pub fn weapon_init_symbol() -> (r: Vec<u8>)
    ensures
        r@ == weapon_init_symbol_spec(),
{
    let mut v: Vec<u8> = Vec::new();
    v.push(95);
    v.push(90);
    v.push(78);
    v.push(55);
    v.push(108);
    v.push(117);
    v.push(97);
    v.push(50);
    v.push(99);
    v.push(112);
    v.push(112);
    v.push(49);
    v.push(52);
    v.push(76);
    v.push(50);
    v.push(67);
    v.push(70);
    v.push(105);
    v.push(103);
    v.push(104);
    v.push(116);
    v.push(101);
    v.push(114);
    v.push(66);
    v.push(97);
    v.push(115);
    v.push(101);
    v.push(50);
    v.push(48);
    v.push(115);
    v.push(121);
    v.push(115);
    v.push(95);
    v.push(108);
    v.push(105);
    v.push(110);
    v.push(101);
    v.push(95);
    v.push(115);
    v.push(121);
    v.push(115);
    v.push(116);
    v.push(101);
    v.push(109);
    v.push(95);
    v.push(105);
    v.push(110);
    v.push(105);
    v.push(116);
    v.push(69);
    v.push(118);
    proof {
        assert(v@ =~= weapon_init_symbol_spec());
    }
    v
}

/// The code addresses of the engine's own interception entry points, as
/// the host glue linked them: the creation-path redirections per category
/// and sharing kind, the conditional creation redirection, the recreated
/// vtable's teardown and setup entries, and the shared-table and init
/// replacements registered on the bootstrap module.
#[derive(Clone, Copy)]
pub struct Redirects {
    pub animcmd_game: u64,
    pub animcmd_game_share: u64,
    pub animcmd_effect: u64,
    pub animcmd_effect_share: u64,
    pub animcmd_sound: u64,
    pub animcmd_sound_share: u64,
    pub animcmd_expression: u64,
    pub animcmd_expression_share: u64,
    pub status_create: u64,
    pub status_dtor: u64,
    pub status_del_dtor: u64,
    pub status_set: u64,
    pub common_table: u64,
    pub fighter_init: u64,
    pub weapon_init: u64,
}

impl Redirects {
    /// The creation-path redirection for one category and sharing kind.
    pub open spec fn animcmd(self, category: Category, is_share: bool) -> u64 {
        match category {
            Category::ACMD_GAME => if is_share {
                self.animcmd_game_share
            } else {
                self.animcmd_game
            },
            Category::ACMD_EFFECT => if is_share {
                self.animcmd_effect_share
            } else {
                self.animcmd_effect
            },
            Category::ACMD_SOUND => if is_share {
                self.animcmd_sound_share
            } else {
                self.animcmd_sound
            },
            Category::ACMD_EXPRESSION => if is_share {
                self.animcmd_expression_share
            } else {
                self.animcmd_expression
            },
        }
    }
}

/// The whole override engine: one explicitly constructed value with
/// process-wide lifetime, driven by the host glue.
pub struct Smashline {
    pub slots: Slots,
    pub hooks: SymbolHooks,
    pub acmd: AcmdRegistry,
    pub status: StatusRegistry,
    pub callbacks: CallbackTables,
    pub plugins: PluginRegistry,
    pub acmd_agents: Vec<AcmdInstance>,
    pub status_agents: Vec<StatusInstance>,
    pub create_agents: Vec<CreateAgentInfo>,
    pub status_create_agents: Vec<StatusCreateAgentInfo>,
    pub vtables: Vec<(u64, u64)>,
    pub common_region: Option<(u64, u64)>,
    pub common_table_slot: usize,
    pub redirects: Redirects,
}

impl Smashline {
    /// Every table is internally consistent and every backup slot any
    /// record or frame replacement names is a real slot of the store.
    pub open spec fn wf(self) -> bool {
        &&& self.hooks.wf(self.slots)
        &&& self.acmd.wf()
        &&& self.status.wf()
        &&& self.common_table_slot < self.slots.values@.len()
        &&& forall|j: int|
            0 <= j < self.acmd.records@.len() ==> self.slots.slot_ok(
                (#[trigger] self.acmd.records@[j]).original,
            )
        &&& forall|j: int|
            0 <= j < self.status.records@.len() ==> self.slots.slot_ok(
                (#[trigger] self.status.records@[j]).original,
            )
        &&& forall|j: int|
            0 <= j < self.status.common@.len() ==> self.slots.slot_ok(
                (#[trigger] self.status.common@[j]).original,
            )
        &&& forall|j: int|
            0 <= j < self.callbacks.fighter_frames@.len() ==> self.slots.slot_ok(
                (#[trigger] self.callbacks.fighter_frames@[j]).original,
            )
        &&& forall|j: int|
            0 <= j < self.callbacks.weapon_frames@.len() ==> self.slots.slot_ok(
                (#[trigger] self.callbacks.weapon_frames@[j]).original,
            )
        &&& forall|i: int| 0 <= i < self.acmd_agents@.len() ==> (#[trigger] self.acmd_agents@[i]).wf()
        &&& forall|i: int|
            0 <= i < self.status_agents@.len() ==> (#[trigger] self.status_agents@[i]).wf()
        &&& match self.status.consts {
            Some(t) => forall|j: int|
                0 <= j < self.callbacks.fighter_frames@.len() ==> (#[trigger] self.callbacks.fighter_frames@[j]).agent.resolvable(
                    t,
                ),
            None => true,
        }
        &&& match self.status.consts {
            Some(t) => forall|j: int|
                0 <= j < self.callbacks.weapon_frames@.len() ==> (#[trigger] self.callbacks.weapon_frames@[j]).agent.resolvable(
                    t,
                ),
            None => true,
        }
    }

    /// A fresh engine: empty tables, one slot reserved for the original
    /// shared-table setup entry, no bootstrap region seen yet.
    pub fn new(redirects: Redirects) -> (r: Smashline)
        ensures
            r.wf(),
            r.hooks.hooks@.len() == 0,
            r.acmd.records@.len() == 0,
            r.status.records@.len() == 0,
            r.status.common@.len() == 0,
            r.status.consts is None,
            r.acmd_agents@.len() == 0,
            r.status_agents@.len() == 0,
            r.create_agents@.len() == 0,
            r.status_create_agents@.len() == 0,
            r.vtables@.len() == 0,
            r.common_region is None,
            r.redirects == redirects,
    {
        let mut slots = Slots::new();
        let common_table_slot = slots.new_slot();
        Smashline {
            slots,
            hooks: SymbolHooks::new(),
            acmd: AcmdRegistry::new(),
            status: StatusRegistry::new(),
            callbacks: CallbackTables::new(),
            plugins: PluginRegistry::new(),
            acmd_agents: Vec::new(),
            status_agents: Vec::new(),
            create_agents: Vec::new(),
            status_create_agents: Vec::new(),
            vtables: Vec::new(),
            common_region: None,
            common_table_slot,
            redirects,
        }
    }

    /// One-time setup before any module-load notification fires: queue the
    /// shared-table setup replacement and the two init replacements against
    /// the bootstrap module, so they are applied the moment it loads.
    pub fn install(&mut self)
        requires
            old(self).wf(),
        ensures
            *final(self) == (Smashline {
                hooks: final(self).hooks,
                ..*old(self)
            }),
            final(self).wf(),
            final(self).hooks.hooks@.len() == old(self).hooks.hooks@.len() + 3,
            final(self).hooks.hooks@.take(old(self).hooks.hooks@.len() as int) == old(
                self,
            ).hooks.hooks@,
            final(self).slots == old(self).slots,
            final(self).acmd == old(self).acmd,
            final(self).status == old(self).status,
            final(self).acmd_agents@ == old(self).acmd_agents@,
            final(self).status_agents@ == old(self).status_agents@,
            final(self).common_region == old(self).common_region,
    {
        let ghost hooks0 = self.hooks.hooks@;
        proof {
            lemma_common_table_symbol_no_nul();
            lemma_init_symbols_no_nul();
        }
        self.hooks.replace_symbol(
            common_module_name(),
            common_table_symbol(),
            self.redirects.common_table,
            Some(self.common_table_slot),
            &self.slots,
        );
        self.hooks.replace_symbol(
            common_module_name(),
            fighter_init_symbol(),
            self.redirects.fighter_init,
            None,
            &self.slots,
        );
        self.hooks.replace_symbol(
            common_module_name(),
            weapon_init_symbol(),
            self.redirects.weapon_init,
            None,
            &self.slots,
        );
        proof {
            assert(self.hooks.hooks@.take(hooks0.len() as int)
                =~= self.hooks.hooks@.drop_last().drop_last().drop_last());
            assert(self.hooks.hooks@.drop_last().drop_last().drop_last() =~= hooks0);
        }
    }

    /// Queue a symbol replacement for a module by name; it is applied on
    /// every later load of a module with that name.
    pub fn replace_symbol(
        &mut self,
        module: Vec<u8>,
        symbol: Vec<u8>,
        replace: u64,
        original: Option<usize>,
    )
        requires
            old(self).wf(),
            forall|k: int| 0 <= k < symbol@.len() ==> symbol@[k] != 0,
            old(self).slots.slot_ok(original),
        ensures
            *final(self) == (Smashline {
                hooks: final(self).hooks,
                ..*old(self)
            }),
            final(self).wf(),
            final(self).hooks.hooks@.len() == old(self).hooks.hooks@.len() + 1,
            final(self).hooks.hooks@.drop_last() == old(self).hooks.hooks@,
            final(self).hooks.hooks@.last().module@ == module@,
            final(self).hooks.hooks@.last().symbol@ == symbol@,
            final(self).hooks.hooks@.last().replace == replace,
            final(self).hooks.hooks@.last().original == original,
            final(self).slots == old(self).slots,
            final(self).acmd == old(self).acmd,
            final(self).status == old(self).status,
    {
        self.hooks.replace_symbol(module, symbol, replace, original, &self.slots);
    }

    /// Register a script override: record the extension code region that
    /// owns the replacement (as the host's memory query reported it) for
    /// crash containment, retroactively install the override on every live
    /// matching instance (capturing the pre-patch value into its backup
    /// field and the caller's slot), then insert it into the registry under
    /// the priority rules.
    pub fn replace_acmd_script(&mut self, info: ScriptInfo, bind_region: QueryMemoryResult) -> (r:
        RegisterOutcome)
        requires
            old(self).wf(),
            old(self).slots.slot_ok(info.original),
            bind_region.mem_info.contains(info.bind_fn),
        ensures
            final(self).wf(),
            *final(self) == (Smashline {
                slots: final(self).slots,
                acmd: final(self).acmd,
                acmd_agents: final(self).acmd_agents,
                plugins: final(self).plugins,
                ..*old(self)
            }),
            final(self).slots.values@.len() == old(self).slots.values@.len(),
            final(self).acmd_agents@.len() == old(self).acmd_agents@.len(),
            old(self).plugins.has_base(bind_region.mem_info.base_address) ==> final(self).plugins.regions@ == old(self).plugins.regions@,
            !old(self).plugins.has_base(bind_region.mem_info.base_address) ==> final(self).plugins.regions@ == old(self).plugins.regions@.push(bind_region),
            ({
                let installed = crate::scripts::last_guarded(old(self).acmd_agents@, info);
                let info1 = match installed {
                    Some(i) => ScriptInfo {
                        backup: crate::scripts::table_get(
                            old(self).acmd_agents@[i].functions@,
                            info.script,
                        ),
                        ..info
                    },
                    None => info,
                };
                &&& final(self).slots.values@ == (match installed {
                    Some(i) => crate::slots::write_opt_spec(
                        old(self).slots.values@,
                        info.original,
                        crate::scripts::table_get(
                            old(self).acmd_agents@[i].functions@,
                            info.script,
                        ),
                    ),
                    None => old(self).slots.values@,
                })
                &&& forall|i: int|
                    0 <= i < final(self).acmd_agents@.len() ==> if (#[trigger] old(
                        self,
                    ).acmd_agents@[i]).guard(info) {
                        old(self).acmd_agents@[i].patched_with(final(self).acmd_agents@[i], info)
                    } else {
                        final(self).acmd_agents@[i] == old(self).acmd_agents@[i]
                    }
                &&& (!old(self).acmd.occupied(info) ==> final(self).acmd.records@ == old(
                    self,
                ).acmd.records@.push(info1) && r == RegisterOutcome::Added)
                &&& forall|j: int| #![trigger old(self).acmd.records@[j]]
                    0 <= j < old(self).acmd.records@.len() && crate::acmd::same_key(
                        old(self).acmd.records@[j],
                        info,
                    ) ==> if old(self).acmd.records@[j].low_priority {
                        final(self).acmd.records@ == old(self).acmd.records@.update(j, info1) && r
                            == RegisterOutcome::Replaced
                    } else {
                        final(self).acmd.records@ == old(self).acmd.records@ && r
                            == RegisterOutcome::Rejected
                    }
                &&& (r == RegisterOutcome::Added <==> !old(self).acmd.occupied(info))
            }),
            final(self).status == old(self).status,
            final(self).hooks.hooks@ == old(self).hooks.hooks@,
    {
        // The replacement's code region is registered for crash
        // containment before anything dispatches through it.
        self.plugins.register_skyline_plugin(bind_region);
        let mut info = info;
        let ghost info0 = info;
        crate::scripts::install_live_acmd_scripts(
            &mut self.acmd_agents,
            &mut info,
            &mut self.slots,
        );
        proof {
            assert(crate::acmd::same_key(info, info0));
            assert(info.original == info0.original);
        }
        let r = self.acmd.register(info);
        r
    }

    /// Register a conditional override for one agent: once the bootstrap
    /// module is loaded (so the constant table is resolved and live
    /// instances exist), it is first installed retroactively; then the
    /// registry applies the priority rules (or queues it unresolved).
    pub fn replace_status_script(&mut self, info: StatusInfo) -> (r: RegisterOutcome)
        requires
            old(self).wf(),
            old(self).slots.slot_ok(info.original),
            match old(self).status.consts {
                Some(t) => info.resolvable(t),
                None => true,
            },
        ensures
            final(self).wf(),
            *final(self) == (Smashline {
                slots: final(self).slots,
                status: final(self).status,
                status_agents: final(self).status_agents,
                ..*old(self)
            }),
            final(self).slots.values@.len() == old(self).slots.values@.len(),
            final(self).status_agents@.len() == old(self).status_agents@.len(),
            final(self).acmd == old(self).acmd,
            final(self).hooks.hooks@ == old(self).hooks.hooks@,
            final(self).status.consts == old(self).status.consts,
            final(self).status.common@ == old(self).status.common@,
            ({
                let installed = match (old(self).status.consts, old(self).common_region) {
                    (Some(t), Some(region)) => crate::scripts::last_st_guarded(
                        old(self).status_agents@,
                        info,
                        false,
                        region.0,
                        region.1,
                        t,
                    ),
                    _ => None,
                };
                let info1 = match (installed, old(self).status.consts) {
                    (Some(i), Some(t)) => StatusInfo {
                        backup: crate::scripts::table_get(
                            old(self).status_agents@[i].statuses@,
                            crate::scripts::status_key(
                                info.status.value_spec(t),
                                info.condition.value_spec(t),
                            ),
                        ),
                        ..info
                    },
                    _ => info,
                };
                &&& final(self).slots.values@ == (match (installed, old(self).status.consts) {
                    (Some(i), Some(t)) => crate::slots::write_opt_spec(
                        old(self).slots.values@,
                        info.original,
                        crate::scripts::table_get(
                            old(self).status_agents@[i].statuses@,
                            crate::scripts::status_key(
                                info.status.value_spec(t),
                                info.condition.value_spec(t),
                            ),
                        ),
                    ),
                    _ => old(self).slots.values@,
                })
                &&& match old(self).status.consts {
                    None => final(self).status.records@ == old(self).status.records@.push(info1)
                        && r == RegisterOutcome::Added && final(self).status_agents@ == old(
                        self,
                    ).status_agents@,
                    Some(t) => {
                        &&& (!crate::status::contains_key(old(self).status.records@, info, t)
                            ==> final(self).status.records@ == old(self).status.records@.push(
                            info1,
                        ) && r == RegisterOutcome::Added)
                        &&& forall|j: int| #![trigger old(self).status.records@[j]]
                            0 <= j < old(self).status.records@.len() && crate::status::eq_key(
                                old(self).status.records@[j],
                                info,
                                t,
                            ) ==> if old(self).status.records@[j].low_priority {
                                final(self).status.records@ == old(
                                    self,
                                ).status.records@.update(j, info1) && r
                                    == RegisterOutcome::Replaced
                            } else {
                                final(self).status.records@ == old(self).status.records@ && r
                                    == RegisterOutcome::Rejected
                            }
                        &&& (r == RegisterOutcome::Added <==> !crate::status::contains_key(
                            old(self).status.records@,
                            info,
                            t,
                        ))
                        &&& match old(self).common_region {
                            Some(region) => forall|i: int|
                                0 <= i < final(self).status_agents@.len() ==> if (#[trigger] old(
                                    self,
                                ).status_agents@[i]).st_guard(
                                    info,
                                    false,
                                    region.0,
                                    region.1,
                                    t,
                                ) {
                                    old(self).status_agents@[i].st_patched_with(
                                        final(self).status_agents@[i],
                                        info,
                                        t,
                                    )
                                } else {
                                    final(self).status_agents@[i] == old(self).status_agents@[i]
                                },
                            None => final(self).status_agents@ == old(self).status_agents@,
                        }
                    },
                }
            }),
    {
        let mut info = info;
        let ghost info0 = info;
        let has_consts = self.status.consts.is_some();
        let region = self.common_region;
        if has_consts {
            match (region, &self.status.consts) {
                (Some((cb, cs)), Some(t)) => {
                    crate::scripts::install_live_status_scripts(
                        &mut self.status_agents,
                        &mut info,
                        false,
                        cb,
                        cs,
                        t,
                        &mut self.slots,
                    );
                },
                _ => {},
            }
        }
        proof {
            assert(info.agent == info0.agent && info.status == info0.status && info.condition
                == info0.condition && info.low_priority == info0.low_priority && info.replacement
                == info0.replacement && info.original == info0.original);
        }
        let r = self.status.replace_status_script(info);
        r
    }

    /// Register a symbol replacement for a module that is already loaded:
    /// it is queued for later loads of same-named modules and applied to
    /// the loaded module immediately.
    pub fn replace_symbol_now(
        &mut self,
        m: &mut ModuleObject,
        symbol: Vec<u8>,
        replace: u64,
        original: Option<usize>,
    ) -> (found: bool)
        requires
            old(self).wf(),
            old(m).wf(),
            forall|k: int| 0 <= k < symbol@.len() ==> symbol@[k] != 0,
            old(self).slots.slot_ok(original),
        ensures
            *final(self) == (Smashline {
                hooks: final(self).hooks,
                slots: final(self).slots,
                ..*old(self)
            }),
            final(self).wf(),
            final(m).wf(),
            crate::hooks::same_shape(*old(m), *final(m)),
            final(self).hooks.hooks@.len() == old(self).hooks.hooks@.len() + 1,
            final(self).hooks.hooks@.drop_last() == old(self).hooks.hooks@,
            final(self).hooks.hooks@.last().module@ == old(m).name@,
            final(self).hooks.hooks@.last().symbol@ == symbol@,
            found == (old(m).resolve_spec(symbol@) is Some),
            final(self).slots.values@.len() == old(self).slots.values@.len(),
            match old(m).resolve_spec(symbol@) {
                Some(i) => final(m).dynsym@ == old(m).dynsym@.update(
                    i,
                    crate::resolver::ElfSymbol {
                        st_name: old(m).dynsym@[i].st_name,
                        st_shndx: old(m).dynsym@[i].st_shndx,
                        st_value: vstd::wrapping::u64_specs::wrapping_sub(
                            replace,
                            old(m).base,
                        ),
                    },
                ) && final(self).slots.values@ == crate::slots::write_opt_spec(
                    old(self).slots.values@,
                    original,
                    old(m).sym_addr(i),
                ),
                None => final(m).dynsym@ == old(m).dynsym@ && final(self).slots.values@ == old(
                    self,
                ).slots.values@,
            },
    {
        let name_copy = crate::scripts::copy_bytes(m.name.as_slice());
        let symbol_copy = crate::scripts::copy_bytes(symbol.as_slice());
        self.hooks.replace_symbol(name_copy, symbol_copy, replace, original, &self.slots);
        crate::hooks::lazy_symbol_replace(m, symbol.as_slice(), replace, original, &mut self.slots)
    }

    /// Drop every script override whose replacement code lies in
    /// `[begin, end)`, reverting the live-instance patches first.
    pub fn remove_acmd_scripts(&mut self, begin: u64, end: u64)
        requires
            old(self).wf(),
        ensures
            final(self).wf(),
            *final(self) == (Smashline {
                acmd: final(self).acmd,
                acmd_agents: final(self).acmd_agents,
                ..*old(self)
            }),
            final(self).slots == old(self).slots,
            final(self).acmd.records@ == crate::acmd::records_outside_range(
                old(self).acmd.records@,
                begin,
                end,
            ),
            final(self).acmd_agents@.len() == old(self).acmd_agents@.len(),
            forall|i: int|
                0 <= i < final(self).acmd_agents@.len()
                    ==> (#[trigger] final(self).acmd_agents@[i]).functions@
                    == crate::scripts::revert_acmd_fold(
                    old(self).acmd_agents@[i].functions@,
                    old(self).acmd.records@,
                    old(self).acmd_agents@[i].hash,
                    old(self).acmd_agents@[i].category,
                    begin,
                    end,
                ) && final(self).acmd_agents@[i].hash == old(self).acmd_agents@[i].hash
                    && final(self).acmd_agents@[i].category == old(self).acmd_agents@[i].category,
            final(self).status == old(self).status,
            final(self).status_agents@ == old(self).status_agents@,
    {
        crate::scripts::remove_live_acmd_scripts(&mut self.acmd_agents, &self.acmd, begin, end);
        self.acmd.remove_in_range(begin, end);
        proof {
            crate::acmd::lemma_outside_range_elems(old(self).acmd.records@, begin, end);
            assert forall|j: int|
                0 <= j < self.acmd.records@.len() implies self.slots.slot_ok(
                (#[trigger] self.acmd.records@[j]).original,
            ) by {
                let w = choose|w: int|
                    0 <= w < old(self).acmd.records@.len() && #[trigger] old(
                        self,
                    ).acmd.records@[w] == self.acmd.records@[j];
                assert(self.slots.slot_ok(old(self).acmd.records@[w].original));
            }
        }
    }

    /// Drop every conditional override whose replacement code lies in
    /// `[begin, end)`, reverting the live-instance patches first (possible
    /// only once the constant table is resolved; before that no instance
    /// exists to revert).
    pub fn remove_status_scripts(&mut self, begin: u64, end: u64)
        requires
            old(self).wf(),
        ensures
            final(self).wf(),
            *final(self) == (Smashline {
                status: final(self).status,
                status_agents: final(self).status_agents,
                ..*old(self)
            }),
            final(self).slots == old(self).slots,
            final(self).status.records@ == crate::status::status_outside_range(
                old(self).status.records@,
                begin,
                end,
            ),
            final(self).status.common@ == crate::status::status_outside_range(
                old(self).status.common@,
                begin,
                end,
            ),
            final(self).status.consts == old(self).status.consts,
            final(self).status_agents@.len() == old(self).status_agents@.len(),
            match old(self).status.consts {
                Some(t) => forall|i: int|
                    0 <= i < final(self).status_agents@.len()
                        ==> (#[trigger] final(self).status_agents@[i]).statuses@
                        == crate::scripts::revert_status_fold(
                        crate::scripts::revert_status_fold(
                            old(self).status_agents@[i].statuses@,
                            old(self).status.records@,
                            old(self).status_agents@[i].hash,
                            true,
                            begin,
                            end,
                            t,
                        ),
                        old(self).status.common@,
                        old(self).status_agents@[i].hash,
                        false,
                        begin,
                        end,
                        t,
                    ),
                None => final(self).status_agents@ == old(self).status_agents@,
            },
            final(self).acmd == old(self).acmd,
            final(self).acmd_agents@ == old(self).acmd_agents@,
    {
        match &self.status.consts {
            Some(t) => {
                crate::scripts::remove_live_status_scripts(
                    &mut self.status_agents,
                    &self.status,
                    begin,
                    end,
                    t,
                );
            },
            None => {},
        }
        self.status.remove_in_range(begin, end);
        proof {
            crate::status::lemma_status_outside_elems(old(self).status.records@, begin, end);
            assert forall|j: int|
                0 <= j < self.status.records@.len() implies self.slots.slot_ok(
                (#[trigger] self.status.records@[j]).original,
            ) by {
                let w = choose|w: int|
                    0 <= w < old(self).status.records@.len() && self.status.records@[j]
                        == #[trigger] old(self).status.records@[w];
                assert(self.slots.slot_ok(old(self).status.records@[w].original));
            }
            crate::status::lemma_status_outside_elems(old(self).status.common@, begin, end);
            assert forall|j: int|
                0 <= j < self.status.common@.len() implies self.slots.slot_ok(
                (#[trigger] self.status.common@[j]).original,
            ) by {
                let w = choose|w: int|
                    0 <= w < old(self).status.common@.len() && self.status.common@[j]
                        == #[trigger] old(self).status.common@[w];
                assert(self.slots.slot_ok(old(self).status.common@[w].original));
            }
        }
    }

    /// The module-scoped bulk teardown, keyed by an extension's address
    /// range: revert every live-instance patch whose installed code lies in
    /// `[begin, end)`, drop every record and callback whose replacement
    /// lies there, and forget the extension's region.
    pub fn uninstall_extension(&mut self, begin: u64, end: u64)
        requires
            old(self).wf(),
        ensures
            final(self).wf(),
            final(self).slots == old(self).slots,
            final(self).hooks.hooks@ == old(self).hooks.hooks@,
            final(self).acmd.records@ == crate::acmd::records_outside_range(
                old(self).acmd.records@,
                begin,
                end,
            ),
            final(self).status.records@ == crate::status::status_outside_range(
                old(self).status.records@,
                begin,
                end,
            ),
            final(self).status.common@ == crate::status::status_outside_range(
                old(self).status.common@,
                begin,
                end,
            ),
            final(self).status.consts == old(self).status.consts,
            forall|i: int|
                0 <= i < final(self).acmd_agents@.len()
                    ==> (#[trigger] final(self).acmd_agents@[i]).functions@
                    == crate::scripts::revert_acmd_fold(
                    old(self).acmd_agents@[i].functions@,
                    old(self).acmd.records@,
                    old(self).acmd_agents@[i].hash,
                    old(self).acmd_agents@[i].category,
                    begin,
                    end,
                ) && final(self).acmd_agents@[i].hash == old(self).acmd_agents@[i].hash
                    && final(self).acmd_agents@[i].category == old(self).acmd_agents@[i].category,
            final(self).acmd_agents@.len() == old(self).acmd_agents@.len(),
            final(self).status_agents@.len() == old(self).status_agents@.len(),
            match old(self).status.consts {
                Some(t) => forall|i: int|
                    0 <= i < final(self).status_agents@.len()
                        ==> (#[trigger] final(self).status_agents@[i]).statuses@
                        == crate::scripts::revert_status_fold(
                        crate::scripts::revert_status_fold(
                            old(self).status_agents@[i].statuses@,
                            old(self).status.records@,
                            old(self).status_agents@[i].hash,
                            true,
                            begin,
                            end,
                            t,
                        ),
                        old(self).status.common@,
                        old(self).status_agents@[i].hash,
                        false,
                        begin,
                        end,
                        t,
                    ),
                None => final(self).status_agents@ == old(self).status_agents@,
            },
            final(self).callbacks.fighter_frames@ == old(self).callbacks.fighter_frames@,
            final(self).callbacks.weapon_frames@ == old(self).callbacks.weapon_frames@,
            final(self).callbacks.fighter_resets@ == crate::callbacks::ptrs_outside_range(
                old(self).callbacks.fighter_resets@,
                begin,
                end,
            ),
            final(self).callbacks.agent_resets@ == crate::callbacks::ptrs_outside_range(
                old(self).callbacks.agent_resets@,
                begin,
                end,
            ),
            final(self).callbacks.fighter_frame_callbacks@
                == crate::callbacks::ptrs_outside_range(
                old(self).callbacks.fighter_frame_callbacks@,
                begin,
                end,
            ),
            final(self).callbacks.weapon_frame_callbacks@
                == crate::callbacks::ptrs_outside_range(
                old(self).callbacks.weapon_frame_callbacks@,
                begin,
                end,
            ),
            final(self).callbacks.fighter_init_callbacks@
                == crate::callbacks::ptrs_outside_range(
                old(self).callbacks.fighter_init_callbacks@,
                begin,
                end,
            ),
            final(self).callbacks.agent_init_callbacks@ == crate::callbacks::ptrs_outside_range(
                old(self).callbacks.agent_init_callbacks@,
                begin,
                end,
            ),
            final(self).plugins.regions@ == crate::unwind::drop_regions_at_base(
                old(self).plugins.regions@,
                begin,
            ),
            *final(self) == (Smashline {
                callbacks: final(self).callbacks,
                acmd: final(self).acmd,
                acmd_agents: final(self).acmd_agents,
                status: final(self).status,
                status_agents: final(self).status_agents,
                plugins: final(self).plugins,
                ..*old(self)
            }),
    {
        self.callbacks.remove_in_range(begin, end);
        self.remove_acmd_scripts(begin, end);
        self.remove_status_scripts(begin, end);
        self.plugins.unregister_skyline_plugin(begin);
    }

    /// On a module-unload notification: drop every live instance the
    /// unloading module produced, null the backup slots of the symbol
    /// replacements that targeted it, and forget its recreated vtables.
    pub fn on_module_unload(&mut self, name: &[u8], base: u64)
        requires
            old(self).wf(),
        ensures
            *final(self) == (Smashline {
                slots: final(self).slots,
                acmd_agents: final(self).acmd_agents,
                status_agents: final(self).status_agents,
                vtables: final(self).vtables,
                ..*old(self)
            }),
            final(self).wf(),
            final(self).acmd_agents@ == crate::scripts::acmd_agents_after_clear(
                old(self).acmd_agents@,
                old(self).create_agents@,
                old(self).status_create_agents@,
                name@,
            ),
            final(self).status_agents@ == crate::scripts::status_agents_after_clear(
                old(self).status_agents@,
                old(self).create_agents@,
                old(self).status_create_agents@,
                name@,
            ),
            final(self).slots.values@ == crate::hooks::null_hooks_spec(
                old(self).hooks.hooks@,
                name@,
                old(self).slots.values@,
            ),
            final(self).slots.values@.len() == old(self).slots.values@.len(),
            final(self).vtables@ == crate::scripts::vtables_outside(old(self).vtables@, base),
            final(self).hooks.hooks@ == old(self).hooks.hooks@,
            final(self).acmd == old(self).acmd,
            final(self).status == old(self).status,
    {
        crate::scripts::clear_loaded_agent(
            &mut self.acmd_agents,
            &mut self.status_agents,
            &self.create_agents,
            &self.status_create_agents,
            name,
        );
        self.hooks.on_module_unload(name, &mut self.slots);
        crate::scripts::release_status_vtables(&mut self.vtables, base);
    }
}

/// The mangled creation entry-point name of one category and kind for a
/// module.
pub open spec fn animcmd_symbol_spec(m0: ModuleObject, category: Category, is_share: bool) -> Seq<
    u8,
> {
    crate::scripts::mangled_symbol_spec(
        m0.name@,
        crate::scripts::category_func_name_spec(category, is_share),
    )
}

/// The symbol values after redirecting every creation entry point the
/// module exports: both kinds of all four categories, then the conditional
/// creation entry, in that order.
pub open spec fn create_patches_spec(
    m0: ModuleObject,
    d: Seq<crate::resolver::ElfSymbol>,
    r: Redirects,
) -> Seq<crate::resolver::ElfSymbol> {
    let d1 = crate::scripts::patch_sym_spec(
        m0,
        d,
        animcmd_symbol_spec(m0, Category::ACMD_GAME, false),
        r.animcmd_game,
    );
    let d2 = crate::scripts::patch_sym_spec(
        m0,
        d1,
        animcmd_symbol_spec(m0, Category::ACMD_GAME, true),
        r.animcmd_game_share,
    );
    let d3 = crate::scripts::patch_sym_spec(
        m0,
        d2,
        animcmd_symbol_spec(m0, Category::ACMD_EFFECT, false),
        r.animcmd_effect,
    );
    let d4 = crate::scripts::patch_sym_spec(
        m0,
        d3,
        animcmd_symbol_spec(m0, Category::ACMD_EFFECT, true),
        r.animcmd_effect_share,
    );
    let d5 = crate::scripts::patch_sym_spec(
        m0,
        d4,
        animcmd_symbol_spec(m0, Category::ACMD_SOUND, false),
        r.animcmd_sound,
    );
    let d6 = crate::scripts::patch_sym_spec(
        m0,
        d5,
        animcmd_symbol_spec(m0, Category::ACMD_SOUND, true),
        r.animcmd_sound_share,
    );
    let d7 = crate::scripts::patch_sym_spec(
        m0,
        d6,
        animcmd_symbol_spec(m0, Category::ACMD_EXPRESSION, false),
        r.animcmd_expression,
    );
    let d8 = crate::scripts::patch_sym_spec(
        m0,
        d7,
        animcmd_symbol_spec(m0, Category::ACMD_EXPRESSION, true),
        r.animcmd_expression_share,
    );
    crate::scripts::patch_sym_spec(
        m0,
        d8,
        crate::scripts::mangled_symbol_spec(m0.name@, crate::scripts::status_func_name_spec()),
        r.status_create,
    )
}

impl Smashline {
    /// Redirect one creation entry point and prove the table rewrite
    /// relative to the module as it was at the load notification.
    fn patch_one(
        &mut self,
        m: &mut ModuleObject,
        m0: Ghost<ModuleObject>,
        category: Category,
        is_share: bool,
        redirect: u64,
    ) -> (found: bool)
        requires
            old(m).wf(),
            m0@.wf(),
            crate::hooks::same_shape(m0@, *old(m)),
            m0@.name@.len() + 48 <= usize::MAX,
        ensures
            final(m).wf(),
            crate::hooks::same_shape(m0@, *final(m)),
            final(m).dynsym@ == crate::scripts::patch_sym_spec(
                m0@,
                old(m).dynsym@,
                animcmd_symbol_spec(m0@, category, is_share),
                redirect,
            ),
            final(self).slots.values@ == old(self).slots.values@,
            final(self).create_agents@.len() >= old(self).create_agents@.len(),
            final(self).create_agents@.take(old(self).create_agents@.len() as int) == old(
                self,
            ).create_agents@,
            forall|j: int|
                old(self).create_agents@.len() <= j < final(self).create_agents@.len()
                    ==> (#[trigger] final(self).create_agents@[j]).module@ == m0@.name@,
            *final(self) == (Smashline {
                create_agents: final(self).create_agents,
                slots: final(self).slots,
                ..*old(self)
            }),
    {
        proof {
            crate::scripts::lemma_category_func_name_no_nul(category, is_share);
        }
        let func = crate::scripts::category_func_name(category, is_share);
        let ghost m_before = *m;
        let found = crate::scripts::patch_create_agent_symbol(
            m,
            func.as_slice(),
            category,
            is_share,
            redirect,
            &mut self.create_agents,
            &mut self.slots,
        );
        proof {
            crate::hooks::lemma_same_shape_resolve(
                m0@,
                m_before,
                animcmd_symbol_spec(m0@, category, is_share),
            );
            assert(m_before.name@ == m0@.name@ && m_before.base == m0@.base);
            if found {
                assert(final(self).create_agents@.take(old(self).create_agents@.len() as int)
                    =~= old(self).create_agents@);
            }
        }
        found
    }

    /// On a module-load notification: apply every queued symbol replacement
    /// whose module name matches, then — unless this is the shared
    /// bootstrap module, the item module, or an unnamed module — redirect
    /// its creation entry points; when the bootstrap module itself loads,
    /// run the one-time conflict-resolution pass over the conditional
    /// registry with its constant table and remember its memory region.
    /// Returns how many queued conditional records the finalize pass
    /// reported as conflicts.
    #[verifier::rlimit(100)]
    pub fn on_module_load(&mut self, m: &mut ModuleObject, consts: Option<ConstTable>) -> (conflicts:
        usize)
        requires
            old(self).wf(),
            old(m).wf(),
            old(m).name@.len() + 48 <= usize::MAX,
            old(m).name@ == common_module_name_spec() ==> match consts {
                Some(t) => {
                    &&& t.wf()
                    &&& old(self).status.consts is None
                    &&& crate::status::all_resolvable(old(self).status.records@, t)
                    &&& crate::status::all_resolvable(old(self).status.common@, t)
                    &&& old(self).status.records@.len() + old(self).status.common@.len()
                        <= usize::MAX
                    &&& forall|j: int|
                        0 <= j < old(self).callbacks.fighter_frames@.len()
                            ==> (#[trigger] old(self).callbacks.fighter_frames@[j]).agent.resolvable(
                            t,
                        )
                    &&& forall|j: int|
                        0 <= j < old(self).callbacks.weapon_frames@.len()
                            ==> (#[trigger] old(self).callbacks.weapon_frames@[j]).agent.resolvable(
                            t,
                        )
                },
                None => false,
            },
        ensures
            *final(self) == (Smashline {
                slots: final(self).slots,
                status: final(self).status,
                common_region: final(self).common_region,
                create_agents: final(self).create_agents,
                status_create_agents: final(self).status_create_agents,
                ..*old(self)
            }),
            final(self).wf(),
            final(m).wf(),
            crate::hooks::same_shape(*old(m), *final(m)),
            final(self).hooks.hooks@ == old(self).hooks.hooks@,
            final(self).acmd == old(self).acmd,
            final(self).acmd_agents@ == old(self).acmd_agents@,
            final(self).status_agents@ == old(self).status_agents@,
            final(self).vtables@ == old(self).vtables@,
            ({
                let applied = crate::hooks::apply_hooks_spec(
                    *old(m),
                    old(self).hooks.hooks@,
                    old(m).dynsym@,
                    old(self).slots.values@,
                );
                &&& final(self).slots.values@ == applied.1
                &&& if old(m).name@ == common_module_name_spec() || old(m).name@
                    == item_module_name_spec() || old(m).name@.len() == 0 {
                    final(m).dynsym@ == applied.0
                } else {
                    final(m).dynsym@ == create_patches_spec(
                        *old(m),
                        applied.0,
                        old(self).redirects,
                    )
                }
            }),
            old(m).name@ == common_module_name_spec() ==> match consts {
                Some(t) => {
                    &&& final(self).status.consts == Some(t)
                    &&& final(self).status.records@ == crate::status::finalize_spec(
                        old(self).status.records@,
                        t,
                    )
                    &&& final(self).status.common@ == crate::status::finalize_spec(
                        old(self).status.common@,
                        t,
                    )
                    &&& conflicts == crate::status::finalize_conflicts_spec(
                        old(self).status.records@,
                        t,
                    ) + crate::status::finalize_conflicts_spec(old(self).status.common@, t)
                    &&& final(self).common_region == Some((old(m).base, old(m).size))
                    &&& final(self).create_agents@ == old(self).create_agents@
                    &&& final(self).status_create_agents@ == old(self).status_create_agents@
                },
                None => false,
            },
            old(m).name@ != common_module_name_spec() ==> {
                &&& final(self).status.consts == old(self).status.consts
                &&& final(self).status.records@ == old(self).status.records@
                &&& final(self).status.common@ == old(self).status.common@
                &&& final(self).common_region == old(self).common_region
                &&& conflicts == 0
            },
            final(self).create_agents@.len() >= old(self).create_agents@.len(),
            final(self).create_agents@.take(old(self).create_agents@.len() as int) == old(
                self,
            ).create_agents@,
            final(self).status_create_agents@.len() >= old(self).status_create_agents@.len(),
            final(self).status_create_agents@.take(
                old(self).status_create_agents@.len() as int,
            ) == old(self).status_create_agents@,
    {
        let ghost m0 = *old(m);
        self.hooks.on_module_load(m, &mut self.slots);
        let is_common = crate::bytes_eq(m.name.as_slice(), common_module_name().as_slice());
        let is_item = crate::bytes_eq(m.name.as_slice(), item_module_name().as_slice());
        let is_unnamed = m.name.len() == 0;
        if !is_common && !is_item && !is_unnamed {
            let r = self.redirects;
            self.patch_one(m, Ghost(m0), Category::ACMD_GAME, false, r.animcmd_game);
            self.patch_one(m, Ghost(m0), Category::ACMD_GAME, true, r.animcmd_game_share);
            self.patch_one(m, Ghost(m0), Category::ACMD_EFFECT, false, r.animcmd_effect);
            self.patch_one(m, Ghost(m0), Category::ACMD_EFFECT, true, r.animcmd_effect_share);
            self.patch_one(m, Ghost(m0), Category::ACMD_SOUND, false, r.animcmd_sound);
            self.patch_one(m, Ghost(m0), Category::ACMD_SOUND, true, r.animcmd_sound_share);
            self.patch_one(m, Ghost(m0), Category::ACMD_EXPRESSION, false, r.animcmd_expression);
            self.patch_one(
                m,
                Ghost(m0),
                Category::ACMD_EXPRESSION,
                true,
                r.animcmd_expression_share,
            );
            let ghost m_before = *m;
            crate::scripts::patch_create_agent_status(
                m,
                r.status_create,
                &mut self.status_create_agents,
                &mut self.slots,
            );
            proof {
                crate::hooks::lemma_same_shape_resolve(
                    m0,
                    m_before,
                    crate::scripts::mangled_symbol_spec(
                        m0.name@,
                        crate::scripts::status_func_name_spec(),
                    ),
                );
                assert(m_before.name@ == m0.name@ && m_before.base == m0.base);
                match m0.resolve_spec(
                    crate::scripts::mangled_symbol_spec(
                        m0.name@,
                        crate::scripts::status_func_name_spec(),
                    ),
                ) {
                    Some(_) => {
                        assert(self.status_create_agents@.take(
                            old(self).status_create_agents@.len() as int,
                        ) =~= old(self).status_create_agents@);
                    },
                    None => {},
                }
            }
        }
        let mut conflicts: usize = 0;
        if is_common {
            let ghost records0 = self.status.records@;
            let ghost common0 = self.status.common@;
            match consts {
                Some(t) => {
                    let ghost tg = t;
                    conflicts = self.status.resolve_conflicts_at_finalize(t);
                    proof {
                        crate::status::lemma_finalize_from(records0, tg);
                        crate::status::lemma_finalize_from(common0, tg);
                        assert forall|j: int|
                            0 <= j < self.status.records@.len() implies self.slots.slot_ok(
                            (#[trigger] self.status.records@[j]).original,
                        ) by {
                            let w = choose|w: int|
                                0 <= w < records0.len() && (#[trigger] crate::status::finalize_spec(
                                    records0,
                                    tg,
                                )[j]) == records0[w];
                            assert(self.slots.slot_ok(records0[w].original));
                        }
                        assert forall|j: int|
                            0 <= j < self.status.common@.len() implies self.slots.slot_ok(
                            (#[trigger] self.status.common@[j]).original,
                        ) by {
                            let w = choose|w: int|
                                0 <= w < common0.len() && (#[trigger] crate::status::finalize_spec(
                                    common0,
                                    tg,
                                )[j]) == common0[w];
                            assert(self.slots.slot_ok(common0[w].original));
                        }
                    }
                },
                None => {
                    // unreachable: the precondition supplies the table
                },
            }
            self.common_region = Some((m.base, m.size));
        }
        conflicts
    }
}

impl Smashline {
    /// The original constructor for a script agent of this identity, if
    /// its creation path is tracked for the given category and kind.  The
    /// latest tracked entry answers: only the freshest constructor of a
    /// reloaded module is still live code.
    pub fn find_acmd_original(&self, category: Category, is_share: bool, hash: u64) -> (r: Option<
        u64,
    >)
        ensures
            match r {
                Some(addr) => exists|i: int|
                    0 <= i < self.create_agents@.len() && (#[trigger] self.create_agents@[i]).category
                        == category && self.create_agents@[i].is_share == is_share
                        && crate::scripts::hash_listed(self.create_agents@[i].hashes@, hash)
                        && self.create_agents@[i].original == addr && (forall|j: int|
                        i < j < self.create_agents@.len()
                            ==> !((#[trigger] self.create_agents@[j]).category == category
                            && self.create_agents@[j].is_share == is_share
                            && crate::scripts::hash_listed(self.create_agents@[j].hashes@, hash))),
                None => forall|i: int|
                    0 <= i < self.create_agents@.len() ==> !((#[trigger] self.create_agents@[i]).category
                        == category && self.create_agents@[i].is_share == is_share
                        && crate::scripts::hash_listed(self.create_agents@[i].hashes@, hash)),
            },
    {
        match crate::scripts::find_create_agent(&self.create_agents, category, is_share, hash) {
            Some(i) => Some(self.create_agents[i].original),
            None => None,
        }
    }

    /// The original constructor for a conditional agent of this identity,
    /// if its creation path is tracked; the latest tracked entry answers.
    pub fn find_status_original(&self, hash: u64) -> (r: Option<u64>)
        ensures
            match r {
                Some(addr) => exists|i: int|
                    0 <= i < self.status_create_agents@.len() && crate::scripts::hash_listed(
                        (#[trigger] self.status_create_agents@[i]).hashes@,
                        hash,
                    ) && self.status_create_agents@[i].original == addr && (forall|j: int|
                        i < j < self.status_create_agents@.len() ==> !crate::scripts::hash_listed(
                            (#[trigger] self.status_create_agents@[j]).hashes@,
                            hash,
                        )),
                None => forall|i: int|
                    0 <= i < self.status_create_agents@.len() ==> !crate::scripts::hash_listed(
                        (#[trigger] self.status_create_agents@[i]).hashes@,
                        hash,
                    ),
            },
    {
        match crate::scripts::find_status_create_agent(&self.status_create_agents, hash) {
            Some(i) => Some(self.status_create_agents[i].original),
            None => None,
        }
    }

    /// A script agent came back from its original constructor: record it
    /// and install the registered overrides onto its own dispatch table —
    /// the shared ones of its category first, then its own, capturing
    /// backups.
    pub fn on_acmd_instance_constructed(&mut self, inst: AcmdInstance)
        requires
            old(self).wf(),
            inst.wf(),
        ensures
            *final(self) == (Smashline {
                slots: final(self).slots,
                acmd: final(self).acmd,
                acmd_agents: final(self).acmd_agents,
                ..*old(self)
            }),
            final(self).wf(),
            final(self).slots.values@.len() == old(self).slots.values@.len(),
            ({
                let out = crate::scripts::acmd_constructed_spec(
                    inst.functions@,
                    old(self).acmd.records@,
                    inst.category,
                    inst.hash,
                    old(self).slots.values@,
                );
                &&& final(self).acmd_agents@.len() == old(self).acmd_agents@.len() + 1
                &&& final(self).acmd_agents@.drop_last() == old(self).acmd_agents@
                &&& final(self).acmd_agents@.last().hash == inst.hash
                &&& final(self).acmd_agents@.last().category == inst.category
                &&& final(self).acmd_agents@.last().handle == inst.handle
                &&& final(self).acmd_agents@.last().module_base == inst.module_base
                &&& final(self).acmd_agents@.last().module_size == inst.module_size
                &&& final(self).acmd_agents@.last().functions@ == out.0
                &&& final(self).acmd.records@ == out.1
                &&& final(self).slots.values@ == out.2
            }),
            final(self).status == old(self).status,
            final(self).hooks.hooks@ == old(self).hooks.hooks@,
    {
        let ghost records0 = self.acmd.records@;
        crate::scripts::on_acmd_instance_constructed(
            &mut self.acmd_agents,
            &mut self.acmd,
            &mut self.slots,
            inst,
        );
        proof {
            crate::scripts::lemma_acmd_common_install_fold(
                inst.functions@,
                records0,
                inst.category,
                old(self).slots.values@,
            );
            crate::scripts::lemma_acmd_own_install_fold(
                crate::scripts::acmd_common_install_fold(
                    inst.functions@,
                    records0,
                    inst.category,
                    old(self).slots.values@,
                ).0,
                records0,
                inst.category,
                inst.hash,
                crate::scripts::acmd_common_install_fold(
                    inst.functions@,
                    records0,
                    inst.category,
                    old(self).slots.values@,
                ).1,
            );
            assert forall|j: int|
                0 <= j < self.acmd.records@.len() implies self.slots.slot_ok(
                (#[trigger] self.acmd.records@[j]).original,
            ) by {
                assert(self.acmd.records@[j].original == records0[j].original);
            }
        }
    }

    /// A conditional agent came back from its original constructor: record
    /// it with a recreated vtable so its teardown and status setup dispatch
    /// through the tracker.
    pub fn on_status_instance_constructed(
        &mut self,
        handle: u64,
        hash: u64,
        module_base: u64,
        module_size: u64,
        host_vtable: &Vec<u64>,
        initial_statuses: Vec<(u64, u64)>,
        vtable_handle: u64,
    )
        requires
            old(self).wf(),
            host_vtable@.len() >= 15,
            crate::scripts::table_wf(initial_statuses@),
        ensures
            *final(self) == (Smashline {
                status_agents: final(self).status_agents,
                vtables: final(self).vtables,
                ..*old(self)
            }),
            final(self).wf(),
            final(self).status_agents@.len() == old(self).status_agents@.len() + 1,
            final(self).status_agents@.drop_last() == old(self).status_agents@,
            final(self).status_agents@.last().handle == handle,
            final(self).status_agents@.last().hash == hash,
            final(self).status_agents@.last().module_base == module_base,
            final(self).status_agents@.last().module_size == module_size,
            final(self).status_agents@.last().statuses@ == initial_statuses@,
            final(self).status_agents@.last().vtable@.len() == 19,
            final(self).status_agents@.last().vtable@[crate::scripts::STATUS_AGENT_HASH as int]
                == hash,
            final(self).vtables@ == old(self).vtables@.push((module_base, vtable_handle)),
            final(self).slots == old(self).slots,
            final(self).acmd == old(self).acmd,
            final(self).status == old(self).status,
    {
        let r = self.redirects;
        crate::scripts::on_status_instance_constructed(
            &mut self.status_agents,
            &mut self.vtables,
            handle,
            hash,
            module_base,
            module_size,
            host_vtable,
            initial_statuses,
            vtable_handle,
            r.status_dtor,
            r.status_del_dtor,
            r.status_set,
        );
    }

    /// The redirected status-setup entry fired for the instance at `idx`,
    /// after the original setup ran: install every conditional override
    /// registered for its identity onto its own dispatch table.
    pub fn set_status_scripts(&mut self, idx: usize)
        requires
            old(self).wf(),
            idx < old(self).status_agents@.len(),
            old(self).status_agents@[idx as int].vtable@.len() == 19,
            old(self).status.consts is Some,
        ensures
            *final(self) == (Smashline {
                slots: final(self).slots,
                status: final(self).status,
                status_agents: final(self).status_agents,
                ..*old(self)
            }),
            final(self).wf(),
            final(self).slots.values@.len() == old(self).slots.values@.len(),
            final(self).status.consts == old(self).status.consts,
            final(self).status.common@ == old(self).status.common@,
            final(self).acmd == old(self).acmd,
            final(self).status_agents@.len() == old(self).status_agents@.len(),
            forall|i: int|
                0 <= i < final(self).status_agents@.len() && i != idx
                    ==> final(self).status_agents@[i] == old(self).status_agents@[i],
            match old(self).status.consts {
                Some(t) => (
                    final(self).status_agents@[idx as int].statuses@,
                    final(self).status.records@,
                    final(self).slots.values@,
                ) == crate::scripts::status_install_fold(
                    old(self).status_agents@[idx as int].statuses@,
                    old(self).status.records@,
                    true,
                    old(self).status_agents@[idx as int].vtable@[crate::scripts::STATUS_AGENT_HASH as int],
                    false,
                    0,
                    t,
                    old(self).slots.values@,
                ),
                None => true,
            },
    {
        let ghost records0 = self.status.records@;
        let ghost agents0 = self.status_agents@;
        {
            let inst = &mut self.status_agents[idx];
            crate::scripts::set_status_scripts(inst, &mut self.status, &mut self.slots);
        }
        proof {
            match old(self).status.consts {
                Some(t) => {
                    crate::scripts::lemma_status_install_fold(
                        agents0[idx as int].statuses@,
                        records0,
                        true,
                        agents0[idx as int].vtable@[crate::scripts::STATUS_AGENT_HASH as int],
                        false,
                        0,
                        t,
                        old(self).slots.values@,
                    );
                    assert forall|j: int|
                        0 <= j < self.status.records@.len() implies self.slots.slot_ok(
                        (#[trigger] self.status.records@[j]).original,
                    ) by {
                        assert(self.status.records@[j].original == records0[j].original);
                    }
                },
                None => {},
            }
            assert forall|i: int|
                0 <= i < self.status_agents@.len() implies (#[trigger] self.status_agents@[i]).wf() by {
                if i != idx {
                    assert(self.status_agents@[i] == agents0[i]);
                }
            }
        }
    }

    /// The redirected shared-table setup fired for the instance at `idx`,
    /// after the original ran: install every shared conditional override
    /// whose status key is not the `none_value` sentinel.
    pub fn sub_set_fighter_common_table(&mut self, idx: usize, none_value: i32)
        requires
            old(self).wf(),
            idx < old(self).status_agents@.len(),
            old(self).status.consts is Some,
        ensures
            *final(self) == (Smashline {
                slots: final(self).slots,
                status: final(self).status,
                status_agents: final(self).status_agents,
                ..*old(self)
            }),
            final(self).wf(),
            final(self).slots.values@.len() == old(self).slots.values@.len(),
            final(self).status.consts == old(self).status.consts,
            final(self).status.records@ == old(self).status.records@,
            final(self).acmd == old(self).acmd,
            final(self).status_agents@.len() == old(self).status_agents@.len(),
            forall|i: int|
                0 <= i < final(self).status_agents@.len() && i != idx
                    ==> final(self).status_agents@[i] == old(self).status_agents@[i],
            match old(self).status.consts {
                Some(t) => (
                    final(self).status_agents@[idx as int].statuses@,
                    final(self).status.common@,
                    final(self).slots.values@,
                ) == crate::scripts::status_install_fold(
                    old(self).status_agents@[idx as int].statuses@,
                    old(self).status.common@,
                    false,
                    0,
                    true,
                    none_value,
                    t,
                    old(self).slots.values@,
                ),
                None => true,
            },
    {
        let ghost common0 = self.status.common@;
        let ghost agents0 = self.status_agents@;
        {
            let inst = &mut self.status_agents[idx];
            crate::scripts::apply_common_status_scripts(
                inst,
                &mut self.status,
                none_value,
                &mut self.slots,
            );
        }
        proof {
            match old(self).status.consts {
                Some(t) => {
                    crate::scripts::lemma_status_install_fold(
                        agents0[idx as int].statuses@,
                        common0,
                        false,
                        0,
                        true,
                        none_value,
                        t,
                        old(self).slots.values@,
                    );
                    assert forall|j: int|
                        0 <= j < self.status.common@.len() implies self.slots.slot_ok(
                        (#[trigger] self.status.common@[j]).original,
                    ) by {
                        assert(self.status.common@[j].original == common0[j].original);
                    }
                },
                None => {},
            }
            assert forall|i: int|
                0 <= i < self.status_agents@.len() implies (#[trigger] self.status_agents@[i]).wf() by {
                if i != idx {
                    assert(self.status_agents@[i] == agents0[i]);
                }
            }
        }
    }

    /// Register a whole-frame replacement for one fighter kind.
    pub fn replace_fighter_frame(&mut self, agent: LuaConstant, original: Option<usize>, frame: u64)
        requires
            old(self).wf(),
            old(self).slots.slot_ok(original),
            match old(self).status.consts {
                Some(t) => agent.resolvable(t),
                None => true,
            },
        ensures
            *final(self) == (Smashline {
                callbacks: final(self).callbacks,
                ..*old(self)
            }),
            final(self).wf(),
            final(self).callbacks.fighter_frames@ == old(self).callbacks.fighter_frames@.push(
                crate::callbacks::FrameInfo { agent, original, frame },
            ),
            final(self).slots == old(self).slots,
            final(self).acmd == old(self).acmd,
            final(self).status == old(self).status,
    {
        self.callbacks.replace_fighter_frame(agent, original, frame);
    }

    /// Register a whole-frame replacement for one weapon kind.
    pub fn replace_weapon_frame(&mut self, agent: LuaConstant, original: Option<usize>, frame: u64)
        requires
            old(self).wf(),
            old(self).slots.slot_ok(original),
            match old(self).status.consts {
                Some(t) => agent.resolvable(t),
                None => true,
            },
        ensures
            *final(self) == (Smashline {
                callbacks: final(self).callbacks,
                ..*old(self)
            }),
            final(self).wf(),
            final(self).callbacks.weapon_frames@ == old(self).callbacks.weapon_frames@.push(
                crate::callbacks::FrameInfo { agent, original, frame },
            ),
            final(self).slots == old(self).slots,
            final(self).acmd == old(self).acmd,
            final(self).status == old(self).status,
    {
        self.callbacks.replace_weapon_frame(agent, original, frame);
    }

    /// Decide the control entry a newly initialized fighter of the given
    /// kind dispatches through, capturing each displaced control into its
    /// replacement's backup slot.
    pub fn sys_line_system_fighter_init(&mut self, kind: i32, default_control: u64) -> (control:
        u64)
        requires
            old(self).wf(),
            old(self).status.consts is Some,
        ensures
            *final(self) == (Smashline {
                slots: final(self).slots,
                ..*old(self)
            }),
            final(self).wf(),
            final(self).slots.values@.len() == old(self).slots.values@.len(),
            final(self).callbacks.fighter_frames@ == old(self).callbacks.fighter_frames@,
            match old(self).status.consts {
                Some(t) => (control, final(self).slots.values@)
                    == crate::callbacks::select_control_fold(
                    old(self).callbacks.fighter_frames@,
                    kind,
                    default_control,
                    t,
                    old(self).slots.values@,
                ),
                None => true,
            },
    {
        let control = match &self.status.consts {
            Some(t) => crate::callbacks::select_system_control(
                &self.callbacks.fighter_frames,
                kind,
                default_control,
                t,
                &mut self.slots,
            ),
            None => default_control,  // unreachable: the registry is finalized
        };
        control
    }

    /// Decide the control entry a newly initialized weapon of the given
    /// kind dispatches through.
    pub fn sys_line_system_init(&mut self, kind: i32, default_control: u64) -> (control: u64)
        requires
            old(self).wf(),
            old(self).status.consts is Some,
        ensures
            *final(self) == (Smashline {
                slots: final(self).slots,
                ..*old(self)
            }),
            final(self).wf(),
            final(self).slots.values@.len() == old(self).slots.values@.len(),
            final(self).callbacks.weapon_frames@ == old(self).callbacks.weapon_frames@,
            match old(self).status.consts {
                Some(t) => (control, final(self).slots.values@)
                    == crate::callbacks::select_control_fold(
                    old(self).callbacks.weapon_frames@,
                    kind,
                    default_control,
                    t,
                    old(self).slots.values@,
                ),
                None => true,
            },
    {
        let control = match &self.status.consts {
            Some(t) => crate::callbacks::select_system_control(
                &self.callbacks.weapon_frames,
                kind,
                default_control,
                t,
                &mut self.slots,
            ),
            None => default_control,  // unreachable: the registry is finalized
        };
        control
    }

    /// Register a shared conditional override: forced to normal priority
    /// under the shared agent key, retroactively installed on every live
    /// instance once the bootstrap module is loaded.
    pub fn replace_common_status_script(&mut self, info: StatusInfo) -> (r: RegisterOutcome)
        requires
            old(self).wf(),
            old(self).slots.slot_ok(info.original),
            match old(self).status.consts {
                Some(t) => info.resolvable(t),
                None => true,
            },
        ensures
            final(self).wf(),
            *final(self) == (Smashline {
                slots: final(self).slots,
                status: final(self).status,
                status_agents: final(self).status_agents,
                ..*old(self)
            }),
            final(self).slots.values@.len() == old(self).slots.values@.len(),
            final(self).status_agents@.len() == old(self).status_agents@.len(),
            final(self).acmd == old(self).acmd,
            final(self).status.consts == old(self).status.consts,
            final(self).status.records@ == old(self).status.records@,
            ({
                let forced0 = crate::status::common_forced(info);
                let installed = match (old(self).status.consts, old(self).common_region) {
                    (Some(t), Some(region)) => crate::scripts::last_st_guarded(
                        old(self).status_agents@,
                        forced0,
                        true,
                        region.0,
                        region.1,
                        t,
                    ),
                    _ => None,
                };
                let forced1 = match (installed, old(self).status.consts) {
                    (Some(i), Some(t)) => StatusInfo {
                        backup: crate::scripts::table_get(
                            old(self).status_agents@[i].statuses@,
                            crate::scripts::status_key(
                                forced0.status.value_spec(t),
                                forced0.condition.value_spec(t),
                            ),
                        ),
                        ..forced0
                    },
                    _ => forced0,
                };
                &&& final(self).slots.values@ == (match (installed, old(self).status.consts) {
                    (Some(i), Some(t)) => crate::slots::write_opt_spec(
                        old(self).slots.values@,
                        info.original,
                        crate::scripts::table_get(
                            old(self).status_agents@[i].statuses@,
                            crate::scripts::status_key(
                                forced0.status.value_spec(t),
                                forced0.condition.value_spec(t),
                            ),
                        ),
                    ),
                    _ => old(self).slots.values@,
                })
                &&& match old(self).status.consts {
                    None => final(self).status.common@ == old(self).status.common@.push(forced1)
                        && r == RegisterOutcome::Added && final(self).status_agents@ == old(
                        self,
                    ).status_agents@,
                    Some(t) => {
                        &&& (!crate::status::contains_key(old(self).status.common@, forced0, t)
                            ==> final(self).status.common@ == old(self).status.common@.push(
                            forced1,
                        ) && r == RegisterOutcome::Added)
                        &&& forall|j: int| #![trigger old(self).status.common@[j]]
                            0 <= j < old(self).status.common@.len() && crate::status::eq_key(
                                old(self).status.common@[j],
                                forced0,
                                t,
                            ) ==> if old(self).status.common@[j].low_priority {
                                final(self).status.common@ == old(self).status.common@.update(
                                    j,
                                    forced1,
                                ) && r == RegisterOutcome::Replaced
                            } else {
                                final(self).status.common@ == old(self).status.common@ && r
                                    == RegisterOutcome::Rejected
                            }
                        &&& (r == RegisterOutcome::Added <==> !crate::status::contains_key(
                            old(self).status.common@,
                            forced0,
                            t,
                        ))
                        &&& match old(self).common_region {
                            Some(region) => forall|i: int|
                                0 <= i < final(self).status_agents@.len() ==> if (#[trigger] old(
                                    self,
                                ).status_agents@[i]).st_guard(
                                    forced0,
                                    true,
                                    region.0,
                                    region.1,
                                    t,
                                ) {
                                    old(self).status_agents@[i].st_patched_with(
                                        final(self).status_agents@[i],
                                        forced0,
                                        t,
                                    )
                                } else {
                                    final(self).status_agents@[i] == old(self).status_agents@[i]
                                },
                            None => final(self).status_agents@ == old(self).status_agents@,
                        }
                    },
                }
            }),
    {
        let forced = StatusInfo {
            agent: crate::status::COMMON_AGENT_HASH,
            status: info.status,
            condition: info.condition,
            low_priority: false,
            replacement: info.replacement,
            original: info.original,
            backup: info.backup,
        };
        let ghost forced0 = forced;
        let mut forced = forced;
        let has_consts = self.status.consts.is_some();
        let region = self.common_region;
        if has_consts {
            match (region, &self.status.consts) {
                (Some((cb, cs)), Some(t)) => {
                    crate::scripts::install_live_status_scripts(
                        &mut self.status_agents,
                        &mut forced,
                        true,
                        cb,
                        cs,
                        t,
                        &mut self.slots,
                    );
                },
                _ => {},
            }
        }
        proof {
            assert(forced0 == crate::status::common_forced(info));
            assert(crate::status::common_forced(forced) == forced);
            assert(forced.agent == crate::status::COMMON_AGENT_HASH);
            assert(forced.status == forced0.status && forced.condition == forced0.condition
                && forced.low_priority == forced0.low_priority && forced.replacement
                == forced0.replacement && forced.original == forced0.original);
            match &self.status.consts {
                Some(t) => {
                    assert forall|j: int|
                        0 <= j < self.status.common@.len() implies crate::status::eq_key(
                        self.status.common@[j],
                        crate::status::common_forced(forced),
                        *t,
                    ) == crate::status::eq_key(self.status.common@[j], forced0, *t) by {}
                },
                None => {},
            }
        }
        let r = self.status.replace_common_status_script(forced);
        r
    }
}

/// The shared-table setup symbol holds no NUL byte.
pub proof fn lemma_common_table_symbol_no_nul()
    ensures
        forall|k: int|
            0 <= k < common_table_symbol_spec().len() ==> common_table_symbol_spec()[k] != 0,
{
}

/// The init symbols hold no NUL byte.
pub proof fn lemma_init_symbols_no_nul()
    ensures
        forall|k: int|
            0 <= k < fighter_init_symbol_spec().len() ==> fighter_init_symbol_spec()[k] != 0,
        forall|k: int|
            0 <= k < weapon_init_symbol_spec().len() ==> weapon_init_symbol_spec()[k] != 0,
{
}

} // verus!
