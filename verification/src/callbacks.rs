//! Per-frame and lifecycle callback tables.  Extensions register whole-frame
//! replacements for one agent kind, and reset/init/frame callbacks that run
//! for every agent.  On an extension's unload, every entry whose code
//! address lies in the unloading range is dropped.

use vstd::prelude::*;

use crate::constant::ConstTable;
use crate::constant::LuaConstant;
use crate::slots::Slots;
use crate::slots::write_opt_spec;

verus! {

/// One whole-frame replacement: the agent kind it applies to (possibly
/// still symbolic), an optional backup slot for the control entry it
/// displaces, and the replacement's code address.
#[derive(Clone, Copy)]
pub struct FrameInfo {
    pub agent: LuaConstant,
    pub original: Option<usize>,
    pub frame: u64,
}

/// The registered callback tables, in registration order.
pub struct CallbackTables {
    pub fighter_frames: Vec<FrameInfo>,
    pub weapon_frames: Vec<FrameInfo>,
    pub fighter_resets: Vec<u64>,
    pub agent_resets: Vec<u64>,
    pub fighter_frame_callbacks: Vec<u64>,
    pub weapon_frame_callbacks: Vec<u64>,
    pub fighter_init_callbacks: Vec<u64>,
    pub agent_init_callbacks: Vec<u64>,
}

/// The pointers of `s` that lie outside `[begin, end)`, in order.
pub open spec fn ptrs_outside_range(s: Seq<u64>, begin: u64, end: u64) -> Seq<u64>
    decreases s.len(),
{
    if s.len() == 0 {
        Seq::empty()
    } else {
        let rest = ptrs_outside_range(s.drop_last(), begin, end);
        if crate::in_range(s.last(), begin, end) {
            rest
        } else {
            rest.push(s.last())
        }
    }
}

/// Keep the pointers outside `[begin, end)`.
fn retain_ptrs(v: &Vec<u64>, begin: u64, end: u64) -> (r: Vec<u64>)
    ensures
        r@ == ptrs_outside_range(v@, begin, end),
{
    let n = v.len();
    let mut kept: Vec<u64> = Vec::new();
    let mut i: usize = 0;
    proof {
        assert(v@.take(0) =~= Seq::<u64>::empty());
    }
    while i < n
        invariant
            n == v@.len(),
            0 <= i <= n,
            kept@ == ptrs_outside_range(v@.take(i as int), begin, end),
        decreases n - i,
    {
        proof {
            assert(v@.take(i + 1).drop_last() =~= v@.take(i as int));
            assert(v@.take(i + 1).last() == v@[i as int]);
        }
        let p = v[i];
        if !(begin <= p && p < end) {
            kept.push(p);
        }
        i = i + 1;
    }
    proof {
        assert(v@.take(n as int) =~= v@);
    }
    kept
}

impl CallbackTables {
    /// Empty tables.
    pub fn new() -> (r: CallbackTables)
        ensures
            r.fighter_frames@.len() == 0,
            r.weapon_frames@.len() == 0,
            r.fighter_resets@.len() == 0,
            r.agent_resets@.len() == 0,
            r.fighter_frame_callbacks@.len() == 0,
            r.weapon_frame_callbacks@.len() == 0,
            r.fighter_init_callbacks@.len() == 0,
            r.agent_init_callbacks@.len() == 0,
    {
        CallbackTables {
            fighter_frames: Vec::new(),
            weapon_frames: Vec::new(),
            fighter_resets: Vec::new(),
            agent_resets: Vec::new(),
            fighter_frame_callbacks: Vec::new(),
            weapon_frame_callbacks: Vec::new(),
            fighter_init_callbacks: Vec::new(),
            agent_init_callbacks: Vec::new(),
        }
    }

    /// Register a whole-frame replacement for one fighter kind.
    pub fn replace_fighter_frame(&mut self, agent: LuaConstant, original: Option<usize>, frame: u64)
        ensures
            *final(self) == (CallbackTables {
                fighter_frames: final(self).fighter_frames,
                ..*old(self)
            }),
            final(self).fighter_frames@ == old(self).fighter_frames@.push(
                FrameInfo { agent, original, frame },
            ),
    {
        self.fighter_frames.push(FrameInfo { agent, original, frame });
    }

    /// Register a whole-frame replacement for one weapon kind.
    pub fn replace_weapon_frame(&mut self, agent: LuaConstant, original: Option<usize>, frame: u64)
        ensures
            *final(self) == (CallbackTables {
                weapon_frames: final(self).weapon_frames,
                ..*old(self)
            }),
            final(self).weapon_frames@ == old(self).weapon_frames@.push(
                FrameInfo { agent, original, frame },
            ),
    {
        self.weapon_frames.push(FrameInfo { agent, original, frame });
    }

    /// Register a fighter reset callback.
    pub fn add_fighter_reset_callback(&mut self, callback: u64)
        ensures
            *final(self) == (CallbackTables {
                fighter_resets: final(self).fighter_resets,
                ..*old(self)
            }),
            final(self).fighter_resets@ == old(self).fighter_resets@.push(callback),
    {
        self.fighter_resets.push(callback);
    }

    /// Register an agent reset callback.
    pub fn add_agent_reset_callback(&mut self, callback: u64)
        ensures
            *final(self) == (CallbackTables { agent_resets: final(self).agent_resets, ..*old(self) }),
            final(self).agent_resets@ == old(self).agent_resets@.push(callback),
    {
        self.agent_resets.push(callback);
    }

    /// Register a per-frame fighter callback.
    pub fn add_fighter_frame_callback(&mut self, callback: u64)
        ensures
            *final(self) == (CallbackTables {
                fighter_frame_callbacks: final(self).fighter_frame_callbacks,
                ..*old(self)
            }),
            final(self).fighter_frame_callbacks@ == old(self).fighter_frame_callbacks@.push(
                callback,
            ),
    {
        self.fighter_frame_callbacks.push(callback);
    }

    /// Register a per-frame weapon callback.
    pub fn add_weapon_frame_callback(&mut self, callback: u64)
        ensures
            *final(self) == (CallbackTables {
                weapon_frame_callbacks: final(self).weapon_frame_callbacks,
                ..*old(self)
            }),
            final(self).weapon_frame_callbacks@ == old(self).weapon_frame_callbacks@.push(
                callback,
            ),
    {
        self.weapon_frame_callbacks.push(callback);
    }

    /// Register a fighter init callback.
    pub fn add_fighter_init_callback(&mut self, callback: u64)
        ensures
            *final(self) == (CallbackTables {
                fighter_init_callbacks: final(self).fighter_init_callbacks,
                ..*old(self)
            }),
            final(self).fighter_init_callbacks@ == old(self).fighter_init_callbacks@.push(
                callback,
            ),
    {
        self.fighter_init_callbacks.push(callback);
    }

    /// Register an agent init callback.
    pub fn add_agent_init_callback(&mut self, callback: u64)
        ensures
            *final(self) == (CallbackTables {
                agent_init_callbacks: final(self).agent_init_callbacks,
                ..*old(self)
            }),
            final(self).agent_init_callbacks@ == old(self).agent_init_callbacks@.push(callback),
    {
        self.agent_init_callbacks.push(callback);
    }

    /// Drop the fighter reset callbacks inside `[begin, end)`.
    pub fn remove_fighter_resets(&mut self, begin: u64, end: u64)
        ensures
            *final(self) == (CallbackTables {
                fighter_resets: final(self).fighter_resets,
                ..*old(self)
            }),
            final(self).fighter_resets@ == ptrs_outside_range(
                old(self).fighter_resets@,
                begin,
                end,
            ),
    {
        self.fighter_resets = retain_ptrs(&self.fighter_resets, begin, end);
    }

    /// Drop the agent reset callbacks inside `[begin, end)`.
    pub fn remove_agent_resets(&mut self, begin: u64, end: u64)
        ensures
            *final(self) == (CallbackTables { agent_resets: final(self).agent_resets, ..*old(self) }),
            final(self).agent_resets@ == ptrs_outside_range(old(self).agent_resets@, begin, end),
    {
        self.agent_resets = retain_ptrs(&self.agent_resets, begin, end);
    }

    /// Drop the per-frame fighter callbacks inside `[begin, end)`.
    pub fn remove_fighter_frame_callbacks(&mut self, begin: u64, end: u64)
        ensures
            *final(self) == (CallbackTables {
                fighter_frame_callbacks: final(self).fighter_frame_callbacks,
                ..*old(self)
            }),
            final(self).fighter_frame_callbacks@ == ptrs_outside_range(
                old(self).fighter_frame_callbacks@,
                begin,
                end,
            ),
    {
        self.fighter_frame_callbacks = retain_ptrs(&self.fighter_frame_callbacks, begin, end);
    }

    /// Drop the per-frame weapon callbacks inside `[begin, end)`.
    pub fn remove_weapon_frame_callbacks(&mut self, begin: u64, end: u64)
        ensures
            *final(self) == (CallbackTables {
                weapon_frame_callbacks: final(self).weapon_frame_callbacks,
                ..*old(self)
            }),
            final(self).weapon_frame_callbacks@ == ptrs_outside_range(
                old(self).weapon_frame_callbacks@,
                begin,
                end,
            ),
    {
        self.weapon_frame_callbacks = retain_ptrs(&self.weapon_frame_callbacks, begin, end);
    }

    /// Drop the fighter init callbacks inside `[begin, end)`.
    pub fn remove_fighter_init_callbacks(&mut self, begin: u64, end: u64)
        ensures
            *final(self) == (CallbackTables {
                fighter_init_callbacks: final(self).fighter_init_callbacks,
                ..*old(self)
            }),
            final(self).fighter_init_callbacks@ == ptrs_outside_range(
                old(self).fighter_init_callbacks@,
                begin,
                end,
            ),
    {
        self.fighter_init_callbacks = retain_ptrs(&self.fighter_init_callbacks, begin, end);
    }

    /// Drop the agent init callbacks inside `[begin, end)`.
    pub fn remove_agent_init_callbacks(&mut self, begin: u64, end: u64)
        ensures
            *final(self) == (CallbackTables {
                agent_init_callbacks: final(self).agent_init_callbacks,
                ..*old(self)
            }),
            final(self).agent_init_callbacks@ == ptrs_outside_range(
                old(self).agent_init_callbacks@,
                begin,
                end,
            ),
    {
        self.agent_init_callbacks = retain_ptrs(&self.agent_init_callbacks, begin, end);
    }

    /// Drop every callback of any kind inside `[begin, end)`: the
    /// module-scoped bulk teardown for these tables.
    pub fn remove_in_range(&mut self, begin: u64, end: u64)
        ensures
            final(self).fighter_frames@ == old(self).fighter_frames@,
            final(self).weapon_frames@ == old(self).weapon_frames@,
            final(self).fighter_resets@ == ptrs_outside_range(
                old(self).fighter_resets@,
                begin,
                end,
            ),
            final(self).agent_resets@ == ptrs_outside_range(old(self).agent_resets@, begin, end),
            final(self).fighter_frame_callbacks@ == ptrs_outside_range(
                old(self).fighter_frame_callbacks@,
                begin,
                end,
            ),
            final(self).weapon_frame_callbacks@ == ptrs_outside_range(
                old(self).weapon_frame_callbacks@,
                begin,
                end,
            ),
            final(self).fighter_init_callbacks@ == ptrs_outside_range(
                old(self).fighter_init_callbacks@,
                begin,
                end,
            ),
            final(self).agent_init_callbacks@ == ptrs_outside_range(
                old(self).agent_init_callbacks@,
                begin,
                end,
            ),
    {
        self.remove_fighter_resets(begin, end);
        self.remove_agent_resets(begin, end);
        self.remove_fighter_frame_callbacks(begin, end);
        self.remove_weapon_frame_callbacks(begin, end);
        self.remove_fighter_init_callbacks(begin, end);
        self.remove_agent_init_callbacks(begin, end);
    }
}

/// The control entry an agent of kind `kind` ends up dispatching through,
/// and the slot values afterwards: each matching frame replacement captures
/// the control it displaces into its backup slot and takes over, so the
/// last registered match wins and each match's backup holds its
/// predecessor in the chain.
pub open spec fn select_control_fold(
    frames: Seq<FrameInfo>,
    kind: i32,
    control: u64,
    t: ConstTable,
    slots: Seq<u64>,
) -> (u64, Seq<u64>)
    decreases frames.len(),
{
    if frames.len() == 0 {
        (control, slots)
    } else {
        let prev = select_control_fold(frames.drop_last(), kind, control, t, slots);
        let f = frames.last();
        if f.agent.value_spec(t) == kind {
            (f.frame, write_opt_spec(prev.1, f.original, prev.0))
        } else {
            prev
        }
    }
}

/// Decide the control entry for a newly initialized agent of kind `kind`:
/// walk the registered whole-frame replacements in order, capture the
/// displaced control into each match's backup slot, and return what the
/// agent must dispatch through.
pub fn select_system_control(
    frames: &Vec<FrameInfo>,
    kind: i32,
    default_control: u64,
    consts: &ConstTable,
    slots: &mut Slots,
) -> (control: u64)
    requires
        consts.wf(),
        forall|j: int| 0 <= j < frames@.len() ==> (#[trigger] frames@[j]).agent.resolvable(*consts),
        forall|j: int|
            0 <= j < frames@.len() ==> old(slots).slot_ok((#[trigger] frames@[j]).original),
    ensures
        final(slots).values@.len() == old(slots).values@.len(),
        (control, final(slots).values@) == select_control_fold(
            frames@,
            kind,
            default_control,
            *consts,
            old(slots).values@,
        ),
{
    let n = frames.len();
    let mut control = default_control;
    let mut i: usize = 0;
    proof {
        assert(frames@.take(0) =~= Seq::<FrameInfo>::empty());
    }
    while i < n
        invariant
            n == frames@.len(),
            0 <= i <= n,
            consts.wf(),
            forall|j: int|
                0 <= j < frames@.len() ==> (#[trigger] frames@[j]).agent.resolvable(*consts),
            forall|j: int|
                0 <= j < frames@.len() ==> old(slots).slot_ok((#[trigger] frames@[j]).original),
            slots.values@.len() == old(slots).values@.len(),
            (control, slots.values@) == select_control_fold(
                frames@.take(i as int),
                kind,
                default_control,
                *consts,
                old(slots).values@,
            ),
        decreases n - i,
    {
        proof {
            assert(frames@.take(i + 1).drop_last() =~= frames@.take(i as int));
            assert(frames@.take(i + 1).last() == frames@[i as int]);
        }
        let f = &frames[i];
        let kind_value = f.agent.eval(consts);
        if kind_value == kind {
            slots.write_opt(f.original, control);
            control = f.frame;
        }
        i = i + 1;
    }
    proof {
        assert(frames@.take(n as int) =~= frames@);
    }
    control
}

} // verus!
