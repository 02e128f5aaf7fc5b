//! A dynamic override engine for a long-running host process that loads and
//! unloads executable modules during its lifetime.  Extensions register
//! overrides against exported symbol names or against semantic selectors (a
//! target identity plus a condition code) without knowing whether the target
//! module is loaded yet.  The engine resolves symbols inside loaded modules,
//! keeps a module-lifecycle-aware patch ledger, maintains priority-ordered
//! override registries with conflict resolution, retroactively patches
//! already-constructed runtime instances, and rolls everything back by
//! address range when an owning module unloads.

use vstd::prelude::*;

pub mod acmd;
pub mod callbacks;
pub mod constant;
pub mod engine;
pub mod hooks;
pub mod nx;
pub mod resolver;
pub mod scripts;
pub mod slots;
pub mod status;
pub mod unwind;

verus! {

/// Address-range membership: `addr` lies in the half-open range
/// `[begin, end)`.
pub open spec fn in_range(addr: u64, begin: u64, end: u64) -> bool {
    begin <= addr < end
}

/// The recoverable and fatal error kinds of the engine.  `NotFound` and
/// `Conflict` are logged and skipped; `StaleOriginal` marks a backup that
/// would point into unloading code; `InvariantViolation` is fatal — the
/// caller must abort rather than continue on corrupted module metadata.
#[derive(Clone, Copy, PartialEq, Eq, Structural, Debug)]
pub enum EngineError {
    NotFound,
    Conflict,
    StaleOriginal,
    InvariantViolation,
}

/// What a registration did: appended a new record, replaced an existing
/// low-priority record at the same key, or was rejected because a
/// normal-priority record already holds the key (the conflict is reported
/// to the caller for logging; the prior record is kept).
#[derive(Clone, Copy, PartialEq, Eq, Structural, Debug)]
pub enum RegisterOutcome {
    Added,
    Replaced,
    Rejected,
}

/// Byte-for-byte equality of two byte strings.
pub fn bytes_eq(a: &[u8], b: &[u8]) -> (r: bool)
    ensures
        r == (a@ == b@),
{
    let n = a.len();
    if n != b.len() {
        proof {
            assert(a@ != b@);
        }
        return false;
    }
    let mut i: usize = 0;
    while i < n
        invariant
            n == a@.len(),
            n == b@.len(),
            0 <= i <= n,
            forall|j: int| 0 <= j < i ==> a@[j] == b@[j],
        decreases n - i,
    {
        if a[i] != b[i] {
            return false;
        }
        i = i + 1;
    }
    proof {
        assert(a@ =~= b@);
    }
    true
}

} // verus!
