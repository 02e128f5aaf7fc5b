//! Plain-value model of the host's memory-region query results.  The host
//! owns all modules; this system only reads the base and size of the region
//! that owns an address, and uses it for address-range bookkeeping.

use vstd::prelude::*;

verus! {

/// Raw result code from a host kernel call.  Zero means success.
#[derive(Clone, Copy, PartialEq, Eq, Structural, Debug)]
pub struct NxResult(pub u32);

/// The kind of a queried memory region.
#[derive(Clone, Copy, PartialEq, Eq, Structural, Debug)]
pub enum MemoryState {
    Free,
    Io,
    Static,
    Code,
    CodeData,
    Normal,
    Shared,
    Alias,
    AliasCode,
    AliasCodeData,
    Ipc,
    Stack,
    ThreadLocal,
    Transfered,
    SharedTransfered,
    SharedCode,
    Inaccessible,
    NonSecureIpc,
    NonDeviceIpc,
    Kernel,
    GeneratedCode,
    CodeOut,
}

/// One memory region: a base address, a size, and the host's attributes for
/// it.  Attribute and permission words are kept as raw bit sets.
#[derive(Clone, Copy)]
pub struct MemoryInfo {
    pub base_address: u64,
    pub size: u64,
    pub state: MemoryState,
    pub attribute: u32,
    pub permission: u32,
    pub device_refcount: u32,
    pub ipc_refcount: u32,
    pub padding: u32,
}

impl MemoryInfo {
    /// `addr` lies inside this region.
    pub open spec fn contains(self, addr: u64) -> bool {
        self.base_address <= addr < self.base_address + self.size
    }
}

/// What a dispatch-slot pointer belongs to, decided once from the region
/// bookkeeping instead of by scattered range checks: nothing yet (null),
/// the instance's own defining module, the shared bootstrap module, or
/// some third party's code, which is never patched over.
#[derive(Clone, Copy, PartialEq, Eq, Structural, Debug)]
pub enum PointerClass {
    Unpatched,
    OwningModuleCode,
    SharedBootstrapCode,
    ForeignCode,
}

/// Classify a pointer against the owning module's and the shared bootstrap
/// module's ranges.
pub open spec fn classify_spec(
    p: u64,
    own_base: u64,
    own_size: u64,
    shared_base: u64,
    shared_size: u64,
) -> PointerClass {
    if p == 0 {
        PointerClass::Unpatched
    } else if shared_base <= p < shared_base + shared_size {
        PointerClass::SharedBootstrapCode
    } else if own_base <= p < own_base + own_size {
        PointerClass::OwningModuleCode
    } else {
        PointerClass::ForeignCode
    }
}

/// Classify a pointer.
pub fn classify_pointer(
    p: u64,
    own_base: u64,
    own_size: u64,
    shared_base: u64,
    shared_size: u64,
) -> (r: PointerClass)
    ensures
        r == classify_spec(p, own_base, own_size, shared_base, shared_size),
{
    if p == 0 {
        PointerClass::Unpatched
    } else if shared_base <= p && p - shared_base < shared_size {
        PointerClass::SharedBootstrapCode
    } else if own_base <= p && p - own_base < own_size {
        PointerClass::OwningModuleCode
    } else {
        PointerClass::ForeignCode
    }
}

/// Page-level flags reported alongside a region.
#[derive(Clone, Copy)]
pub struct PageInfo {
    pub flags: u32,
}

/// Everything one memory query returns.
#[derive(Clone, Copy)]
pub struct QueryMemoryResult {
    pub mem_info: MemoryInfo,
    pub page_info: PageInfo,
}

} // verus!
