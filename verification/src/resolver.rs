//! Symbol resolution inside a loaded module.  A module carries an ELF-style
//! dynamic symbol table: hash buckets and chains, symbol records, and a
//! string table.  Resolution walks the chain for the name's hash bucket and
//! returns the first defining (non-common) symbol whose string-table entry
//! matches the name byte for byte.  The resolver is pure: it only reads
//! module metadata.

use vstd::prelude::*;

verus! {

/// One record of a module's dynamic symbol table.
#[derive(Clone, Copy)]
pub struct ElfSymbol {
    /// Offset of the symbol's NUL-terminated name in the string table.
    pub st_name: usize,
    /// Section index; 0 or 0xFFF2 mark a non-defining ("common") entry.
    pub st_shndx: u16,
    /// The symbol's value: an offset from the module base.
    pub st_value: u64,
}

/// An independently loaded unit of host code: a name, a contiguous address
/// range starting at `base`, a dynamic symbol table, and the instruction
/// words of its text segment (word `i` sits at address `base + 4 * i`).
/// The host owns the module; this system reads its metadata and rewrites
/// only symbol values it holds the patch history for.
pub struct ModuleObject {
    pub name: Vec<u8>,
    pub base: u64,
    pub size: u64,
    pub hash_bucket: Vec<usize>,
    pub hash_chain: Vec<usize>,
    pub dynsym: Vec<ElfSymbol>,
    pub dynstr: Vec<u8>,
    pub code: Vec<u32>,
}

impl ModuleObject {
    /// Well-formed symbol tables: non-empty buckets and symbols, one chain
    /// link per symbol, every bucket or chain value a valid symbol index,
    /// every name offset inside the string table, and a string table that
    /// ends with a NUL so every name has a terminator.
    pub open spec fn wf(self) -> bool {
        &&& forall|k: int| 0 <= k < self.name@.len() ==> self.name@[k] != 0
        &&& self.dynsym@.len() >= 1
        &&& self.hash_bucket@.len() >= 1
        &&& self.hash_chain@.len() == self.dynsym@.len()
        &&& forall|i: int|
            0 <= i < self.hash_bucket@.len() ==> self.hash_bucket@[i] < self.dynsym@.len()
        &&& forall|i: int|
            0 <= i < self.hash_chain@.len() ==> self.hash_chain@[i] < self.dynsym@.len()
        &&& forall|i: int|
            0 <= i < self.dynsym@.len() ==> self.dynsym@[i].st_name < self.dynstr@.len()
        &&& self.dynstr@.len() >= 1
        &&& self.dynstr@[self.dynstr@.len() - 1] == 0
    }

    /// Symbol `i` is a "common" (externally defined, non-defining) entry.
    pub open spec fn sym_common(self, i: int) -> bool {
        self.dynsym@[i].st_shndx == 0 || self.dynsym@[i].st_shndx == 0xFFF2
    }

    /// Symbol `i`'s string-table entry equals `name` byte for byte.
    pub open spec fn name_matches(self, i: int, name: Seq<u8>) -> bool {
        let off = self.dynsym@[i].st_name as int;
        &&& off + name.len() < self.dynstr@.len()
        &&& self.dynstr@.subrange(off, off + name.len()) == name
        &&& self.dynstr@[off + name.len()] == 0
    }

    /// The address symbol `i` currently resolves to.
    pub open spec fn sym_addr(self, i: int) -> u64 {
        vstd::wrapping::u64_specs::wrapping_add(self.dynsym@[i].st_value, self.base)
    }

    /// The chain walk for `name`, starting at symbol index `i` with `fuel`
    /// steps left: the first defining symbol whose name matches, if the walk
    /// reaches one before running out of chain or fuel.
    pub open spec fn chain_lookup(self, i: int, name: Seq<u8>, fuel: nat) -> Option<int>
        decreases fuel,
    {
        if fuel == 0 {
            None
        } else if i == 0 {
            None
        } else if !self.sym_common(i) && self.name_matches(i, name) {
            Some(i)
        } else {
            self.chain_lookup(self.hash_chain@[i] as int, name, (fuel - 1) as nat)
        }
    }

    /// What resolution returns for `name`: the chain walk from `name`'s hash
    /// bucket, with one step of fuel per symbol in the table.
    pub open spec fn resolve_spec(self, name: Seq<u8>) -> Option<int> {
        self.chain_lookup(
            self.hash_bucket@[elf_hash(name) as int % (self.hash_bucket@.len() as int)] as int,
            name,
            self.dynsym@.len() as nat,
        )
    }

    /// The first defining symbol whose value equals `diff`, if any.
    pub open spec fn addr_match(self, i: int, diff: u64) -> bool {
        !self.sym_common(i) && self.dynsym@[i].st_value == diff
    }
}

/// One step of the classic ELF symbol-name hash: shift in four bits of the
/// next byte, folding overflowing nibbles back in.  The addition wraps, as
/// the host's resolver computes it on 32-bit words.
pub open spec fn elf_hash_step(h: u32, c: u8) -> u32 {
    let sum = vstd::wrapping::u32_specs::wrapping_add(h << 4u32, c as u32);
    let g = sum & 0xF000_0000u32;
    let folded = if g != 0 { sum ^ (g >> 24u32) } else { sum };
    folded & !g
}

/// The classic ELF hash of `name`, processed left to right from hash 0.
pub open spec fn elf_hash(name: Seq<u8>) -> u32
    decreases name.len(),
{
    if name.len() == 0 {
        0u32
    } else {
        elf_hash_step(elf_hash(name.drop_last()), name.last())
    }
}

/// Compute the ELF hash of a symbol name.
pub fn gen_rtld_elf_hash(name: &[u8]) -> (h: u32)
    ensures
        h == elf_hash(name@),
{
    let n = name.len();
    let mut h: u32 = 0;
    let mut i: usize = 0;
    while i < n
        invariant
            n == name@.len(),
            0 <= i <= n,
            h == elf_hash(name@.take(i as int)),
        decreases n - i,
    {
        proof {
            assert(name@.take(i + 1).drop_last() =~= name@.take(i as int));
            assert(name@.take(i + 1).last() == name@[i as int]);
        }
        let c = name[i];
        let shifted: u32 = h << 4u32;
        let sum: u32 = shifted.wrapping_add(c as u32);
        let g: u32 = sum & 0xF000_0000u32;
        let folded: u32 = if g != 0 {
            sum ^ (g >> 24u32)
        } else {
            sum
        };
        h = folded & !g;
        i = i + 1;
    }
    proof {
        assert(name@.take(n as int) =~= name@);
    }
    h
}

/// Byte-for-byte comparison of `name` against the NUL-terminated string at
/// symbol `i`'s name offset.
fn sym_name_eq(m: &ModuleObject, i: usize, name: &[u8]) -> (r: bool)
    requires
        m.wf(),
        i < m.dynsym@.len(),
        forall|k: int| 0 <= k < name@.len() ==> name@[k] != 0,
    ensures
        r == m.name_matches(i as int, name@),
{
    let off = m.dynsym[i].st_name;
    let strs = m.dynstr.len();
    let n = name.len();
    let mut k: usize = 0;
    while k < n
        invariant
            m.wf(),
            i < m.dynsym@.len(),
            off == m.dynsym@[i as int].st_name,
            strs == m.dynstr@.len(),
            n == name@.len(),
            off < strs,
            0 <= k <= n,
            off + k <= strs,
            forall|t: int| 0 <= t < k ==> m.dynstr@[off + t] == name@[t],
            forall|t: int| 0 <= t < name@.len() ==> name@[t] != 0,
        decreases n - k,
    {
        if off + k >= strs {
            proof {
                assert(off + name@.len() >= strs);
            }
            return false;
        }
        if m.dynstr[off + k] != name[k] {
            proof {
                if m.name_matches(i as int, name@) {
                    assert(m.dynstr@.subrange(off as int, off + name@.len())[k as int]
                        == m.dynstr@[off + k]);
                }
            }
            return false;
        }
        k = k + 1;
    }
    if off + n >= strs {
        proof {
            assert(off + name@.len() >= strs);
        }
        return false;
    }
    let r = m.dynstr[off + n] == 0;
    proof {
        if r {
            assert(m.dynstr@.subrange(off as int, off + name@.len()) =~= name@);
        } else {
            assert(!m.name_matches(i as int, name@));
        }
    }
    r
}

/// Look an exported symbol up by name: hash it, walk the bucket's chain,
/// skip common entries, compare names byte for byte.  Returns the index of
/// the first matching defining symbol, or `None`.
pub fn get_symbol_by_name(m: &ModuleObject, name: &[u8]) -> (r: Option<usize>)
    requires
        m.wf(),
        forall|k: int| 0 <= k < name@.len() ==> name@[k] != 0,
    ensures
        match r {
            Some(i) => i < m.dynsym@.len() && m.resolve_spec(name@) == Some(i as int),
            None => m.resolve_spec(name@) is None,
        },
{
    let h = gen_rtld_elf_hash(name);
    let nbucket = m.hash_bucket.len();
    let mut i: usize = m.hash_bucket[(h as usize) % nbucket];
    let mut fuel: usize = m.dynsym.len();
    while i != 0 && fuel > 0
        invariant
            m.wf(),
            forall|k: int| 0 <= k < name@.len() ==> name@[k] != 0,
            i < m.dynsym@.len(),
            m.resolve_spec(name@) == m.chain_lookup(i as int, name@, fuel as nat),
        decreases fuel,
    {
        let sym = &m.dynsym[i];
        let common = sym.st_shndx == 0 || sym.st_shndx == 0xFFF2;
        if !common && sym_name_eq(m, i, name) {
            return Some(i);
        }
        i = m.hash_chain[i];
        fuel = fuel - 1;
    }
    None
}

/// The reverse lookup: find the symbol record whose value equals
/// `address - base`.  A linear scan of the whole table — slow, used only for
/// rare, address-known lookups.  Returns the first defining match.
pub fn get_symbol_by_resolved_address(m: &ModuleObject, address: u64) -> (r: Option<usize>)
    requires
        m.wf(),
    ensures
        match r {
            Some(i) => 0 <= i < m.dynsym@.len() && m.addr_match(
                i as int,
                address.wrapping_sub(m.base),
            ) && forall|j: int| 0 <= j < i ==> !m.addr_match(j, address.wrapping_sub(m.base)),
            None => forall|j: int|
                0 <= j < m.dynsym@.len() ==> !m.addr_match(j, address.wrapping_sub(m.base)),
        },
{
    let diff = address.wrapping_sub(m.base);
    let n = m.dynsym.len();
    let mut i: usize = 0;
    while i < n
        invariant
            m.wf(),
            n == m.dynsym@.len(),
            diff == address.wrapping_sub(m.base),
            0 <= i <= n,
            forall|j: int| 0 <= j < i ==> !m.addr_match(j, diff),
        decreases n - i,
    {
        let sym = &m.dynsym[i];
        let common = sym.st_shndx == 0 || sym.st_shndx == 0xFFF2;
        if !common && sym.st_value == diff {
            return Some(i);
        }
        i = i + 1;
    }
    None
}

/// The self-describing header at the start of a module's memory region:
/// a reserved word and the offset of the module marker.
#[derive(Clone, Copy)]
pub struct Mod0Header {
    pub reserved: u32,
    pub mod0_offset: u32,
}

/// The module marker itself.  Its magic word identifies the region as a
/// module; the offsets locate the module's bookkeeping structures.
#[derive(Clone, Copy)]
pub struct Mod0 {
    pub magic: u32,
    pub dynamic_offset: u32,
    pub bss_start_offset: u32,
    pub bss_end_offset: u32,
    pub unwind_start_offset: u32,
    pub unwind_end_offset: u32,
    pub module_object_offset: u32,
}

/// The expected module-marker magic word.
pub const MOD0_MAGIC: u32 = 0x30444F4D;

/// Locate a module's bookkeeping object from the memory region that owns an
/// address: the region's header gives the marker offset, the marker gives
/// the object offset.  A wrong magic word is an invariant violation — the
/// region is not a module, and touching it would corrupt arbitrary memory —
/// so it is reported as a fatal error, never acted on.
pub fn get_module_object_from_address(
    mem: &crate::nx::QueryMemoryResult,
    header: Mod0Header,
    mod0: Mod0,
) -> (r: Result<u64, crate::EngineError>)
    ensures
        mod0.magic != MOD0_MAGIC <==> r == Err::<u64, _>(crate::EngineError::InvariantViolation),
        mod0.magic == MOD0_MAGIC ==> r == Ok::<_, crate::EngineError>(
            mem.mem_info.base_address.wrapping_add(header.mod0_offset as u64).wrapping_add(
                mod0.module_object_offset as u64,
            ),
        ),
{
    if mod0.magic != MOD0_MAGIC {
        return Err(crate::EngineError::InvariantViolation);
    }
    let mod0_addr = mem.mem_info.base_address.wrapping_add(header.mod0_offset as u64);
    Ok(mod0_addr.wrapping_add(mod0.module_object_offset as u64))
}

} // verus!
