//! Bookkeeping of extension-module memory regions for crash containment.
//! The host's unwinding machinery asks whether an instruction pointer lies
//! inside a registered extension region; extensions are registered when they
//! first install an override and unregistered when they unload.

use vstd::prelude::*;

use crate::nx::QueryMemoryResult;

verus! {

/// The set of memory regions known to belong to loaded extension modules.
pub struct PluginRegistry {
    pub regions: Vec<QueryMemoryResult>,
}

/// The regions of `s` whose base address differs from `base`, in order.
pub open spec fn drop_regions_at_base(s: Seq<QueryMemoryResult>, base: u64) -> Seq<
    QueryMemoryResult,
>
    decreases s.len(),
{
    if s.len() == 0 {
        Seq::empty()
    } else {
        let rest = drop_regions_at_base(s.drop_last(), base);
        if s.last().mem_info.base_address == base {
            rest
        } else {
            rest.push(s.last())
        }
    }
}

impl PluginRegistry {
    /// An empty registry: no extension regions known.
    pub fn new() -> (r: PluginRegistry)
        ensures
            r.regions@.len() == 0,
    {
        PluginRegistry { regions: Vec::new() }
    }

    /// Some registered region contains `ip`.
    pub open spec fn covers(self, ip: u64) -> bool {
        exists|i: int| 0 <= i < self.regions@.len() && self.regions@[i].mem_info.contains(ip)
    }

    /// Some registered region starts at `base`.
    pub open spec fn has_base(self, base: u64) -> bool {
        exists|i: int|
            0 <= i < self.regions@.len() && self.regions@[i].mem_info.base_address == base
    }

    /// Whether `ip` lies inside a registered extension region.
    pub fn is_custom_eh_mem(&self, ip: u64) -> (r: bool)
        ensures
            r == self.covers(ip),
    {
        let n = self.regions.len();
        let mut i: usize = 0;
        while i < n
            invariant
                n == self.regions@.len(),
                0 <= i <= n,
                forall|j: int| 0 <= j < i ==> !self.regions@[j].mem_info.contains(ip),
            decreases n - i,
        {
            let region = &self.regions[i];
            if region.mem_info.base_address <= ip && ip - region.mem_info.base_address
                < region.mem_info.size {
                return true;
            }
            i = i + 1;
        }
        false
    }

    /// Record an extension region.  A region with the same base address is
    /// only recorded once; registering it again changes nothing.
    pub fn register_skyline_plugin(&mut self, mem_info: QueryMemoryResult)
        ensures
            old(self).has_base(mem_info.mem_info.base_address) ==> final(self).regions@ == old(
                self,
            ).regions@,
            !old(self).has_base(mem_info.mem_info.base_address) ==> final(self).regions@ == old(
                self,
            ).regions@.push(mem_info),
    {
        let n = self.regions.len();
        let mut i: usize = 0;
        while i < n
            invariant
                n == self.regions@.len(),
                0 <= i <= n,
                forall|j: int|
                    0 <= j < i ==> self.regions@[j].mem_info.base_address
                        != mem_info.mem_info.base_address,
            decreases n - i,
        {
            if self.regions[i].mem_info.base_address == mem_info.mem_info.base_address {
                return ;
            }
            i = i + 1;
        }
        self.regions.push(mem_info);
    }

    /// Forget every region whose base address is `base_addr`.
    pub fn unregister_skyline_plugin(&mut self, base_addr: u64)
        ensures
            final(self).regions@ == drop_regions_at_base(old(self).regions@, base_addr),
    {
        let n = self.regions.len();
        let mut kept: Vec<QueryMemoryResult> = Vec::new();
        let mut i: usize = 0;
        while i < n
            invariant
                n == self.regions@.len(),
                0 <= i <= n,
                kept@ == drop_regions_at_base(self.regions@.take(i as int), base_addr),
            decreases n - i,
        {
            let region = self.regions[i];
            proof {
                assert(self.regions@.take(i + 1).drop_last() =~= self.regions@.take(i as int));
                assert(self.regions@.take(i + 1).last() == self.regions@[i as int]);
            }
            if region.mem_info.base_address != base_addr {
                kept.push(region);
            }
            i = i + 1;
        }
        proof {
            assert(self.regions@.take(n as int) =~= self.regions@);
        }
        self.regions = kept;
    }
}

/// `needle` occurs in `haystack` starting at offset `i`.
pub open spec fn subseq_at(haystack: Seq<u8>, needle: Seq<u8>, i: int) -> bool {
    0 <= i && i + needle.len() <= haystack.len() && haystack.subrange(i, i + needle.len())
        == needle
}

/// The first offset at which `needle` occurs in `haystack`, if any.  Used to
/// locate known code patterns inside a host library's text segment.
pub fn find_subsequence(haystack: &[u8], needle: &[u8]) -> (r: Option<usize>)
    requires
        needle@.len() >= 1,
    ensures
        match r {
            Some(i) => subseq_at(haystack@, needle@, i as int) && forall|j: int|
                0 <= j < i ==> !subseq_at(haystack@, needle@, j),
            None => forall|j: int| !subseq_at(haystack@, needle@, j),
        },
{
    if needle.len() > haystack.len() {
        return None;
    }
    let windows = haystack.len() - needle.len() + 1;
    let mut i: usize = 0;
    while i < windows
        invariant
            needle@.len() >= 1,
            windows == haystack@.len() - needle@.len() + 1,
            0 <= i <= windows,
            forall|j: int| 0 <= j < i ==> !subseq_at(haystack@, needle@, j),
        decreases windows - i,
    {
        if window_matches(haystack, needle, i) {
            return Some(i);
        }
        i = i + 1;
    }
    proof {
        assert forall|j: int| !subseq_at(haystack@, needle@, j) by {
            if 0 <= j < windows {
                assert(!subseq_at(haystack@, needle@, j));
            }
        }
    }
    None
}

/// Byte-for-byte comparison of `needle` against `haystack[i..i+needle.len()]`.
fn window_matches(haystack: &[u8], needle: &[u8], i: usize) -> (r: bool)
    requires
        i + needle@.len() <= haystack@.len(),
    ensures
        r == subseq_at(haystack@, needle@, i as int),
{
    let n = needle.len();
    let hlen = haystack.len();
    let mut j: usize = 0;
    while j < n
        invariant
            n == needle@.len(),
            hlen == haystack@.len(),
            i + n <= hlen,
            0 <= j <= n,
            forall|k: int| 0 <= k < j ==> haystack@[i + k] == needle@[k],
        decreases n - j,
    {
        if haystack[i + j] != needle[j] {
            proof {
                assert(haystack@.subrange(i as int, i + needle@.len())[j as int] == haystack@[i
                    + j]);
            }
            return false;
        }
        j = j + 1;
    }
    proof {
        assert(haystack@.subrange(i as int, i + needle@.len()) =~= needle@);
    }
    true
}

} // verus!
