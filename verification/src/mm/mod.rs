//! Address spaces, modelled page by page: which virtual pages are mapped,
//! with which permission bits, and what each mapped page holds.
use vstd::prelude::*;
use crate::config::{PAGE_SIZE, VA_SPACE};
use std::collections::HashMap;

mod page_keys;

verus! {

broadcast use {vstd::std_specs::hash::group_hash_axioms, page_keys::lemma_page_keys};

/// Permission bits of a mapping.
#[derive(Clone, Copy, PartialEq, Eq, Structural, Debug)]
pub struct MapPermission {
    pub bits: u8,
}

/// Readable.
pub const MAP_R: u8 = 0x2;

/// Writable.
pub const MAP_W: u8 = 0x4;

/// Executable.
pub const MAP_X: u8 = 0x8;

/// Accessible from user mode.
pub const MAP_U: u8 = 0x10;

/// The virtual address that `x` denotes: its low 39 bits.
pub open spec fn va(x: usize) -> int {
    (x as int) % (VA_SPACE as int)
}

/// The page that holds address `a`.
pub open spec fn floor_vpn(a: int) -> int {
    a / PAGE_SIZE as int
}

/// The first page at or after address `a`.
pub open spec fn ceil_vpn(a: int) -> int {
    a / PAGE_SIZE as int + if a % PAGE_SIZE as int == 0 {
        0int
    } else {
        1int
    }
}

/// Rounding an address down gives the page that holds it, and rounding it
/// up gives the first page that starts at or after it.
pub proof fn law_page_rounding(a: int)
    requires
        0 <= a,
    ensures
        floor_vpn(a) * (PAGE_SIZE as int) <= a < (floor_vpn(a) + 1) * (PAGE_SIZE as int),
        (ceil_vpn(a) - 1) * (PAGE_SIZE as int) < a <= ceil_vpn(a) * (PAGE_SIZE as int),
{
    let ps = PAGE_SIZE as int;
    let q = a / ps;
    let rem = a % ps;
    assert(a == q * ps + rem && 0 <= rem < ps) by (nonlinear_arith)
        requires
            ps == 4096,
            q == a / ps,
            rem == a % ps,
    ;
    assert((q + 1) * ps == q * ps + ps) by (nonlinear_arith);
    assert((q - 1) * ps == q * ps - ps) by (nonlinear_arith);
}

/// Every address from `lo` up to (not including) `hi` lies in a page of
/// the range from the page holding `lo` up to (not including) the first
/// page at or after `hi`, and every page of that range holds such an
/// address.
pub proof fn law_range_covers(lo: int, hi: int, x: int)
    requires
        0 <= lo <= x < hi,
    ensures
        floor_vpn(lo) <= x / (PAGE_SIZE as int) < ceil_vpn(hi),
{
    let ps = PAGE_SIZE as int;
    law_page_rounding(lo);
    law_page_rounding(hi);
    law_page_rounding(x);
    let v = x / ps;
    assert(floor_vpn(x) == v);
    assert(floor_vpn(lo) <= v) by (nonlinear_arith)
        requires
            floor_vpn(lo) * ps <= lo,
            lo <= x,
            x < (v + 1) * ps,
            ps > 0,
    ;
    assert(v < ceil_vpn(hi)) by (nonlinear_arith)
        requires
            v * ps <= x,
            x < hi,
            hi <= ceil_vpn(hi) * ps,
            ps > 0,
    ;
}

/// A page lies in the range from the first page at or after `lo` up to
/// (not including) the first page at or after `hi` exactly when its first
/// byte lies from `lo` up to (not including) `hi`.
pub proof fn law_pages_starting_in(lo: int, hi: int, v: int)
    requires
        0 <= lo,
        0 <= hi,
    ensures
        (ceil_vpn(lo) <= v < ceil_vpn(hi)) <==> (lo <= v * (PAGE_SIZE as int) < hi),
{
    let ps = PAGE_SIZE as int;
    law_page_rounding(lo);
    law_page_rounding(hi);
    let cl = ceil_vpn(lo);
    let ch = ceil_vpn(hi);
    assert((cl <= v) <==> (lo <= v * ps)) by (nonlinear_arith)
        requires
            (cl - 1) * ps < lo <= cl * ps,
            ps > 0,
    ;
    assert((v < ch) <==> (v * ps < hi)) by (nonlinear_arith)
        requires
            (ch - 1) * ps < hi <= ch * ps,
            ps > 0,
    ;
}

/// No page in `lo .. hi` is mapped.
pub open spec fn range_free(m: Map<usize, (u8, Seq<u8>)>, lo: int, hi: int) -> bool {
    forall|v: usize| lo <= v < hi ==> !#[trigger] m.contains_key(v)
}

/// Every page in `lo .. hi` is mapped.
pub open spec fn range_mapped(m: Map<usize, (u8, Seq<u8>)>, lo: int, hi: int) -> bool {
    forall|v: usize| lo <= v < hi ==> #[trigger] m.contains_key(v)
}

/// The bytes of a freshly mapped page: all zero.
pub open spec fn zero_page() -> Seq<u8> {
    Seq::new(PAGE_SIZE as nat, |i: int| 0u8)
}

/// `m` with every page in `lo .. hi` mapped anew with `bits`, its bytes
/// zeroed.
pub open spec fn map_range(m: Map<usize, (u8, Seq<u8>)>, lo: int, hi: int, bits: u8) -> Map<usize, (u8, Seq<u8>)> {
    m.union_prefer_right(Map::new(|v: usize| lo <= v < hi, |v: usize| (bits, zero_page())))
}

/// `m` with every page in `lo .. hi` unmapped.
pub open spec fn unmap_range(m: Map<usize, (u8, Seq<u8>)>, lo: int, hi: int) -> Map<usize, (u8, Seq<u8>)> {
    m.remove_keys(Set::new(|v: usize| lo <= v < hi))
}

/// Mapping a free range and then unmapping it gives back the address space
/// as it was, and in between every page of the range is mapped.
pub proof fn law_map_then_unmap(m: Map<usize, (u8, Seq<u8>)>, lo: int, hi: int, bits: u8)
    requires
        range_free(m, lo, hi),
    ensures
        range_mapped(map_range(m, lo, hi, bits), lo, hi),
        unmap_range(map_range(m, lo, hi, bits), lo, hi) == m,
{
    assert(unmap_range(map_range(m, lo, hi, bits), lo, hi) =~= m);
}

/// Unmapping a mapped range whose pages all have `bits` and zero bytes,
/// and then mapping it again with `bits`, gives back the address space.
pub proof fn law_unmap_then_map(m: Map<usize, (u8, Seq<u8>)>, lo: int, hi: int, bits: u8)
    requires
        range_mapped(m, lo, hi),
        forall|v: usize| lo <= v < hi ==> m[v] == (bits, zero_page()),
    ensures
        range_free(unmap_range(m, lo, hi), lo, hi),
        map_range(unmap_range(m, lo, hi), lo, hi, bits) == m,
{
    assert(map_range(unmap_range(m, lo, hi), lo, hi, bits) =~= m);
}

/// The virtual address `x` denotes, computed.
pub fn virt_addr(x: usize) -> (a: usize)
    ensures
        a == va(x),
        a <= x,
{
    let r = (x as u64) % VA_SPACE;
    r as usize
}

/// The page holding address `a` (below the top of the address space).
pub fn page_floor(a: usize) -> (v: usize)
    requires
        a < VA_SPACE as int,
    ensures
        v == floor_vpn(a as int),
{
    a / PAGE_SIZE
}

/// The first page at or after address `a` (below the top of the address
/// space).
pub fn page_ceil(a: usize) -> (v: usize)
    requires
        a < VA_SPACE as int,
    ensures
        v == ceil_vpn(a as int),
{
    if a % PAGE_SIZE == 0 {
        a / PAGE_SIZE
    } else {
        a / PAGE_SIZE + 1
    }
}

/// The pages that a stored page map holds, each with its permission bits
/// and its bytes.
pub open spec fn page_view(m: Map<usize, (u8, Vec<u8>)>) -> Map<usize, (u8, Seq<u8>)> {
    Map::new(|v: usize| m.contains_key(v), |v: usize| (m[v].0, m[v].1@))
}

proof fn lemma_page_view_keys(m: Map<usize, (u8, Vec<u8>)>)
    ensures
        forall|v: usize| #[trigger] page_view(m).contains_key(v) == m.contains_key(v),
        forall|v: usize| m.contains_key(v) ==> #[trigger] page_view(m)[v] == (m[v].0, m[v].1@),
{
}

proof fn lemma_page_view_insert(m: Map<usize, (u8, Vec<u8>)>, k: usize, e: (u8, Vec<u8>))
    ensures
        page_view(m.insert(k, e)) == page_view(m).insert(k, (e.0, e.1@)),
{
    assert(page_view(m.insert(k, e)) =~= page_view(m).insert(k, (e.0, e.1@)));
}

proof fn lemma_page_view_remove(m: Map<usize, (u8, Vec<u8>)>, k: usize)
    ensures
        page_view(m.remove(k)) == page_view(m).remove(k),
{
    assert(page_view(m.remove(k)) =~= page_view(m).remove(k));
}

/// A page of zero bytes.
fn new_zero_page() -> (p: Vec<u8>)
    ensures
        p@ == zero_page(),
{
    let mut p: Vec<u8> = Vec::new();
    while p.len() < PAGE_SIZE
        invariant
            p.len() <= PAGE_SIZE,
            forall|i: int| 0 <= i < p.len() ==> p@[i] == 0u8,
        decreases PAGE_SIZE - p.len(),
    {
        p.push(0);
    }
    assert(p@ =~= zero_page());
    p
}

/// An address space.
pub struct MemorySet {
    /// The physical page of the root page table.
    pub root_ppn: usize,
    /// The mapped pages, by page number, with their permission bits and
    /// their bytes.
    pub pages: HashMap<usize, (u8, Vec<u8>)>,
}

impl MemorySet {
    /// The mapped pages, with their permission bits and their bytes.
    pub open spec fn view(&self) -> Map<usize, (u8, Seq<u8>)> {
        page_view(self.pages@)
    }

    /// An address space with nothing mapped, whose page table is rooted at
    /// `root_ppn`.
    pub fn new_bare(root_ppn: usize) -> (m: Self)
        ensures
            m@ == Map::<usize, (u8, Seq<u8>)>::empty(),
            m.root_ppn == root_ppn,
    {
        MemorySet { root_ppn, pages: HashMap::new() }
    }

    /// A copy of a user address space, with its own page table rooted at
    /// `root_ppn`.
    pub fn from_existed_user(user_space: &MemorySet, root_ppn: usize) -> (m: Self)
        ensures
            m@ == user_space@,
            m.root_ppn == root_ppn,
    {
        MemorySet { root_ppn, pages: user_space.pages.clone() }
    }

    /// The `satp` value that selects this address space: Sv39 mode and the
    /// root page.
    pub fn token(&self) -> (t: usize)
        ensures
            t == (((8u64 << 60u64) | (self.root_ppn as u64)) as usize),
    {
        ((8u64 << 60u64) | (self.root_ppn as u64)) as usize
    }

    /// Whether page `vpn` is mapped.
    pub fn is_mapped(&self, vpn: usize) -> (b: bool)
        ensures
            b == self@.contains_key(vpn),
    {
        self.pages.contains_key(&vpn)
    }

    /// Whether any page of the range from `start` to `end` is mapped.
    pub fn overlaps(&self, start: usize, end: usize) -> (b: bool)
        ensures
            b == !range_free(self@, floor_vpn(va(start)), ceil_vpn(va(end))),
    {
        let lo = page_floor(virt_addr(start));
        let hi = page_ceil(virt_addr(end));
        let mut v = lo;
        while v < hi
            invariant
                lo <= v,
                lo == floor_vpn(va(start)),
                hi == ceil_vpn(va(end)),
                range_free(self@, lo as int, v as int),
            decreases hi - v,
        {
            proof {
                lemma_page_view_keys(self.pages@);
                assert(self@.contains_key(v) == self.pages@.contains_key(v));
            }
            if self.pages.contains_key(&v) {
                return true;
            }
            v = v + 1;
        }
        false
    }

    /// Maps every page of the range from `start` to `end` with `perm`.
    pub fn insert_framed_area(&mut self, start: usize, end: usize, perm: MapPermission)
        requires
            range_free(old(self)@, floor_vpn(va(start)), ceil_vpn(va(end))),
        ensures
            final(self)@ == map_range(old(self)@, floor_vpn(va(start)), ceil_vpn(va(end)), perm.bits),
            final(self).root_ppn == old(self).root_ppn,
    {
        let lo = page_floor(virt_addr(start));
        let hi = page_ceil(virt_addr(end));
        self.map_pages(lo, hi, perm.bits);
    }

    fn map_pages(&mut self, lo: usize, hi: usize, bits: u8)
        ensures
            final(self)@ == map_range(old(self)@, lo as int, hi as int, bits),
            final(self).root_ppn == old(self).root_ppn,
    {
        let mut v = lo;
        while v < hi
            invariant
                lo <= v,
                v <= hi || v == lo,
                self.root_ppn == old(self).root_ppn,
                self@ == map_range(old(self)@, lo as int, v as int, bits),
            decreases hi - v,
        {
            let page = new_zero_page();
            let ghost before = self.pages@;
            self.pages.insert(v, (bits, page));
            proof {
                lemma_page_view_insert(before, v, (bits, page));
                assert(self@ =~= map_range(old(self)@, lo as int, v + 1, bits));
            }
            v = v + 1;
        }
        proof {
            assert(self@ =~= map_range(old(self)@, lo as int, hi as int, bits));
        }
    }

    fn unmap_pages(&mut self, lo: usize, hi: usize)
        ensures
            final(self)@ == unmap_range(old(self)@, lo as int, hi as int),
            final(self).root_ppn == old(self).root_ppn,
    {
        let mut v = lo;
        proof {
            assert(old(self)@ =~= unmap_range(old(self)@, lo as int, lo as int));
        }
        while v < hi
            invariant
                lo <= v,
                v <= hi || v == lo,
                self.root_ppn == old(self).root_ppn,
                self@ == unmap_range(old(self)@, lo as int, v as int),
            decreases hi - v,
        {
            let ghost before = self.pages@;
            self.pages.remove(&v);
            proof {
                lemma_page_view_remove(before, v);
                assert(self@ =~= unmap_range(old(self)@, lo as int, v + 1));
            }
            v = v + 1;
        }
        proof {
            assert(self@ =~= unmap_range(old(self)@, lo as int, hi as int));
        }
    }

    fn all_mapped(&self, lo: usize, hi: usize) -> (b: bool)
        ensures
            b == range_mapped(self@, lo as int, hi as int),
    {
        let mut v = lo;
        while v < hi
            invariant
                lo <= v,
                v <= hi || v == lo,
                range_mapped(self@, lo as int, v as int),
            decreases hi - v,
        {
            proof {
                lemma_page_view_keys(self.pages@);
                assert(self@.contains_key(v) == self.pages@.contains_key(v));
            }
            if !self.pages.contains_key(&v) {
                return false;
            }
            v = v + 1;
        }
        true
    }

    fn all_free(&self, lo: usize, hi: usize) -> (b: bool)
        ensures
            b == range_free(self@, lo as int, hi as int),
    {
        let mut v = lo;
        while v < hi
            invariant
                lo <= v,
                v <= hi || v == lo,
                range_free(self@, lo as int, v as int),
            decreases hi - v,
        {
            proof {
                lemma_page_view_keys(self.pages@);
                assert(self@.contains_key(v) == self.pages@.contains_key(v));
            }
            if self.pages.contains_key(&v) {
                return false;
            }
            v = v + 1;
        }
        true
    }

    /// Unmaps the range from `start` to `end` when every page of it is
    /// mapped, returning 0; otherwise changes nothing and returns -1.
    pub fn remove_area(&mut self, start: usize, end: usize) -> (r: isize)
        ensures
            final(self).root_ppn == old(self).root_ppn,
            range_mapped(old(self)@, floor_vpn(va(start)), ceil_vpn(va(end))) ==> r == 0 && final(self)@
                == unmap_range(old(self)@, floor_vpn(va(start)), ceil_vpn(va(end))),
            !range_mapped(old(self)@, floor_vpn(va(start)), ceil_vpn(va(end))) ==> r == -1 && final(self)@
                == old(self)@,
    {
        let lo = page_floor(virt_addr(start));
        let hi = page_ceil(virt_addr(end));
        if self.all_mapped(lo, hi) {
            self.unmap_pages(lo, hi);
            0
        } else {
            -1
        }
    }

    /// Grows a region that ends at `start` so that it ends at `end`: maps
    /// the pages from the first page at or after `start` up to (not
    /// including) the first page at or after `end`, readable, writable and
    /// user-accessible, when none of them is mapped; otherwise changes
    /// nothing.  Returns whether it mapped them.
    pub fn append_to(&mut self, start: usize, end: usize) -> (ok: bool)
        ensures
            final(self).root_ppn == old(self).root_ppn,
            ok == range_free(old(self)@, ceil_vpn(va(start)), ceil_vpn(va(end))),
            ok ==> final(self)@ == map_range(
                old(self)@,
                ceil_vpn(va(start)),
                ceil_vpn(va(end)),
                (MAP_R | MAP_W | MAP_U) as u8,
            ),
            !ok ==> final(self)@ == old(self)@,
    {
        let lo = page_ceil(virt_addr(start));
        let hi = page_ceil(virt_addr(end));
        if self.all_free(lo, hi) {
            self.map_pages(lo, hi, MAP_R | MAP_W | MAP_U);
            true
        } else {
            false
        }
    }

    /// Shrinks a region that ends at `end` so that it ends at `start`:
    /// unmaps the pages from the first page at or after `start` up to (not
    /// including) the first page at or after `end`, when all of them are
    /// mapped; otherwise changes nothing.  Returns whether it unmapped them.
    pub fn shrink_to(&mut self, start: usize, end: usize) -> (ok: bool)
        ensures
            final(self).root_ppn == old(self).root_ppn,
            ok == range_mapped(old(self)@, ceil_vpn(va(start)), ceil_vpn(va(end))),
            ok ==> final(self)@ == unmap_range(old(self)@, ceil_vpn(va(start)), ceil_vpn(va(end))),
            !ok ==> final(self)@ == old(self)@,
    {
        let lo = page_ceil(virt_addr(start));
        let hi = page_ceil(virt_addr(end));
        if self.all_mapped(lo, hi) {
            self.unmap_pages(lo, hi);
            true
        } else {
            false
        }
    }

    /// Unmaps every page.
    pub fn recycle_data_pages(&mut self)
        ensures
            final(self)@ == Map::<usize, (u8, Seq<u8>)>::empty(),
            final(self).root_ppn == old(self).root_ppn,
    {
        self.pages.clear();
    }
}

} // verus!
