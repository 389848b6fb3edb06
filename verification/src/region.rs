//! Flash memory geometry: a region of flash described by its address range,
//! sector size, page size and erased byte value, with lookups that map an
//! address to the sector or page containing it.

use vstd::prelude::*;

verus! {

/// Description of one flash sector: its base address, its size, and the size
/// of the pages it is divided into.
#[derive(Clone, Copy, Debug, PartialEq, Eq, Structural)]
pub struct SectorInfo {
    pub base_address: u32,
    pub size: u32,
    pub page_size: u32,
}

/// Description of one flash page: its base address and its size.
#[derive(Clone, Copy, Debug, PartialEq, Eq, Structural)]
pub struct PageInfo {
    pub base_address: u32,
    pub size: u32,
}

/// A contiguous region of flash memory with uniform sector and page geometry.
#[derive(Clone, Copy, Debug, PartialEq, Eq, Structural)]
pub struct FlashRegion {
    /// First address of the region.
    pub range_start: u32,
    /// One past the last address of the region.
    pub range_end: u32,
    /// Size of the erase granule.
    pub sector_size: u32,
    /// Size of the program granule.
    pub page_size: u32,
    /// Value a byte holds after its sector was erased.
    pub erased_byte_value: u8,
}

impl FlashRegion {
    /// The geometry is consistent: sizes are positive, sectors are divided
    /// evenly into pages, and the region boundaries are sector-aligned.
    pub open spec fn wf(self) -> bool {
        &&& 0 < self.page_size
        &&& 0 < self.sector_size
        &&& self.sector_size % self.page_size == 0
        &&& self.range_start % self.sector_size == 0
        &&& self.range_end % self.sector_size == 0
        &&& self.range_start <= self.range_end
    }

    /// Whether `address` lies inside the region.
    pub open spec fn spec_contains(self, address: u32) -> bool {
        self.range_start <= address < self.range_end
    }

    /// Whether the mathematical address `address` lies inside the region.
    pub open spec fn spec_contains_int(self, address: int) -> bool {
        self.range_start <= address < self.range_end
    }

    /// Base address of the sector containing `address`.
    pub open spec fn spec_sector_base(self, address: u32) -> int {
        address - ((address - self.range_start) % (self.sector_size as int))
    }

    /// Base address of the page containing `address`.
    pub open spec fn spec_page_base(self, address: u32) -> int {
        address - ((address - self.range_start) % (self.page_size as int))
    }

    /// Whether `address` lies inside the region.
    pub fn contains(&self, address: u32) -> (r: bool)
        ensures
            r == self.spec_contains(address),
    {
        self.range_start <= address && address < self.range_end
    }

    /// Maps `address` to the sector containing it, or `None` if the address
    /// is outside the region.
    pub fn sector_info(&self, address: u32) -> (r: Option<SectorInfo>)
        requires
            self.wf(),
        ensures
            match r {
                Some(info) => {
                    &&& self.spec_contains(address)
                    &&& info.base_address == self.spec_sector_base(address)
                    &&& info.size == self.sector_size
                    &&& info.page_size == self.page_size
                },
                None => !self.spec_contains(address),
            },
    {
        if self.range_start <= address && address < self.range_end {
            let offset: u32 = (address - self.range_start) % self.sector_size;
            proof {
                vstd::arithmetic::div_mod::lemma_mod_decreases(
                    (address - self.range_start) as nat,
                    self.sector_size as nat,
                );
            }
            Some(SectorInfo {
                base_address: address - offset,
                size: self.sector_size,
                page_size: self.page_size,
            })
        } else {
            None
        }
    }

    /// Maps `address` to the page containing it, or `None` if the address is
    /// outside the region.
    pub fn page_info(&self, address: u32) -> (r: Option<PageInfo>)
        requires
            self.wf(),
        ensures
            match r {
                Some(info) => {
                    &&& self.spec_contains(address)
                    &&& info.base_address == self.spec_page_base(address)
                    &&& info.size == self.page_size
                },
                None => !self.spec_contains(address),
            },
    {
        if self.range_start <= address && address < self.range_end {
            let offset: u32 = (address - self.range_start) % self.page_size;
            proof {
                vstd::arithmetic::div_mod::lemma_mod_decreases(
                    (address - self.range_start) as nat,
                    self.page_size as nat,
                );
            }
            Some(PageInfo { base_address: address - offset, size: self.page_size })
        } else {
            None
        }
    }
}

/// A multiple of `s` is also a multiple of every divisor `p` of `s`.
proof fn lemma_multiple_of_divisor(x: int, s: int, p: int)
    requires
        0 < p,
        0 < s,
        x % s == 0,
        s % p == 0,
    ensures
        x % p == 0,
{
    vstd::arithmetic::div_mod::lemma_fundamental_div_mod(x, s);
    vstd::arithmetic::div_mod::lemma_fundamental_div_mod(s, p);
    let q = x / s;
    let k = s / p;
    assert(x == (k * q) * p) by (nonlinear_arith)
        requires
            x == s * q + 0,
            s == p * k + 0,
    ;
    vstd::arithmetic::div_mod::lemma_mod_multiples_basic(k * q, p);
}

/// For an aligned range `[lo, hi)` containing `a`, the aligned block of size
/// `unit` that starts at `base == a - (a - lo) % unit` contains `a` and stays
/// inside the range.
proof fn lemma_aligned_range_bound(lo: int, hi: int, a: int, unit: int, base: int)
    requires
        0 < unit,
        lo % unit == 0,
        hi % unit == 0,
        lo <= a < hi,
        base == a - ((a - lo) % unit),
    ensures
        lo <= base <= a,
        a < base + unit,
        base + unit <= hi,
        base % unit == 0,
{
    vstd::arithmetic::div_mod::lemma_mod_division_less_than_divisor(a - lo, unit);
    vstd::arithmetic::div_mod::lemma_fundamental_div_mod(a - lo, unit);
    let q = (a - lo) / unit;
    assert(base - lo == unit * q);
    assert(base % unit == 0) by {
        assert((base - lo) % unit == 0) by {
            assert(base - lo == q * unit) by (nonlinear_arith)
                requires
                    base - lo == unit * q,
            ;
            vstd::arithmetic::div_mod::lemma_mod_multiples_basic(q, unit);
        }
        vstd::arithmetic::div_mod::lemma_sub_mod_noop(base, lo, unit);
        vstd::arithmetic::div_mod::lemma_mod_twice(base, unit);
        vstd::arithmetic::div_mod::lemma_mod_division_less_than_divisor(base, unit);
    }
    let d = hi - base;
    assert(d % unit == 0) by {
        vstd::arithmetic::div_mod::lemma_sub_mod_noop(hi, base, unit);
        vstd::arithmetic::div_mod::lemma_small_mod(0nat, unit as nat);
    }
    assert(d >= unit) by {
        vstd::arithmetic::div_mod::lemma_fundamental_div_mod(d, unit);
        if d / unit <= 0 {
            assert(d <= 0) by (nonlinear_arith)
                requires
                    d == unit * (d / unit) + 0,
                    d / unit <= 0,
                    0 < unit,
            ;
        }
        assert(d >= unit) by (nonlinear_arith)
            requires
                d == unit * (d / unit) + 0,
                d / unit >= 1,
                0 < unit,
        ;
    }
}

/// The sector containing an in-region address starts at or before the
/// address, ends after it, stays inside the region, and is aligned to the
/// sector size.
pub proof fn lemma_sector_base_bounds(region: FlashRegion, address: u32)
    requires
        region.wf(),
        region.spec_contains(address),
    ensures
        region.spec_sector_base(address) <= address,
        address < region.spec_sector_base(address) + region.sector_size,
        region.range_start <= region.spec_sector_base(address),
        region.spec_sector_base(address) + region.sector_size <= region.range_end,
        region.spec_sector_base(address) % (region.sector_size as int) == 0,
{
    lemma_aligned_range_bound(
        region.range_start as int,
        region.range_end as int,
        address as int,
        region.sector_size as int,
        region.spec_sector_base(address),
    );
}

/// The page containing an in-region address starts at or before the address,
/// ends after it, is aligned to the page size, and lies fully inside the
/// sector containing the same address.
pub proof fn lemma_page_base_bounds(region: FlashRegion, address: u32)
    requires
        region.wf(),
        region.spec_contains(address),
    ensures
        region.spec_page_base(address) <= address,
        address < region.spec_page_base(address) + region.page_size,
        region.range_start <= region.spec_page_base(address),
        region.spec_page_base(address) + region.page_size <= region.range_end,
        region.spec_page_base(address) % (region.page_size as int) == 0,
        region.spec_sector_base(address) <= region.spec_page_base(address),
        region.spec_page_base(address) + region.page_size <= region.spec_sector_base(address)
            + region.sector_size,
{
    let p = region.page_size as int;
    let s = region.sector_size as int;
    let lo = region.range_start as int;
    let hi = region.range_end as int;
    let a = address as int;
    let pbase = region.spec_page_base(address);
    lemma_multiple_of_divisor(lo, s, p);
    lemma_multiple_of_divisor(hi, s, p);
    lemma_aligned_range_bound(lo, hi, a, p, pbase);
    let sbase = region.spec_sector_base(address);
    lemma_sector_base_bounds(region, address);
    lemma_multiple_of_divisor(sbase, s, p);
    assert((sbase + s) % s == 0) by {
        vstd::arithmetic::div_mod::lemma_add_mod_noop(sbase, s, s);
        vstd::arithmetic::div_mod::lemma_mod_self_0(s);
        vstd::arithmetic::div_mod::lemma_small_mod(0nat, s as nat);
    }
    lemma_multiple_of_divisor(sbase + s, s, p);
    lemma_aligned_page_in_block(sbase, sbase + s, a, p, pbase);
}

/// Two multiples of `unit` closer than `unit` are ordered: if `x` is above
/// `y - unit`, it is at least `y`.
pub proof fn lemma_aligned_ge(x: int, y: int, unit: int)
    requires
        0 < unit,
        x % unit == 0,
        y % unit == 0,
        x > y - unit,
    ensures
        x >= y,
{
    let d = x - y;
    assert(d % unit == 0) by {
        vstd::arithmetic::div_mod::lemma_sub_mod_noop(x, y, unit);
        vstd::arithmetic::div_mod::lemma_small_mod(0nat, unit as nat);
    }
    if d < 0 {
        vstd::arithmetic::div_mod::lemma_fundamental_div_mod(d, unit);
        assert(d <= -unit) by (nonlinear_arith)
            requires
                d == unit * (d / unit) + 0,
                d < 0,
                0 < unit,
        ;
    }
}

/// Two aligned blocks of size `unit` that both contain the address `a` are
/// the same block.
pub proof fn lemma_aligned_base_unique(a: int, unit: int, base1: int, base2: int)
    requires
        0 < unit,
        base1 % unit == 0,
        base2 % unit == 0,
        base1 <= a < base1 + unit,
        base2 <= a < base2 + unit,
    ensures
        base1 == base2,
{
    lemma_aligned_ge(base1, base2, unit);
    lemma_aligned_ge(base2, base1, unit);
}

/// An aligned block of size `unit` containing `a` stays inside any
/// `unit`-aligned range `[lo, hi)` that contains `a`.
proof fn lemma_aligned_page_in_block(lo: int, hi: int, a: int, unit: int, base: int)
    requires
        0 < unit,
        lo % unit == 0,
        hi % unit == 0,
        lo <= a < hi,
        base <= a < base + unit,
        base % unit == 0,
    ensures
        lo <= base,
        base + unit <= hi,
{
    assert(lo <= base) by {
        let d = base - lo;
        assert(d % unit == 0) by {
            vstd::arithmetic::div_mod::lemma_sub_mod_noop(base, lo, unit);
            vstd::arithmetic::div_mod::lemma_small_mod(0nat, unit as nat);
        }
        if d < 0 {
            vstd::arithmetic::div_mod::lemma_fundamental_div_mod(d, unit);
            assert(d <= -unit) by (nonlinear_arith)
                requires
                    d == unit * (d / unit) + 0,
                    d < 0,
                    0 < unit,
            ;
        }
    }
    assert(base + unit <= hi) by {
        let d = hi - base;
        assert(d % unit == 0) by {
            vstd::arithmetic::div_mod::lemma_sub_mod_noop(hi, base, unit);
            vstd::arithmetic::div_mod::lemma_small_mod(0nat, unit as nat);
        }
        vstd::arithmetic::div_mod::lemma_fundamental_div_mod(d, unit);
        if d / unit <= 0 {
            assert(d <= 0) by (nonlinear_arith)
                requires
                    d == unit * (d / unit) + 0,
                    d / unit <= 0,
                    0 < unit,
            ;
        }
        assert(d >= unit) by (nonlinear_arith)
            requires
                d == unit * (d / unit) + 0,
                d / unit >= 1,
                0 < unit,
        ;
    }
}

} // verus!
