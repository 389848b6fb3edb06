//! Flash layout and programming engine.
//!
//! A [`FlashBuilder`] collects write requests (address / data pairs), keeps
//! them sorted and free of overlaps, lays them out as sectors and pages over
//! a flash geometry, and turns the layout into the exact sequence of erase
//! and program operations to run against the device. All device interaction
//! is returned as data ([`ReadRequest`], [`FlashOperation`]) so the caller
//! performs the I/O and the engine stays pure.

use vstd::prelude::*;

use crate::region::FlashRegion;
use crate::region::PageInfo;
use crate::region::SectorInfo;

verus! {

/// Failures of the flash engine.
#[derive(Clone, Copy, Debug, PartialEq, Eq, Structural)]
pub enum FlashError {
    /// A write request collides with an already buffered one, a page does
    /// not fit its sector, or a programming step reported failure.
    FlashBuilder,
    /// A requested address lies outside the flash region.
    AddressNotInRegion { address: u32, region: FlashRegion },
}

/// One write request held by the builder: `data` is to be programmed
/// starting at `address`.
#[derive(Debug)]
pub struct FlashWriteData {
    pub address: u32,
    pub data: Vec<u8>,
}

impl FlashWriteData {
    /// Creates a new write request.
    pub fn new(address: u32, data: Vec<u8>) -> (r: Self)
        ensures
            r.address == address,
            r.data@ == data@,
    {
        Self { address, data }
    }
}

/// One past the last address written by `w`.
pub open spec fn write_end(w: FlashWriteData) -> int {
    w.address + w.data@.len()
}

/// The write list is sorted by strictly ascending address, writes do not
/// overlap (adjacency is allowed), and every write fits the 32-bit address
/// space.
pub open spec fn writes_wf(ws: Seq<FlashWriteData>) -> bool {
    &&& forall|i: int| 0 <= i < ws.len() ==> write_end(#[trigger] ws[i]) <= u32::MAX + 1
    &&& forall|i: int|
        0 <= i < ws.len() - 1 ==> write_end(#[trigger] ws[i]) <= ws[i + 1].address
            && ws[i].address < ws[i + 1].address
}

/// Whether write `w` writes the byte at address `addr`.
pub open spec fn covers(w: FlashWriteData, addr: int) -> bool {
    w.address <= addr < write_end(w)
}

/// Whether some write in `ws` writes the byte at address `addr`.
pub open spec fn covered(ws: Seq<FlashWriteData>, addr: int) -> bool {
    exists|i: int| 0 <= i < ws.len() && covers(#[trigger] ws[i], addr)
}

/// The byte that the writes place at address `addr` (meaningful only when
/// `covered(ws, addr)`).
pub open spec fn written_byte(ws: Seq<FlashWriteData>, addr: int) -> u8 {
    let i = choose|i: int| 0 <= i < ws.len() && covers(#[trigger] ws[i], addr);
    ws[i].data@[addr - ws[i].address]
}

/// A new write of `len` bytes at `address` neither duplicates an existing
/// start address nor overlaps an existing write.
pub open spec fn can_insert(ws: Seq<FlashWriteData>, address: u32, len: int) -> bool {
    forall|i: int|
        0 <= i < ws.len() ==> ((address + len <= (#[trigger] ws[i]).address || write_end(ws[i])
            <= address) && ws[i].address != address)
}

/// Index at which a write at `address` is inserted: the first position whose
/// write starts at or beyond `address`.
pub open spec fn write_insert_pos(ws: Seq<FlashWriteData>, address: u32) -> int
    decreases ws.len(),
{
    if ws.len() == 0 {
        0
    } else if ws[0].address >= address {
        0
    } else {
        1 + write_insert_pos(ws.drop_first(), address)
    }
}

/// In a well-formed write list every earlier write ends at or before every
/// later write starts, so any two distinct writes are disjoint.
pub proof fn lemma_writes_pairwise_disjoint(ws: Seq<FlashWriteData>)
    requires
        writes_wf(ws),
    ensures
        forall|i: int, j: int|
            0 <= i < j < ws.len() ==> write_end(#[trigger] ws[i]) <= (#[trigger] ws[j]).address
                && ws[i].address < ws[j].address,
    decreases ws.len(),
{
    if ws.len() > 1 {
        let prefix = ws.drop_last();
        assert(writes_wf(prefix)) by {
            assert(forall|i: int|
                0 <= i < prefix.len() ==> prefix[i] == #[trigger] ws[i]);
        }
        lemma_writes_pairwise_disjoint(prefix);
        assert forall|i: int, j: int| 0 <= i < j < ws.len() implies write_end(
            #[trigger] ws[i],
        ) <= (#[trigger] ws[j]).address && ws[i].address < ws[j].address by {
            if j < ws.len() - 1 {
                assert(prefix[i] == ws[i] && prefix[j] == ws[j]);
            } else {
                // j is the last element; chain through its predecessor.
                if i < j - 1 {
                    assert(prefix[i] == ws[i] && prefix[j - 1] == ws[j - 1]);
                    assert(write_end(ws[i]) <= ws[j - 1].address);
                    assert(ws[j - 1].address <= write_end(ws[j - 1]));
                    assert(write_end(ws[j - 1]) <= ws[j].address);
                } else {
                    assert(write_end(ws[i]) <= ws[i + 1].address);
                }
            }
        }
    }
}

/// At most one write covers any given address.
pub proof fn lemma_covering_unique(ws: Seq<FlashWriteData>, i: int, addr: int)
    requires
        writes_wf(ws),
        0 <= i < ws.len(),
        covers(ws[i], addr),
    ensures
        written_byte(ws, addr) == ws[i].data@[addr - ws[i].address],
        covered(ws, addr),
{
    lemma_writes_pairwise_disjoint(ws);
    assert(covered(ws, addr));
    let j = choose|j: int| 0 <= j < ws.len() && covers(#[trigger] ws[j], addr);
    if i < j {
        assert(write_end(ws[i]) <= ws[j].address);
        assert(false);
    } else if j < i {
        assert(write_end(ws[j]) <= ws[i].address);
        assert(false);
    }
}

/// If a new write fits strictly between its would-be neighbours in a
/// well-formed write list, it collides with no write at all.
proof fn lemma_can_insert_from_neighbors(ws: Seq<FlashWriteData>, address: u32, len: int, i: int)
    requires
        writes_wf(ws),
        0 <= i <= ws.len(),
        forall|j: int| 0 <= j < i ==> (#[trigger] ws[j]).address < address,
        i < ws.len() ==> ws[i].address > address,
        i > 0 ==> write_end(ws[i - 1]) <= address,
        i < ws.len() ==> address + len <= ws[i].address,
    ensures
        can_insert(ws, address, len),
{
    lemma_writes_pairwise_disjoint(ws);
    assert forall|j: int| 0 <= j < ws.len() implies ((address + len <= (
    #[trigger] ws[j]).address || write_end(ws[j]) <= address) && ws[j].address != address) by {
        if j < i {
            if j < i - 1 {
                assert(write_end(ws[j]) <= ws[i - 1].address);
            }
        } else {
            if i < j {
                assert(ws[i].address <= ws[j].address);
            }
        }
    }
}

/// Inserting a write that fits strictly between its neighbours keeps the
/// write list well formed.
proof fn lemma_insert_preserves_writes_wf(ws: Seq<FlashWriteData>, i: int, w: FlashWriteData)
    requires
        writes_wf(ws),
        0 <= i <= ws.len(),
        write_end(w) <= u32::MAX + 1,
        forall|j: int| 0 <= j < i ==> (#[trigger] ws[j]).address < w.address,
        i < ws.len() ==> ws[i].address > w.address,
        i > 0 ==> write_end(ws[i - 1]) <= w.address,
        i < ws.len() ==> write_end(w) <= ws[i].address,
    ensures
        writes_wf(ws.insert(i, w)),
{
    let ws2 = ws.insert(i, w);
    assert forall|j: int| 0 <= j < ws2.len() - 1 implies write_end(#[trigger] ws2[j]) <= ws2[j
        + 1].address && ws2[j].address < ws2[j + 1].address by {
        if j + 1 < i {
            assert(ws2[j] == ws[j] && ws2[j + 1] == ws[j + 1]);
        } else if j + 1 == i {
            assert(ws2[j] == ws[j]);
        } else if j == i {
            assert(ws2[j + 1] == ws[j]);
        } else {
            assert(ws2[j] == ws[j - 1] && ws2[j + 1] == ws[j]);
        }
    }
    assert forall|j: int| 0 <= j < ws2.len() implies write_end(#[trigger] ws2[j]) <= u32::MAX
        + 1 by {
        if j < i {
            assert(ws2[j] == ws[j]);
        } else if j > i {
            assert(ws2[j] == ws[j - 1]);
        }
    }
}

/// One page of the computed layout: the programming granule at `address`,
/// `size` bytes large, holding the bytes to be programmed in `data`.
#[derive(Debug)]
pub struct FlashPage {
    pub address: u32,
    pub size: u32,
    pub data: Vec<u8>,
}

/// Structural equality of pages (same address, size and bytes).
pub open spec fn page_eq(p: FlashPage, q: FlashPage) -> bool {
    p.address == q.address && p.size == q.size && p.data@ == q.data@
}

impl FlashPage {
    /// One past the last address of the page.
    pub open spec fn end(self) -> int {
        self.address + self.size
    }

    /// One past the address of the last byte stored in the page so far.
    pub open spec fn data_end(self) -> int {
        self.address + self.data@.len()
    }

    /// Creates a new empty flash page from a `PageInfo`.
    pub fn new(page_info: &PageInfo) -> (r: Self)
        ensures
            r.address == page_info.base_address,
            r.size == page_info.size,
            r.data@.len() == 0,
    {
        Self { address: page_info.base_address, size: page_info.size, data: Vec::new() }
    }
}

/// One sector of the computed layout: the erase granule at `address`, with
/// the pages of the layout that fall inside it, sorted by ascending address.
#[derive(Debug)]
pub struct FlashSector {
    pub address: u32,
    pub size: u32,
    pub page_size: u32,
    pub pages: Vec<FlashPage>,
}

/// Index at which a page at `address` is inserted: the first position whose
/// page starts beyond `address` (a page with the same address stays in
/// front).
pub open spec fn page_insert_pos(pages: Seq<FlashPage>, address: u32) -> int
    decreases pages.len(),
{
    if pages.len() == 0 {
        0
    } else if pages[0].address > address {
        0
    } else {
        1 + page_insert_pos(pages.drop_first(), address)
    }
}

/// `page_insert_pos` is the first index whose page starts beyond the new
/// address; `probe` is any index below which all pages start at or before
/// it.
proof fn lemma_page_insert_pos_properties(pages: Seq<FlashPage>, address: u32, probe: int)
    requires
        0 <= probe <= pages.len(),
        forall|j: int| 0 <= j < probe ==> (#[trigger] pages[j]).address <= address,
        probe < pages.len() ==> pages[probe].address > address,
    ensures
        page_insert_pos(pages, address) == probe,
    decreases pages.len(),
{
    if pages.len() > 0 {
        if probe == 0 {
        } else {
            lemma_page_insert_pos_properties(pages.drop_first(), address, probe - 1);
        }
    }
}

impl FlashSector {
    /// One past the last address of the sector.
    pub open spec fn end(self) -> int {
        self.address + self.size
    }

    /// Creates a new empty flash sector from a `SectorInfo`.
    pub fn new(sector_info: &SectorInfo) -> (r: Self)
        ensures
            r.address == sector_info.base_address,
            r.size == sector_info.size,
            r.page_size == sector_info.page_size,
            r.pages@.len() == 0,
    {
        Self {
            address: sector_info.base_address,
            size: sector_info.size,
            page_size: sector_info.page_size,
            pages: Vec::new(),
        }
    }

    /// Adds a new `FlashPage` to the `FlashSector`, keeping the pages sorted
    /// by address.
    ///
    /// The page is rejected if its size does not match the sector's page
    /// size, or if the sector already holds as many pages as fit into it.
    pub fn add_page(&mut self, page: FlashPage) -> (r: Result<(), FlashError>)
        requires
            0 < old(self).page_size,
        ensures
            final(self).address == old(self).address,
            final(self).size == old(self).size,
            final(self).page_size == old(self).page_size,
            match r {
                Ok(()) => {
                    &&& old(self).page_size == page.size
                    &&& old(self).pages@.len() < old(self).size as int / old(self).page_size as int
                    &&& final(self).pages@ == old(self).pages@.insert(
                        page_insert_pos(old(self).pages@, page.address),
                        page,
                    )
                },
                Err(e) => {
                    &&& e == FlashError::FlashBuilder
                    &&& final(self).pages@ == old(self).pages@
                    &&& !(old(self).page_size == page.size && old(self).pages@.len() < old(
                        self,
                    ).size as int / old(self).page_size as int)
                },
            },
    {
        // If the pages do not align nicely within the sector, reject.
        if self.page_size != page.size {
            return Err(FlashError::FlashBuilder);
        }
        // Determine the maximal amount of pages in the sector.
        let max_page_count = (self.size / page.size) as usize;
        // Make sure the sector's maximum capacity is not yet reached.
        if self.pages.len() < max_page_count {
            // Insert the page at its sorted position.
            let n = self.pages.len();
            let mut i: usize = 0;
            while i < n && self.pages[i].address <= page.address
                invariant
                    n == self.pages@.len(),
                    0 <= i <= n,
                    forall|j: int| 0 <= j < i ==> (#[trigger] self.pages@[j]).address <= page.address,
                decreases n - i,
            {
                i += 1;
            }
            proof {
                lemma_page_insert_pos_properties(self.pages@, page.address, i as int);
            }
            self.pages.insert(i, page);
            Ok(())
        } else {
            Err(FlashError::FlashBuilder)
        }
    }
}

/// Collects flash write requests and computes erase / program plans from
/// them.
#[derive(Debug)]
pub struct FlashBuilder {
    /// Buffered writes, kept sorted by ascending address.
    pub flash_write_data: Vec<FlashWriteData>,
    /// Total number of buffered data bytes.
    pub buffered_data_size: usize,
    /// Whether `program` may use the double-buffered program loop.
    pub enable_double_buffering: bool,
}

impl FlashBuilder {
    /// The builder invariant: writes sorted, disjoint, and the byte count in
    /// `buffered_data_size` matches the buffered writes.
    pub open spec fn wf(self) -> bool {
        &&& writes_wf(self.flash_write_data@)
        &&& self.buffered_data_size == sum_write_lens(self.flash_write_data@)
    }

    /// Creates a new `FlashBuilder` with empty data.
    pub fn new() -> (r: Self)
        ensures
            r.wf(),
            r.flash_write_data@.len() == 0,
            r.buffered_data_size == 0,
            !r.enable_double_buffering,
    {
        Self { flash_write_data: Vec::new(), buffered_data_size: 0, enable_double_buffering: false }
    }

    /// Opts in or out of the double-buffered program loop.
    pub fn set_double_buffering(&mut self, enabled: bool)
        ensures
            *final(self) == (FlashBuilder { enable_double_buffering: enabled, ..*old(self) }),
    {
        self.enable_double_buffering = enabled;
    }

    /// Add a block of data to be programmed.
    ///
    /// Programming does not start until a plan computed by `program` is
    /// executed. The write is inserted in address order; a write whose
    /// address equals an existing one, or which overlaps an existing one, is
    /// rejected and leaves the builder unchanged.
    #[verifier::spinoff_prover]
    #[verifier::rlimit(100)]
    pub fn add_data(&mut self, address: u32, data: &[u8]) -> (r: Result<(), FlashError>)
        requires
            old(self).wf(),
            address + data@.len() <= u32::MAX + 1,
            old(self).buffered_data_size + data@.len() <= usize::MAX,
        ensures
            final(self).wf(),
            match r {
                Ok(()) => {
                    let k = write_insert_pos(old(self).flash_write_data@, address);
                    &&& can_insert(old(self).flash_write_data@, address, data@.len() as int)
                    &&& final(self).flash_write_data@.len() == old(self).flash_write_data@.len()
                        + 1
                    &&& forall|j: int|
                        0 <= j < k ==> final(self).flash_write_data@[j]
                            == old(self).flash_write_data@[j]
                    &&& final(self).flash_write_data@[k].address == address
                    &&& final(self).flash_write_data@[k].data@ == data@
                    &&& forall|j: int|
                        k < j < final(self).flash_write_data@.len()
                            ==> final(self).flash_write_data@[j]
                            == old(self).flash_write_data@[j - 1]
                    &&& final(self).buffered_data_size == old(self).buffered_data_size
                        + data@.len()
                    &&& final(self).enable_double_buffering == old(self).enable_double_buffering
                },
                Err(e) => {
                    &&& e == FlashError::FlashBuilder
                    &&& !can_insert(old(self).flash_write_data@, address, data@.len() as int)
                    &&& *final(self) == *old(self)
                },
            },
    {
        let ghost ws = self.flash_write_data@;
        proof {
            lemma_writes_pairwise_disjoint(ws);
        }
        let n = self.flash_write_data.len();
        let mut i: usize = 0;
        while i < n && self.flash_write_data[i].address < address
            invariant
                n == self.flash_write_data@.len(),
                0 <= i <= n,
                ws == self.flash_write_data@,
                forall|j: int| 0 <= j < i ==> (#[trigger] ws[j]).address < address,
            decreases n - i,
        {
            i += 1;
        }
        proof {
            lemma_write_insert_pos_properties(ws, address, i as int);
        }
        if i < n && self.flash_write_data[i].address == address {
            // A write already starts at this address.
            return Err(FlashError::FlashBuilder);
        }
        if i > 0 {
            let prev_address = self.flash_write_data[i - 1].address;
            let prev_len = self.flash_write_data[i - 1].data.len();
            if prev_address as u64 + prev_len as u64 > address as u64 {
                // The new write begins inside the previous one.
                return Err(FlashError::FlashBuilder);
            }
        }
        if i < n {
            let next_address = self.flash_write_data[i].address;
            if address as u64 + data.len() as u64 > next_address as u64 {
                // The new write runs into the next one.
                return Err(FlashError::FlashBuilder);
            }
        }
        proof {
            lemma_can_insert_from_neighbors(ws, address, data@.len() as int, i as int);
        }
        let new_write = FlashWriteData::new(address, vstd::slice::slice_to_vec(data));
        let ghost gw = new_write;
        self.flash_write_data.insert(i, new_write);
        self.buffered_data_size += data.len();
        proof {
            lemma_sum_write_lens_insert_one(ws, i as int, gw);
            lemma_insert_preserves_writes_wf(ws, i as int, gw);
            assert(self.flash_write_data@ == ws.insert(i as int, gw));
        }
        Ok(())
    }

    /// Lays out the buffered writes over the flash geometry: walks the
    /// writes in address order, opening a sector whenever the address
    /// leaves the current one, opening a page whenever it leaves the
    /// current one, and copying write bytes into the current page. Gaps
    /// inside touched pages are filled with the erased byte value; when
    /// `restore_unwritten_bytes` is set, a [`ReadRequest`] is recorded for
    /// each filled gap so the caller can replace the fill with the bytes
    /// read back from the device (see [`FlashLayout::apply_read_data`]).
    ///
    /// Every page of the result is filled to its full size, holds the write
    /// bytes at their exact addresses and the erased value everywhere else,
    /// and every buffered byte is placed. Fails with `AddressNotInRegion`
    /// on the lowest written address that the region does not contain.
    #[verifier::rlimit(100)]
    pub fn build_sectors_and_pages(
        &self,
        region: &FlashRegion,
        restore_unwritten_bytes: bool,
    ) -> (r: Result<FlashLayout, FlashError>)
        requires
            self.wf(),
            region.wf(),
        ensures
            match r {
                Ok(layout) => {
                    &&& sectors_wf(layout.sectors@, *region)
                    &&& forall|si: int|
                        0 <= si < layout.sectors@.len() ==> (
                        #[trigger] layout.sectors@[si]).pages@.len() >= 1
                    &&& pages_filled(layout.sectors@)
                    &&& sectors_content_ok(layout.sectors@, self.flash_write_data@, *region)
                    &&& layout_complete(layout.sectors@, self.flash_write_data@)
                    &&& forall|a: int|
                        #[trigger] covered(self.flash_write_data@, a) ==> region.spec_contains_int(
                            a,
                        )
                    &&& !restore_unwritten_bytes ==> layout.read_requests@.len() == 0
                    &&& requests_ordered(layout.read_requests@)
                    &&& requests_wf(
                        layout.read_requests@,
                        layout.sectors@,
                        self.flash_write_data@,
                    )
                    &&& restore_unwritten_bytes ==> requests_complete(
                        layout.read_requests@,
                        layout.sectors@,
                        self.flash_write_data@,
                    )
                },
                Err(e) => match e {
                    FlashError::AddressNotInRegion { address, region: r2 } => {
                        &&& r2 == *region
                        &&& covered(self.flash_write_data@, address as int)
                        &&& !region.spec_contains_int(address as int)
                        &&& forall|b: int|
                            #[trigger] covered(self.flash_write_data@, b) && b < address
                                ==> region.spec_contains_int(b)
                    },
                    FlashError::FlashBuilder => false,
                },
            },
    {
        let ghost ws = self.flash_write_data@;
        let ghost reg = *region;
        proof {
            lemma_writes_pairwise_disjoint(ws);
        }
        let mut sectors: Vec<FlashSector> = Vec::new();
        let mut read_requests: Vec<ReadRequest> = Vec::new();
        let n = self.flash_write_data.len();
        let mut wi: usize = 0;
        while wi < n
            invariant
                self.wf(),
                region.wf(),
                reg == *region,
                ws == self.flash_write_data@,
                n == ws.len(),
                0 <= wi <= n,
                layout_inv(
                    sectors@,
                    read_requests@,
                    ws,
                    reg,
                    if wi < n {
                        ws[wi as int].address as int
                    } else {
                        u32::MAX + 1
                    },
                    wi as int,
                    restore_unwritten_bytes,
                ),
            decreases n - wi,
        {
            let op_address = self.flash_write_data[wi].address;
            let op_len = self.flash_write_data[wi].data.len();
            let mut pos: usize = 0;
            while pos < op_len
                invariant
                    self.wf(),
                    region.wf(),
                    reg == *region,
                    ws == self.flash_write_data@,
                    n == ws.len(),
                    0 <= wi < n,
                    op_address == ws[wi as int].address,
                    op_len == ws[wi as int].data@.len(),
                    0 <= pos <= op_len,
                    layout_inv(
                        sectors@,
                        read_requests@,
                        ws,
                        reg,
                        op_address + pos,
                        wi as int,
                        restore_unwritten_bytes,
                    ),
                    pos > 0 ==> layout_data_end(sectors@) == op_address + pos,
                decreases op_len - pos,
            {
                proof {
                    lemma_writes_pairwise_disjoint(ws);
                }
                let addr: u32 = op_address + pos as u32;
                assert(covers(ws[wi as int], addr as int));
                // Open a new sector if the address lies beyond the current one.
                let mut need_new_sector = true;
                if sectors.len() > 0 {
                    let sl: usize = sectors.len() - 1;
                    let last_end: u32 = sectors[sl].address + sectors[sl].size;
                    if addr < last_end {
                        need_new_sector = false;
                    }
                }
                if need_new_sector {
                    if sectors.len() > 0 {
                        proof {
                            assert(page_in_sector(
                                sectors@.last().pages@.last(),
                                sectors@.last(),
                                reg,
                            ));
                        }
                        close_out_last_page(
                            &mut sectors,
                            &mut read_requests,
                            region,
                            restore_unwritten_bytes,
                            Ghost(ws),
                            Ghost(addr as int),
                            Ghost(wi as int),
                        );
                    }
                    let res = open_sector(
                        &mut sectors,
                        region,
                        addr,
                        Ghost(read_requests@),
                        Ghost(ws),
                        Ghost(wi as int),
                        Ghost(restore_unwritten_bytes),
                    );
                    match res {
                        Ok(()) => {},
                        Err(e) => {
                            return Err(e);
                        },
                    }
                }
                // Open a new page if the address lies beyond the current one.
                let si_idx: usize = sectors.len() - 1;
                let mut need_new_page = true;
                let plen = sectors[si_idx].pages.len();
                if plen > 0 {
                    let lp: usize = plen - 1;
                    let p_end: u32 = sectors[si_idx].pages[lp].address
                        + sectors[si_idx].pages[lp].size;
                    if addr < p_end {
                        need_new_page = false;
                    }
                }
                proof {
                    if sectors@.last().pages@.len() > 0 {
                        assert(page_in_sector(
                            sectors@.last().pages@.last(),
                            sectors@.last(),
                            reg,
                        ));
                        assert(layout_data_end(sectors@)
                            == sectors@.last().pages@.last().data_end());
                    }
                }
                if need_new_page {
                    if plen > 0 {
                        close_out_last_page(
                            &mut sectors,
                            &mut read_requests,
                            region,
                            restore_unwritten_bytes,
                            Ghost(ws),
                            Ghost(addr as int),
                            Ghost(wi as int),
                        );
                    }
                    open_page(
                        &mut sectors,
                        region,
                        addr,
                        Ghost(read_requests@),
                        Ghost(ws),
                        Ghost(wi as int),
                        Ghost(restore_unwritten_bytes),
                    );
                }
                proof {
                    if sectors@.last().pages@.len() > 0 {
                        assert(page_in_sector(
                            sectors@.last().pages@.last(),
                            sectors@.last(),
                            reg,
                        ));
                        assert(layout_data_end(sectors@)
                            == sectors@.last().pages@.last().data_end());
                    }
                }
                let amount = copy_chunk(
                    &mut sectors,
                    &mut read_requests,
                    region,
                    &self.flash_write_data[wi].data,
                    pos,
                    addr,
                    restore_unwritten_bytes,
                    Ghost(ws),
                    Ghost(wi as int),
                );
                pos = pos + amount;
            }
            wi = wi + 1;
            proof {
                lemma_writes_pairwise_disjoint(ws);
                let newcur: int = if wi < n {
                    ws[wi as int].address as int
                } else {
                    u32::MAX + 1
                };
                let oldcur: int = op_address + op_len;
                if op_len > 0 {
                    assert(layout_data_end(sectors@) == oldcur);
                }
                assert(wi - 1 < n - 1 ==> write_end(ws[wi - 1]) <= ws[wi as int].address);
                assert forall|a: int| #[trigger] covered(ws, a) && a < newcur implies a
                    < oldcur by {
                    if a >= oldcur {
                        let j = choose|j: int| 0 <= j < ws.len() && covers(#[trigger] ws[j], a);
                        if j < wi - 1 {
                            assert(write_end(ws[j]) <= ws[wi - 1].address);
                        } else if j == wi - 1 {
                            assert(write_end(ws[j]) == oldcur);
                        } else {
                            assert(wi < n);
                            if wi < j {
                                assert(ws[wi as int].address < ws[j].address);
                            }
                            assert(newcur <= ws[j].address);
                        }
                        assert(false);
                    }
                }
            }
        }
        // Fill the trailing gap of the very last page, if any.
        if sectors.len() > 0 {
            proof {
                assert(page_in_sector(sectors@.last().pages@.last(), sectors@.last(), reg));
            }
            close_out_last_page(
                &mut sectors,
                &mut read_requests,
                region,
                restore_unwritten_bytes,
                Ghost(ws),
                Ghost(u32::MAX + 1),
                Ghost(n as int),
            );
        }
        proof {
            assert forall|a: int| #[trigger] covered(ws, a) implies layout_contains_addr(
                sectors@,
                a,
            ) && reg.spec_contains_int(a) by {
                assert(a < u32::MAX + 1) by {
                    let j = choose|j: int| 0 <= j < ws.len() && covers(#[trigger] ws[j], a);
                    assert(write_end(ws[j]) <= u32::MAX + 1);
                }
            }
        }
        Ok(FlashLayout { sectors, read_requests })
    }
}

/// A read of `length` bytes at `address` that the caller must perform on
/// the device to restore unwritten bytes: the result replaces the bytes of
/// page `page_index` of sector `sector_index`, starting at `data_offset`.
#[derive(Clone, Copy, Debug, PartialEq, Eq, Structural)]
pub struct ReadRequest {
    pub sector_index: usize,
    pub page_index: usize,
    pub data_offset: usize,
    pub address: u32,
    pub length: usize,
}

/// The computed flash layout: sectors with their pages, plus the device
/// reads still needed when unwritten bytes are to be restored.
#[derive(Debug)]
pub struct FlashLayout {
    pub sectors: Vec<FlashSector>,
    pub read_requests: Vec<ReadRequest>,
}

/// A page lies inside its sector, matches the region's page size and
/// alignment, and its data fits.
pub open spec fn page_in_sector(p: FlashPage, s: FlashSector, region: FlashRegion) -> bool {
    &&& p.size == region.page_size
    &&& s.address <= p.address
    &&& p.end() <= s.end()
    &&& (p.address as int) % (region.page_size as int) == 0
    &&& p.data@.len() <= p.size
}

/// A sector of the layout matches the region geometry and holds sorted,
/// disjoint, page-aligned pages.
pub open spec fn sector_wf(s: FlashSector, region: FlashRegion) -> bool {
    &&& s.size == region.sector_size
    &&& s.page_size == region.page_size
    &&& region.range_start <= s.address
    &&& s.end() <= region.range_end
    &&& (s.address as int) % (region.sector_size as int) == 0
    &&& forall|i: int| 0 <= i < s.pages@.len() ==> page_in_sector(#[trigger] s.pages@[i], s, region)
    &&& forall|i: int|
        0 <= i < s.pages@.len() ==> (#[trigger] s.pages@[i]).address >= s.address + i
            * region.page_size
    &&& forall|i: int, j: int|
        0 <= i < j < s.pages@.len() ==> (#[trigger] s.pages@[i]).address + region.page_size <= (
        #[trigger] s.pages@[j]).address
}

/// The sectors of a layout are well formed, sorted and disjoint.
pub open spec fn sectors_wf(sectors: Seq<FlashSector>, region: FlashRegion) -> bool {
    &&& forall|i: int| 0 <= i < sectors.len() ==> sector_wf(#[trigger] sectors[i], region)
    &&& forall|i: int, j: int|
        0 <= i < j < sectors.len() ==> (#[trigger] sectors[i]).end() <= (
        #[trigger] sectors[j]).address
}

/// Every byte stored in a page is the byte of the write covering its
/// address, or the erased value where no write covers it.
pub open spec fn page_content_ok(p: FlashPage, ws: Seq<FlashWriteData>, region: FlashRegion) -> bool {
    forall|k: int|
        0 <= k < p.data@.len() ==> (#[trigger] p.data@[k]) == (if covered(ws, p.address + k) {
            written_byte(ws, p.address + k)
        } else {
            region.erased_byte_value
        })
}

/// Content correctness of every page of the layout.
pub open spec fn sectors_content_ok(
    sectors: Seq<FlashSector>,
    ws: Seq<FlashWriteData>,
    region: FlashRegion,
) -> bool {
    forall|si: int, pi: int|
        0 <= si < sectors.len() && 0 <= pi < sectors[si].pages@.len() ==> page_content_ok(
            #[trigger] sectors[si].pages@[pi],
            ws,
            region,
        )
}

/// Some page of the layout stores the byte at address `a`.
pub open spec fn layout_contains_addr(sectors: Seq<FlashSector>, a: int) -> bool {
    exists|si: int, pi: int|
        0 <= si < sectors.len() && 0 <= pi < sectors[si].pages@.len() && (
        #[trigger] sectors[si].pages@[pi]).address <= a < sectors[si].pages@[pi].data_end()
}

/// Every address written by some write is stored in the layout.
pub open spec fn layout_complete(sectors: Seq<FlashSector>, ws: Seq<FlashWriteData>) -> bool {
    forall|a: int| #[trigger] covered(ws, a) ==> layout_contains_addr(sectors, a)
}

/// All pages of the layout are filled to their full size.
pub open spec fn pages_filled(sectors: Seq<FlashSector>) -> bool {
    forall|si: int, pi: int|
        0 <= si < sectors.len() && 0 <= pi < sectors[si].pages@.len() ==> (
        #[trigger] sectors[si].pages@[pi]).data@.len() == sectors[si].pages@[pi].size
}

/// A read request points at a real page range, reads the matching device
/// addresses, and covers only bytes no write provides.
pub open spec fn request_wf(
    r: ReadRequest,
    sectors: Seq<FlashSector>,
    ws: Seq<FlashWriteData>,
) -> bool {
    &&& r.sector_index < sectors.len()
    &&& r.page_index < sectors[r.sector_index as int].pages@.len()
    &&& r.data_offset + r.length <= sectors[r.sector_index as int].pages@[r.page_index as int].data@.len()
    &&& r.address == sectors[r.sector_index as int].pages@[r.page_index as int].address
        + r.data_offset
    &&& forall|t: int| 0 <= t < r.length ==> !covered(ws, #[trigger] (r.address + t))
}

/// All read requests of a layout are well formed.
pub open spec fn requests_wf(
    rr: Seq<ReadRequest>,
    sectors: Seq<FlashSector>,
    ws: Seq<FlashWriteData>,
) -> bool {
    forall|i: int| 0 <= i < rr.len() ==> request_wf(#[trigger] rr[i], sectors, ws)
}

/// No write provides the byte at offset `k` of page `pi` of sector `si`.
pub open spec fn page_byte_unwritten(
    ws: Seq<FlashWriteData>,
    sectors: Seq<FlashSector>,
    si: int,
    pi: int,
    k: int,
) -> bool {
    !covered(ws, sectors[si].pages@[pi].address + k)
}

/// Every stored byte that no write provides lies in some read request, so
/// restoring replaces exactly the unwritten bytes.
pub open spec fn requests_complete(
    rr: Seq<ReadRequest>,
    sectors: Seq<FlashSector>,
    ws: Seq<FlashWriteData>,
) -> bool {
    forall|si: int, pi: int, k: int|
        0 <= si < sectors.len() && 0 <= pi < sectors[si].pages@.len() && 0 <= k
            < sectors[si].pages@[pi].data@.len() && #[trigger] page_byte_unwritten(
            ws,
            sectors,
            si,
            pi,
            k,
        ) ==> exists|ri: int|
            0 <= ri < rr.len() && (#[trigger] rr[ri]).sector_index == si && rr[ri].page_index == pi
                && rr[ri].data_offset <= k < rr[ri].data_offset + rr[ri].length
}

/// One past the address of the last byte stored anywhere in the layout
/// (the base address of the last sector while it has no page yet).
pub open spec fn layout_data_end(sectors: Seq<FlashSector>) -> int {
    if sectors.len() == 0 {
        0
    } else if sectors.last().pages@.len() == 0 {
        sectors.last().address as int
    } else {
        sectors.last().pages@.last().data_end()
    }
}

/// All pages of the layout are filled to their full size, except possibly
/// the last page of the last sector, which is still being assembled.
pub open spec fn pages_filled_except_last(sectors: Seq<FlashSector>) -> bool {
    forall|si: int, pi: int|
        0 <= si < sectors.len() && 0 <= pi < sectors[si].pages@.len() && !(si == sectors.len() - 1
            && pi == sectors[si].pages@.len() - 1) ==> (
        #[trigger] sectors[si].pages@[pi]).data@.len() == sectors[si].pages@[pi].size
}

/// Invariant of the layout walk. `cur` is the address the walk has reached:
/// everything below `cur` is final, nothing at or above `cur` is stored yet.
/// `nwrites` is the number of writes fully processed.
pub open spec fn layout_inv(
    sectors: Seq<FlashSector>,
    rr: Seq<ReadRequest>,
    ws: Seq<FlashWriteData>,
    region: FlashRegion,
    cur: int,
    nwrites: int,
    restore: bool,
) -> bool {
    &&& sectors_wf(sectors, region)
    &&& forall|si: int| 0 <= si < sectors.len() ==> (#[trigger] sectors[si]).pages@.len() >= 1
    &&& pages_filled_except_last(sectors)
    &&& sectors_content_ok(sectors, ws, region)
    &&& forall|a: int| #[trigger] covered(ws, a) && a < cur ==> layout_contains_addr(sectors, a)
    &&& forall|a: int| #[trigger] covered(ws, a) && a < cur ==> region.spec_contains_int(a)
    &&& forall|a: int| #[trigger] covered(ws, a) && a < cur ==> a < layout_data_end(sectors)
    &&& layout_data_end(sectors) <= cur
    &&& (!restore ==> rr.len() == 0)
    &&& requests_wf(rr, sectors, ws)
    &&& requests_ordered(rr)
    &&& (restore ==> requests_complete(rr, sectors, ws))
    &&& forall|j: int|
        0 <= j < nwrites ==> (#[trigger] ws[j]).data@.len() == 0 || write_end(ws[j])
            <= layout_data_end(sectors)
}

/// `layout_inv` with every page (including the last) filled to full size.
pub open spec fn layout_inv_closed(
    sectors: Seq<FlashSector>,
    rr: Seq<ReadRequest>,
    ws: Seq<FlashWriteData>,
    region: FlashRegion,
    cur: int,
    nwrites: int,
    restore: bool,
) -> bool {
    &&& layout_inv(sectors, rr, ws, region, cur, nwrites, restore)
    &&& pages_filled(sectors)
}

/// `layout_inv` right after a fresh sector was opened: the last sector has
/// no pages yet, everything before it is final.
pub open spec fn layout_inv_open(
    sectors: Seq<FlashSector>,
    rr: Seq<ReadRequest>,
    ws: Seq<FlashWriteData>,
    region: FlashRegion,
    cur: int,
    nwrites: int,
    restore: bool,
) -> bool {
    &&& sectors_wf(sectors, region)
    &&& sectors.len() > 0
    &&& sectors.last().pages@.len() == 0
    &&& forall|si: int| 0 <= si < sectors.len() - 1 ==> (#[trigger] sectors[si]).pages@.len() >= 1
    &&& pages_filled(sectors)
    &&& sectors_content_ok(sectors, ws, region)
    &&& forall|a: int| #[trigger] covered(ws, a) && a < cur ==> layout_contains_addr(sectors, a)
    &&& forall|a: int| #[trigger] covered(ws, a) && a < cur ==> region.spec_contains_int(a)
    &&& forall|a: int| #[trigger] covered(ws, a) && a < cur ==> a < layout_data_end(sectors)
    &&& layout_data_end(sectors) <= cur
    &&& (!restore ==> rr.len() == 0)
    &&& requests_wf(rr, sectors, ws)
    &&& requests_ordered(rr)
    &&& (restore ==> requests_complete(rr, sectors, ws))
    &&& forall|j: int|
        0 <= j < nwrites ==> (#[trigger] ws[j]).data@.len() == 0 || write_end(ws[j])
            <= layout_data_end(sectors)
}

/// Closing out the last page (filling its tail with the erased value, and
/// recording the read request when restoring) preserves the layout
/// invariant and leaves every page full.
#[verifier::rlimit(100)]
proof fn lemma_layout_after_closeout(
    pre: Seq<FlashSector>,
    post: Seq<FlashSector>,
    pre_rr: Seq<ReadRequest>,
    post_rr: Seq<ReadRequest>,
    ws: Seq<FlashWriteData>,
    reg: FlashRegion,
    cur: int,
    nw: int,
    restore: bool,
)
    requires
        layout_inv(pre, pre_rr, ws, reg, cur, nw, restore),
        pre.len() <= usize::MAX,
        pre.last().pages@.len() <= usize::MAX,
        pre.len() > 0,
        pre.last().pages@.len() > 0,
        post.len() == pre.len(),
        forall|si: int| 0 <= si < pre.len() - 1 ==> post[si] == pre[si],
        post.last().address == pre.last().address,
        post.last().size == pre.last().size,
        post.last().page_size == pre.last().page_size,
        post.last().pages@.len() == pre.last().pages@.len(),
        forall|pi: int|
            0 <= pi < pre.last().pages@.len() - 1 ==> post.last().pages@[pi]
                == pre.last().pages@[pi],
        ({
            let op = pre.last().pages@.last();
            let np = post.last().pages@.last();
            &&& np.address == op.address
            &&& np.size == op.size
            &&& np.data@.len() == op.size
            &&& forall|k: int| 0 <= k < op.data@.len() ==> np.data@[k] == op.data@[k]
            &&& forall|k: int|
                op.data@.len() <= k < op.size ==> np.data@[k] == reg.erased_byte_value
        }),
        pre.last().pages@.last().end() <= cur,
        ({
            let op = pre.last().pages@.last();
            if restore && op.data@.len() < op.size {
                post_rr == pre_rr.push(
                    (ReadRequest {
                        sector_index: (pre.len() - 1) as usize,
                        page_index: (pre.last().pages@.len() - 1) as usize,
                        data_offset: op.data@.len() as usize,
                        address: (op.address + op.data@.len()) as u32,
                        length: (op.size - op.data@.len()) as usize,
                    }),
                )
            } else {
                post_rr == pre_rr
            }
        }),
    ensures
        layout_inv_closed(post, post_rr, ws, reg, cur, nw, restore),
        layout_data_end(pre) <= layout_data_end(post) <= cur,
{
    let sl = pre.len() - 1;
    let pl = pre.last().pages@.len() - 1;
    let op = pre.last().pages@.last();
    let np = post.last().pages@.last();
    assert(page_in_sector(op, pre.last(), reg));
    assert(layout_data_end(pre) == op.data_end());
    assert(layout_data_end(post) == np.data_end());
    // The filled tail lies between the old data end and `cur`, so no write
    // covers it.
    assert forall|k: int| op.data@.len() <= k < op.size implies !(#[trigger] covered(
        ws,
        op.address + k,
    )) by {
        if covered(ws, op.address + k) {
            assert(op.address + k < cur);
            assert(op.address + k < layout_data_end(pre));
        }
    }
    // Structural invariants.
    assert(sectors_wf(post, reg)) by {
        assert forall|i: int| 0 <= i < post.len() implies sector_wf(#[trigger] post[i], reg) by {
            if i < sl {
                assert(post[i] == pre[i]);
                assert(sector_wf(pre[i], reg));
            } else {
                assert(sector_wf(pre[sl], reg));
                assert forall|pi: int| 0 <= pi < post[i].pages@.len() implies page_in_sector(
                    #[trigger] post[i].pages@[pi],
                    post[i],
                    reg,
                ) by {
                    if pi < pl {
                        assert(post[i].pages@[pi] == pre[sl].pages@[pi]);
                        assert(page_in_sector(pre[sl].pages@[pi], pre[sl], reg));
                    } else {
                        assert(page_in_sector(op, pre[sl], reg));
                    }
                }
                assert forall|pi: int| 0 <= pi < post[i].pages@.len() implies (
                #[trigger] post[i].pages@[pi]).address >= post[i].address + pi
                    * reg.page_size by {
                    if pi < pl {
                        assert(post[i].pages@[pi] == pre[sl].pages@[pi]);
                        assert(pre[sl].pages@[pi].address >= pre[sl].address + pi * reg.page_size);
                    } else {
                        assert(op.address >= pre[sl].address + pl * reg.page_size);
                    }
                }
                assert forall|pi: int, pj: int| 0 <= pi < pj < post[i].pages@.len() implies (
                #[trigger] post[i].pages@[pi]).address + reg.page_size <= (
                #[trigger] post[i].pages@[pj]).address by {
                    let a = if pi < pl {
                        pre[sl].pages@[pi]
                    } else {
                        op
                    };
                    let b = if pj < pl {
                        pre[sl].pages@[pj]
                    } else {
                        op
                    };
                    assert(pre[sl].pages@[pi].address + reg.page_size <= pre[sl].pages@[pj].address);
                }
            }
        }
        assert forall|i: int, j: int| 0 <= i < j < post.len() implies (
        #[trigger] post[i]).end() <= (#[trigger] post[j]).address by {
            assert(pre[i].end() <= pre[j].address);
        }
    }
    // Contents: old bytes kept, tail bytes erased on uncovered addresses.
    assert(sectors_content_ok(post, ws, reg)) by {
        assert forall|si: int, pi: int|
            0 <= si < post.len() && 0 <= pi < post[si].pages@.len() implies page_content_ok(
            #[trigger] post[si].pages@[pi],
            ws,
            reg,
        ) by {
            if si < sl || pi < pl {
                assert(post[si].pages@[pi] == pre[si].pages@[pi]);
                assert(page_content_ok(pre[si].pages@[pi], ws, reg));
            } else {
                assert(page_content_ok(op, ws, reg));
                assert forall|k: int| 0 <= k < np.data@.len() implies (#[trigger] np.data@[k]) == (
                    if covered(ws, np.address + k) {
                        written_byte(ws, np.address + k)
                    } else {
                        reg.erased_byte_value
                    }) by {
                    if k < op.data@.len() {
                        assert(np.data@[k] == op.data@[k]);
                    } else {
                        assert(!covered(ws, op.address + k));
                    }
                }
            }
        }
    }
    // Placement facts carry over since pages only grew.
    assert forall|a: int| #[trigger] covered(ws, a) && a < cur implies layout_contains_addr(
        post,
        a,
    ) by {
        assert(layout_contains_addr(pre, a));
        let (si, pi) = choose|si: int, pi: int|
            0 <= si < pre.len() && 0 <= pi < pre[si].pages@.len() && (
            #[trigger] pre[si].pages@[pi]).address <= a < pre[si].pages@[pi].data_end();
        if si < sl || pi < pl {
            assert(post[si].pages@[pi] == pre[si].pages@[pi]);
        } else {
            assert(post[si].pages@[pi].address <= a < post[si].pages@[pi].data_end());
        }
    }
    // Read requests.
    assert(requests_ordered(post_rr)) by {
        assert forall|ri: int, rj: int|
            0 <= ri < rj < post_rr.len() && (#[trigger] post_rr[ri]).sector_index == (
            #[trigger] post_rr[rj]).sector_index && post_rr[ri].page_index
                == post_rr[rj].page_index implies post_rr[ri].data_offset + post_rr[ri].length
            <= post_rr[rj].data_offset by {
            if rj < pre_rr.len() {
                assert(post_rr[ri] == pre_rr[ri] && post_rr[rj] == pre_rr[rj]);
            } else {
                assert(post_rr[ri] == pre_rr[ri]);
                assert(request_wf(pre_rr[ri], pre, ws));
                assert(pre_rr[ri].data_offset + pre_rr[ri].length
                    <= pre[sl].pages@[pl].data@.len());
            }
        }
    }
    assert(requests_wf(post_rr, post, ws)) by {
        assert forall|i: int| 0 <= i < post_rr.len() implies request_wf(
            #[trigger] post_rr[i],
            post,
            ws,
        ) by {
            if i < pre_rr.len() {
                assert(post_rr[i] == pre_rr[i]);
                assert(request_wf(pre_rr[i], pre, ws));
                let r = pre_rr[i];
                if r.sector_index as int == sl && r.page_index as int == pl {
                    assert(post[sl].pages@[pl].data@.len() >= pre[sl].pages@[pl].data@.len());
                } else if r.sector_index as int == sl {
                    assert(post[sl].pages@[r.page_index as int] == pre[sl].pages@[r.page_index as int]);
                } else {
                    assert(post[r.sector_index as int] == pre[r.sector_index as int]);
                }
            } else {
                // the new request
                assert(restore && op.data@.len() < op.size);
                let r = post_rr[i];
                assert(r == post_rr.last());
                assert(op.address + op.size <= u32::MAX + 1);
                assert(r.address == op.address + op.data@.len());
                assert(r.data_offset + r.length <= post[sl].pages@[pl].data@.len());
                assert forall|t: int| 0 <= t < r.length implies !covered(
                    ws,
                    #[trigger] (r.address + t),
                ) by {
                    assert(r.address + t == op.address + (op.data@.len() + t));
                    assert(!covered(ws, op.address + (op.data@.len() + t)));
                }
            }
        }
    }
    if restore {
        assert(requests_complete(post_rr, post, ws)) by {
            assert forall|si: int, pi: int, k: int|
                0 <= si < post.len() && 0 <= pi < post[si].pages@.len() && 0 <= k
                    < post[si].pages@[pi].data@.len() && #[trigger] page_byte_unwritten(
                    ws,
                    post,
                    si,
                    pi,
                    k,
                ) implies exists|ri: int|
                0 <= ri < post_rr.len() && (#[trigger] post_rr[ri]).sector_index == si
                    && post_rr[ri].page_index == pi && post_rr[ri].data_offset <= k
                    < post_rr[ri].data_offset + post_rr[ri].length by {
                if si < sl || pi < pl {
                    assert(post[si].pages@[pi] == pre[si].pages@[pi]);
                    let b = pre[si].pages@[pi].data@[k];
                    assert(0 <= k < pre[si].pages@[pi].data@.len());
                    assert(!covered(ws, pre[si].pages@[pi].address + k));
                    assert(page_byte_unwritten(ws, pre, si, pi, k));
                    let ri = choose|ri: int|
                        0 <= ri < pre_rr.len() && (#[trigger] pre_rr[ri]).sector_index == si
                            && pre_rr[ri].page_index == pi && pre_rr[ri].data_offset <= k
                            < pre_rr[ri].data_offset + pre_rr[ri].length;
                    assert(post_rr[ri] == pre_rr[ri]);
                } else {
                    if k < op.data@.len() {
                        let b = pre[si].pages@[pi].data@[k];
                        assert(0 <= k < pre[si].pages@[pi].data@.len());
                        assert(!covered(ws, pre[si].pages@[pi].address + k));
                    assert(page_byte_unwritten(ws, pre, si, pi, k));
                        let ri = choose|ri: int|
                            0 <= ri < pre_rr.len() && (#[trigger] pre_rr[ri]).sector_index == si
                                && pre_rr[ri].page_index == pi && pre_rr[ri].data_offset <= k
                                < pre_rr[ri].data_offset + pre_rr[ri].length;
                        assert(post_rr[ri] == pre_rr[ri]);
                    } else {
                        assert(op.data@.len() < op.size);
                        let ri = post_rr.len() - 1;
                        assert(post_rr[ri].sector_index == si && post_rr[ri].page_index == pi
                            && post_rr[ri].data_offset <= k < post_rr[ri].data_offset
                            + post_rr[ri].length);
                    }
                }
            }
        }
    }
}
/// Opening a fresh sector beyond all existing ones preserves the layout
/// invariant.
#[verifier::rlimit(60)]
proof fn lemma_layout_after_new_sector(
    pre: Seq<FlashSector>,
    post: Seq<FlashSector>,
    rr: Seq<ReadRequest>,
    ws: Seq<FlashWriteData>,
    reg: FlashRegion,
    cur: int,
    nw: int,
    restore: bool,
)
    requires
        layout_inv_closed(pre, rr, ws, reg, cur, nw, restore),
        post.len() == pre.len() + 1,
        forall|si: int| 0 <= si < pre.len() ==> post[si] == pre[si],
        ({
            let news = post.last();
            &&& news.pages@.len() == 0
            &&& news.size == reg.sector_size
            &&& news.page_size == reg.page_size
            &&& reg.range_start <= news.address
            &&& news.end() <= reg.range_end
            &&& (news.address as int) % (reg.sector_size as int) == 0
            &&& news.address <= cur < news.end()
        }),
        pre.len() > 0 ==> pre.last().end() <= post.last().address,
    ensures
        layout_inv_open(post, rr, ws, reg, cur, nw, restore),
        layout_data_end(post) == post.last().address,
{
    let news = post.last();
    let nl = pre.len() as int;
    assert(layout_data_end(pre) <= news.address) by {
        if pre.len() > 0 {
            if pre.last().pages@.len() > 0 {
                let lp = pre.last().pages@.last();
                assert(page_in_sector(lp, pre.last(), reg));
            }
        }
    }
    assert(sectors_wf(post, reg)) by {
        assert forall|i: int| 0 <= i < post.len() implies sector_wf(#[trigger] post[i], reg) by {
            if i < nl {
                assert(post[i] == pre[i]);
                assert(sector_wf(pre[i], reg));
            }
        }
        assert forall|i: int, j: int| 0 <= i < j < post.len() implies (#[trigger] post[i]).end()
            <= (#[trigger] post[j]).address by {
            if j < nl {
                assert(pre[i].end() <= pre[j].address);
            } else {
                if i < nl - 1 {
                    assert(pre[i].end() <= pre[nl - 1].address);
                }
            }
        }
    }
    assert(sectors_content_ok(post, ws, reg)) by {
        assert forall|si: int, pi: int|
            0 <= si < post.len() && 0 <= pi < post[si].pages@.len() implies page_content_ok(
            #[trigger] post[si].pages@[pi],
            ws,
            reg,
        ) by {
            assert(post[si] == pre[si]);
            assert(page_content_ok(pre[si].pages@[pi], ws, reg));
        }
    }
    assert forall|a: int| #[trigger] covered(ws, a) && a < cur implies layout_contains_addr(
        post,
        a,
    ) by {
        assert(layout_contains_addr(pre, a));
        let (si, pi) = choose|si: int, pi: int|
            0 <= si < pre.len() && 0 <= pi < pre[si].pages@.len() && (
            #[trigger] pre[si].pages@[pi]).address <= a < pre[si].pages@[pi].data_end();
        assert(post[si] == pre[si]);
        assert(0 <= si < post.len() && 0 <= pi < post[si].pages@.len()
            && post[si].pages@[pi].address <= a < post[si].pages@[pi].data_end());
    }
    assert(requests_wf(rr, post, ws)) by {
        assert forall|i: int| 0 <= i < rr.len() implies request_wf(#[trigger] rr[i], post, ws) by {
            assert(request_wf(rr[i], pre, ws));
            assert(post[rr[i].sector_index as int] == pre[rr[i].sector_index as int]);
        }
    }
    if restore {
        assert(requests_complete(rr, post, ws)) by {
            assert forall|si: int, pi: int, k: int|
                0 <= si < post.len() && 0 <= pi < post[si].pages@.len() && 0 <= k
                    < post[si].pages@[pi].data@.len() && #[trigger] page_byte_unwritten(
                    ws,
                    post,
                    si,
                    pi,
                    k,
                ) implies exists|ri: int|
                0 <= ri < rr.len() && (#[trigger] rr[ri]).sector_index == si && rr[ri].page_index
                    == pi && rr[ri].data_offset <= k < rr[ri].data_offset + rr[ri].length by {
                assert(post[si] == pre[si]);
                let b = pre[si].pages@[pi].data@[k];
                assert(0 <= k < pre[si].pages@[pi].data@.len());
                assert(!covered(ws, pre[si].pages@[pi].address + k));
                assert(page_byte_unwritten(ws, pre, si, pi, k));
            }
        }
    }
}

/// A page opened at the page base of `addr` fits the sector containing
/// `addr`: it matches the page size, lies behind every existing page, and
/// the sector still has room for it.
#[verifier::rlimit(60)]
proof fn lemma_new_page_fits(sector: FlashSector, reg: FlashRegion, addr: u32, page: FlashPage)
    requires
        reg.wf(),
        sector_wf(sector, reg),
        sector.address <= addr < sector.end(),
        page.size == reg.page_size,
        page.data@.len() == 0,
        reg.spec_contains(addr),
        page.address == reg.spec_page_base(addr),
        sector.pages@.len() > 0 ==> sector.pages@.last().end() <= addr,
    ensures
        page_in_sector(page, sector, reg),
        sector.pages@.len() < sector.size as int / sector.page_size as int,
        sector.pages@.len() > 0 ==> sector.pages@.last().end() <= page.address,
        page.address >= sector.address + sector.pages@.len() * reg.page_size,
        page_insert_pos(sector.pages@, page.address) == sector.pages@.len(),
        page.address <= addr < page.address + reg.page_size,
{
    let p = reg.page_size as int;
    let s = reg.sector_size as int;
    crate::region::lemma_page_base_bounds(reg, addr);
    crate::region::lemma_sector_base_bounds(reg, addr);
    // The sector of the layout is exactly the sector containing `addr`.
    crate::region::lemma_aligned_base_unique(
        addr as int,
        s,
        reg.spec_sector_base(addr),
        sector.address as int,
    );
    let len = sector.pages@.len() as int;
    if len > 0 {
        let lp = sector.pages@.last();
        assert(page_in_sector(lp, sector, reg));
        assert((lp.end()) % p == 0) by {
            vstd::arithmetic::div_mod::lemma_add_mod_noop(lp.address as int, lp.size as int, p);
            vstd::arithmetic::div_mod::lemma_mod_self_0(p);
            vstd::arithmetic::div_mod::lemma_small_mod(0nat, p as nat);
        }
        crate::region::lemma_aligned_ge(page.address as int, lp.end(), p);
        assert(sector.pages@.last().end() <= page.address);
        assert forall|i: int| 0 <= i < len implies (#[trigger] sector.pages@[i]).address
            < page.address by {
            if i < len - 1 {
                assert(sector.pages@[i].address + reg.page_size <= lp.address);
            }
        }
        assert(lp.address >= sector.address + (len - 1) * p);
        assert(page.address >= sector.address + len * p) by (nonlinear_arith)
            requires
                page.address >= lp.address + p,
                lp.address >= sector.address + (len - 1) * p,
        ;
    } else {
        assert(page.address >= sector.address + len * p);
    }
    // Capacity: `len + 1` pages of size `p` fit into the sector.
    assert(page.address + p <= sector.address + sector.size);
    assert((len + 1) * p <= sector.size) by (nonlinear_arith)
        requires
            page.address >= sector.address + len * p,
            page.address + p <= sector.address + sector.size,
    ;
    assert(len < sector.size as int / p) by {
        vstd::arithmetic::div_mod::lemma_div_multiples_vanish(len + 1, p);
        assert(p * (len + 1) == (len + 1) * p) by (nonlinear_arith);
        vstd::arithmetic::div_mod::lemma_div_is_ordered(p * (len + 1), sector.size as int, p);
    }
    lemma_page_insert_pos_properties(sector.pages@, page.address, len);
}

/// Appending a fresh empty page behind all existing pages of the last
/// sector preserves the layout invariant.
#[verifier::rlimit(60)]
proof fn lemma_layout_after_new_page(
    pre: Seq<FlashSector>,
    post: Seq<FlashSector>,
    rr: Seq<ReadRequest>,
    ws: Seq<FlashWriteData>,
    reg: FlashRegion,
    cur: int,
    nw: int,
    restore: bool,
    page: FlashPage,
)
    requires
        layout_inv_closed(pre, rr, ws, reg, cur, nw, restore) || layout_inv_open(
            pre,
            rr,
            ws,
            reg,
            cur,
            nw,
            restore,
        ),
        pre.len() > 0,
        post.len() == pre.len(),
        forall|si: int| 0 <= si < pre.len() - 1 ==> post[si] == pre[si],
        post.last().address == pre.last().address,
        post.last().size == pre.last().size,
        post.last().page_size == pre.last().page_size,
        post.last().pages@ == pre.last().pages@.push(page),
        page.data@.len() == 0,
        page_in_sector(page, pre.last(), reg),
        page.address >= pre.last().address + pre.last().pages@.len() * reg.page_size,
        pre.last().pages@.len() > 0 ==> pre.last().pages@.last().end() <= page.address,
        page.address <= cur < page.address + reg.page_size,
        layout_data_end(pre) <= page.address,
    ensures
        layout_inv(post, rr, ws, reg, cur, nw, restore),
        layout_data_end(post) == page.address,
        post.last().pages@.last() == page,
{
    let sl = pre.len() - 1;
    let plen = pre.last().pages@.len() as int;
    assert(post.last().pages@.last() == page);
    assert(layout_data_end(post) == page.address);
    assert(sectors_wf(post, reg)) by {
        assert forall|i: int| 0 <= i < post.len() implies sector_wf(#[trigger] post[i], reg) by {
            if i < sl {
                assert(post[i] == pre[i]);
                assert(sector_wf(pre[i], reg));
            } else {
                assert(sector_wf(pre[sl], reg));
                let ps = post[sl];
                assert forall|pi: int| 0 <= pi < ps.pages@.len() implies page_in_sector(
                    #[trigger] ps.pages@[pi],
                    ps,
                    reg,
                ) by {
                    if pi < plen {
                        assert(ps.pages@[pi] == pre[sl].pages@[pi]);
                        assert(page_in_sector(pre[sl].pages@[pi], pre[sl], reg));
                    }
                }
                assert forall|pi: int| 0 <= pi < ps.pages@.len() implies (
                #[trigger] ps.pages@[pi]).address >= ps.address + pi * reg.page_size by {
                    if pi < plen {
                        assert(ps.pages@[pi] == pre[sl].pages@[pi]);
                        assert(pre[sl].pages@[pi].address >= pre[sl].address + pi * reg.page_size);
                    }
                }
                assert forall|pi: int, pj: int| 0 <= pi < pj < ps.pages@.len() implies (
                #[trigger] ps.pages@[pi]).address + reg.page_size <= (
                #[trigger] ps.pages@[pj]).address by {
                    if pj < plen {
                        assert(ps.pages@[pi] == pre[sl].pages@[pi]);
                        assert(ps.pages@[pj] == pre[sl].pages@[pj]);
                        assert(pre[sl].pages@[pi].address + reg.page_size
                            <= pre[sl].pages@[pj].address);
                    } else {
                        let lp = pre[sl].pages@.last();
                        assert(page_in_sector(lp, pre[sl], reg));
                        if pi < plen - 1 {
                            assert(pre[sl].pages@[pi].address + reg.page_size <= lp.address);
                        }
                        assert(lp.end() <= page.address);
                    }
                }
            }
        }
        assert forall|i: int, j: int| 0 <= i < j < post.len() implies (#[trigger] post[i]).end()
            <= (#[trigger] post[j]).address by {
            assert(pre[i].end() <= pre[j].address);
            assert(post[i].address == pre[i].address && post[i].size == pre[i].size);
            assert(post[j].address == pre[j].address);
        }
    }
    assert(sectors_content_ok(post, ws, reg)) by {
        assert forall|si: int, pi: int|
            0 <= si < post.len() && 0 <= pi < post[si].pages@.len() implies page_content_ok(
            #[trigger] post[si].pages@[pi],
            ws,
            reg,
        ) by {
            if si < sl || pi < plen {
                assert(post[si].pages@[pi] == pre[si].pages@[pi]);
                assert(page_content_ok(pre[si].pages@[pi], ws, reg));
            } else {
                assert(post[si].pages@[pi] == page);
            }
        }
    }
    assert forall|a: int| #[trigger] covered(ws, a) && a < cur implies layout_contains_addr(
        post,
        a,
    ) by {
        assert(layout_contains_addr(pre, a));
        let (si, pi) = choose|si: int, pi: int|
            0 <= si < pre.len() && 0 <= pi < pre[si].pages@.len() && (
            #[trigger] pre[si].pages@[pi]).address <= a < pre[si].pages@[pi].data_end();
        if si < sl {
            assert(post[si].pages@[pi] == pre[si].pages@[pi]);
        } else {
            assert(post[sl].pages@[pi] == pre[sl].pages@[pi]);
        }
        assert(0 <= si < post.len() && 0 <= pi < post[si].pages@.len()
            && post[si].pages@[pi].address <= a < post[si].pages@[pi].data_end());
    }
    assert(requests_wf(rr, post, ws)) by {
        assert forall|i: int| 0 <= i < rr.len() implies request_wf(#[trigger] rr[i], post, ws) by {
            assert(request_wf(rr[i], pre, ws));
            let r = rr[i];
            if r.sector_index as int == sl {
                assert(post[sl].pages@[r.page_index as int] == pre[sl].pages@[r.page_index as int]);
            } else {
                assert(post[r.sector_index as int] == pre[r.sector_index as int]);
            }
        }
    }
    if restore {
        assert(requests_complete(rr, post, ws)) by {
            assert forall|si: int, pi: int, k: int|
                0 <= si < post.len() && 0 <= pi < post[si].pages@.len() && 0 <= k
                    < post[si].pages@[pi].data@.len() && #[trigger] page_byte_unwritten(
                    ws,
                    post,
                    si,
                    pi,
                    k,
                ) implies exists|ri: int|
                0 <= ri < rr.len() && (#[trigger] rr[ri]).sector_index == si && rr[ri].page_index
                    == pi && rr[ri].data_offset <= k < rr[ri].data_offset + rr[ri].length by {
                if si < sl || pi < plen {
                    assert(post[si].pages@[pi] == pre[si].pages@[pi]);
                    let b = pre[si].pages@[pi].data@[k];
                    assert(0 <= k < pre[si].pages@[pi].data@.len());
                    assert(!covered(ws, pre[si].pages@[pi].address + k));
                    assert(page_byte_unwritten(ws, pre, si, pi, k));
                }
            }
        }
    }
}

/// Filling the gap of the current page up to the walk position and copying
/// the next chunk of the current write into it preserves the layout
/// invariant and advances the walk by `amount` bytes.
#[verifier::rlimit(100)]
proof fn lemma_layout_after_copy(
    pre: Seq<FlashSector>,
    post: Seq<FlashSector>,
    pre_rr: Seq<ReadRequest>,
    post_rr: Seq<ReadRequest>,
    ws: Seq<FlashWriteData>,
    reg: FlashRegion,
    cur: int,
    wi: int,
    pos: int,
    amount: int,
    restore: bool,
)
    requires
        layout_inv(pre, pre_rr, ws, reg, cur, wi, restore),
        pre.len() <= usize::MAX,
        pre.last().pages@.len() <= usize::MAX,
        pre.len() > 0,
        pre.last().pages@.len() > 0,
        writes_wf(ws),
        0 <= wi < ws.len(),
        ws[wi].address + pos == cur,
        0 <= pos,
        pos + amount <= ws[wi].data@.len(),
        amount >= 1,
        ({
            let op = pre.last().pages@.last();
            let np = post.last().pages@.last();
            let gap_to = cur - op.address;
            &&& op.address <= cur
            &&& cur + amount <= op.end()
            &&& np.address == op.address
            &&& np.size == op.size
            &&& np.data@.len() == gap_to + amount
            &&& forall|k: int| 0 <= k < op.data@.len() ==> np.data@[k] == op.data@[k]
            &&& forall|k: int|
                op.data@.len() <= k < gap_to ==> np.data@[k] == reg.erased_byte_value
            &&& forall|k: int|
                gap_to <= k < gap_to + amount ==> np.data@[k] == ws[wi].data@[pos + (k - gap_to)]
        }),
        post.len() == pre.len(),
        forall|si: int| 0 <= si < pre.len() - 1 ==> post[si] == pre[si],
        post.last().address == pre.last().address,
        post.last().size == pre.last().size,
        post.last().page_size == pre.last().page_size,
        post.last().pages@.len() == pre.last().pages@.len(),
        forall|pi: int|
            0 <= pi < pre.last().pages@.len() - 1 ==> post.last().pages@[pi]
                == pre.last().pages@[pi],
        ({
            let op = pre.last().pages@.last();
            if restore && op.data@.len() < cur - op.address {
                post_rr == pre_rr.push(
                    (ReadRequest {
                        sector_index: (pre.len() - 1) as usize,
                        page_index: (pre.last().pages@.len() - 1) as usize,
                        data_offset: op.data@.len() as usize,
                        address: (op.address + op.data@.len()) as u32,
                        length: (cur - op.address - op.data@.len()) as usize,
                    }),
                )
            } else {
                post_rr == pre_rr
            }
        }),
    ensures
        layout_inv(post, post_rr, ws, reg, cur + amount, wi, restore),
        layout_data_end(post) == cur + amount,
{
    let sl = pre.len() - 1;
    let pl = pre.last().pages@.len() - 1;
    let op = pre.last().pages@.last();
    let np = post.last().pages@.last();
    let gap_to = cur - op.address;
    assert(page_in_sector(op, pre.last(), reg));
    assert(layout_data_end(pre) == op.data_end());
    assert(layout_data_end(post) == np.data_end());
    assert(np.data_end() == cur + amount);
    // The gap bytes lie between the old data end and `cur`: no write covers
    // them.
    assert forall|k: int| op.data@.len() <= k < gap_to implies !(#[trigger] covered(ws, op.address + k)) by {
        if covered(ws, op.address + k) {
            assert(op.address + k < cur);
            assert(op.address + k < layout_data_end(pre));
        }
    }
    // The copied bytes are exactly the bytes of write `wi`.
    assert forall|k: int| gap_to <= k < gap_to + amount implies #[trigger] covered(ws, op.address + k)
        && written_byte(ws, op.address + k) == ws[wi].data@[pos + (k - gap_to)] by {
        assert(covers(ws[wi], op.address + k));
        lemma_covering_unique(ws, wi, op.address + k);
    }
    assert(sectors_wf(post, reg)) by {
        assert forall|i: int| 0 <= i < post.len() implies sector_wf(#[trigger] post[i], reg) by {
            if i < sl {
                assert(post[i] == pre[i]);
                assert(sector_wf(pre[i], reg));
            } else {
                assert(sector_wf(pre[sl], reg));
                let ps = post[sl];
                assert forall|pi: int| 0 <= pi < ps.pages@.len() implies page_in_sector(
                    #[trigger] ps.pages@[pi],
                    ps,
                    reg,
                ) by {
                    if pi < pl {
                        assert(ps.pages@[pi] == pre[sl].pages@[pi]);
                        assert(page_in_sector(pre[sl].pages@[pi], pre[sl], reg));
                    } else {
                        assert(page_in_sector(op, pre[sl], reg));
                        assert(np.data@.len() <= np.size);
                    }
                }
                assert forall|pi: int| 0 <= pi < ps.pages@.len() implies (
                #[trigger] ps.pages@[pi]).address >= ps.address + pi * reg.page_size by {
                    if pi < pl {
                        assert(ps.pages@[pi] == pre[sl].pages@[pi]);
                        assert(pre[sl].pages@[pi].address >= pre[sl].address + pi * reg.page_size);
                    } else {
                        assert(op.address >= pre[sl].address + pl * reg.page_size);
                    }
                }
                assert forall|pi: int, pj: int| 0 <= pi < pj < ps.pages@.len() implies (
                #[trigger] ps.pages@[pi]).address + reg.page_size <= (
                #[trigger] ps.pages@[pj]).address by {
                    assert(pre[sl].pages@[pi].address + reg.page_size
                        <= pre[sl].pages@[pj].address);
                }
            }
        }
        assert forall|i: int, j: int| 0 <= i < j < post.len() implies (#[trigger] post[i]).end()
            <= (#[trigger] post[j]).address by {
            assert(pre[i].end() <= pre[j].address);
        }
    }
    assert(sectors_content_ok(post, ws, reg)) by {
        assert forall|si: int, pi: int|
            0 <= si < post.len() && 0 <= pi < post[si].pages@.len() implies page_content_ok(
            #[trigger] post[si].pages@[pi],
            ws,
            reg,
        ) by {
            if si < sl || pi < pl {
                assert(post[si].pages@[pi] == pre[si].pages@[pi]);
                assert(page_content_ok(pre[si].pages@[pi], ws, reg));
            } else {
                assert(page_content_ok(op, ws, reg));
                assert forall|k: int| 0 <= k < np.data@.len() implies (#[trigger] np.data@[k]) == (
                    if covered(ws, np.address + k) {
                        written_byte(ws, np.address + k)
                    } else {
                        reg.erased_byte_value
                    }) by {
                    if k < op.data@.len() {
                        assert(np.data@[k] == op.data@[k]);
                    } else if k < gap_to {
                        assert(!covered(ws, op.address + k));
                    } else {
                        assert(covered(ws, op.address + k));
                    }
                }
            }
        }
    }
    assert(pages_filled_except_last(post)) by {
        assert forall|si: int, pi: int|
            0 <= si < post.len() && 0 <= pi < post[si].pages@.len() && !(si == post.len() - 1
                && pi == post[si].pages@.len() - 1) implies (
        #[trigger] post[si].pages@[pi]).data@.len() == post[si].pages@[pi].size by {
            assert(post[si].pages@[pi] == pre[si].pages@[pi]);
        }
    }
    assert forall|a: int|
        #[trigger] covered(ws, a) && a < cur + amount implies layout_contains_addr(post, a) && a
        < layout_data_end(post) && reg.spec_contains_int(a) by {
        if a < cur {
            assert(layout_contains_addr(pre, a));
            let (si, pi) = choose|si: int, pi: int|
                0 <= si < pre.len() && 0 <= pi < pre[si].pages@.len() && (
                #[trigger] pre[si].pages@[pi]).address <= a < pre[si].pages@[pi].data_end();
            if si < sl || pi < pl {
                assert(post[si].pages@[pi] == pre[si].pages@[pi]);
            }
            assert(0 <= si < post.len() && 0 <= pi < post[si].pages@.len()
                && post[si].pages@[pi].address <= a < post[si].pages@[pi].data_end());
            assert(a < layout_data_end(pre));
        } else {
            assert(np.address <= a < np.data_end());
            assert(layout_contains_addr(post, a));
            // Inside the page, hence inside the sector and the region.
            assert(sector_wf(pre[sl], reg));
        }
    }
    assert(requests_ordered(post_rr)) by {
        assert forall|ri: int, rj: int|
            0 <= ri < rj < post_rr.len() && (#[trigger] post_rr[ri]).sector_index == (
            #[trigger] post_rr[rj]).sector_index && post_rr[ri].page_index
                == post_rr[rj].page_index implies post_rr[ri].data_offset + post_rr[ri].length
            <= post_rr[rj].data_offset by {
            if rj < pre_rr.len() {
                assert(post_rr[ri] == pre_rr[ri] && post_rr[rj] == pre_rr[rj]);
            } else {
                assert(post_rr[ri] == pre_rr[ri]);
                assert(request_wf(pre_rr[ri], pre, ws));
                assert(pre_rr[ri].data_offset + pre_rr[ri].length
                    <= pre[sl].pages@[pl].data@.len());
            }
        }
    }
    assert(requests_wf(post_rr, post, ws)) by {
        assert forall|i: int| 0 <= i < post_rr.len() implies request_wf(
            #[trigger] post_rr[i],
            post,
            ws,
        ) by {
            if i < pre_rr.len() {
                assert(post_rr[i] == pre_rr[i]);
                assert(request_wf(pre_rr[i], pre, ws));
                let r = pre_rr[i];
                if r.sector_index as int == sl && r.page_index as int == pl {
                    assert(post[sl].pages@[pl].data@.len() >= pre[sl].pages@[pl].data@.len());
                } else if r.sector_index as int == sl {
                    assert(post[sl].pages@[r.page_index as int]
                        == pre[sl].pages@[r.page_index as int]);
                } else {
                    assert(post[r.sector_index as int] == pre[r.sector_index as int]);
                }
            } else {
                assert(restore && op.data@.len() < gap_to);
                let r = post_rr[i];
                assert(r == post_rr.last());
                assert(op.address + op.size <= u32::MAX + 1);
                assert(r.address == op.address + op.data@.len());
                assert(r.data_offset + r.length <= post[sl].pages@[pl].data@.len());
                assert forall|t: int| 0 <= t < r.length implies !covered(
                    ws,
                    #[trigger] (r.address + t),
                ) by {
                    assert(r.address + t == op.address + (op.data@.len() + t));
                    assert(!covered(ws, op.address + (op.data@.len() + t)));
                }
            }
        }
    }
    if restore {
        assert(requests_complete(post_rr, post, ws)) by {
            assert forall|si: int, pi: int, k: int|
                0 <= si < post.len() && 0 <= pi < post[si].pages@.len() && 0 <= k
                    < post[si].pages@[pi].data@.len() && #[trigger] page_byte_unwritten(
                    ws,
                    post,
                    si,
                    pi,
                    k,
                ) implies exists|ri: int|
                0 <= ri < post_rr.len() && (#[trigger] post_rr[ri]).sector_index == si
                    && post_rr[ri].page_index == pi && post_rr[ri].data_offset <= k
                    < post_rr[ri].data_offset + post_rr[ri].length by {
                if si < sl || pi < pl {
                    assert(post[si].pages@[pi] == pre[si].pages@[pi]);
                    let b = pre[si].pages@[pi].data@[k];
                    assert(0 <= k < pre[si].pages@[pi].data@.len());
                    assert(!covered(ws, pre[si].pages@[pi].address + k));
                    assert(page_byte_unwritten(ws, pre, si, pi, k));
                    let ri = choose|ri: int|
                        0 <= ri < pre_rr.len() && (#[trigger] pre_rr[ri]).sector_index == si
                            && pre_rr[ri].page_index == pi && pre_rr[ri].data_offset <= k
                            < pre_rr[ri].data_offset + pre_rr[ri].length;
                    assert(post_rr[ri] == pre_rr[ri]);
                } else {
                    if k < op.data@.len() {
                        let b = pre[si].pages@[pi].data@[k];
                        assert(0 <= k < pre[si].pages@[pi].data@.len());
                        assert(!covered(ws, pre[si].pages@[pi].address + k));
                    assert(page_byte_unwritten(ws, pre, si, pi, k));
                        let ri = choose|ri: int|
                            0 <= ri < pre_rr.len() && (#[trigger] pre_rr[ri]).sector_index == si
                                && pre_rr[ri].page_index == pi && pre_rr[ri].data_offset <= k
                                < pre_rr[ri].data_offset + pre_rr[ri].length;
                        assert(post_rr[ri] == pre_rr[ri]);
                    } else if k < gap_to {
                        assert(op.data@.len() < gap_to);
                        let ri = post_rr.len() - 1;
                        assert(post_rr[ri].sector_index == si && post_rr[ri].page_index == pi
                            && post_rr[ri].data_offset <= k < post_rr[ri].data_offset
                            + post_rr[ri].length);
                    } else {
                        assert(covered(ws, post[si].pages@[pi].address + k));
                    }
                }
            }
        }
    }
}

/// Requests on the same page are ordered by ascending, disjoint ranges
/// (each new request is recorded behind all stored data of its page).
pub open spec fn requests_ordered(rr: Seq<ReadRequest>) -> bool {
    forall|ri: int, rj: int|
        0 <= ri < rj < rr.len() && (#[trigger] rr[ri]).sector_index == (
        #[trigger] rr[rj]).sector_index && rr[ri].page_index == rr[rj].page_index ==> rr[ri].data_offset
            + rr[ri].length <= rr[rj].data_offset
}

/// Extends `page` with copies of the erased byte value until it holds
/// `upto` bytes; when `restore` is set and bytes were added, records the
/// device read that will replace them.
fn fill_page_to(
    page: &mut FlashPage,
    upto: u32,
    erased_byte_value: u8,
    restore: bool,
    read_requests: &mut Vec<ReadRequest>,
    sector_index: usize,
    page_index: usize,
) -> (gap: usize)
    requires
        old(page).data@.len() <= upto <= old(page).size,
        old(page).end() <= u32::MAX + 1,
    ensures
        final(page).address == old(page).address,
        final(page).size == old(page).size,
        final(page).data@.len() == upto,
        gap == upto - old(page).data@.len(),
        forall|k: int|
            0 <= k < old(page).data@.len() ==> final(page).data@[k] == old(page).data@[k],
        forall|k: int|
            old(page).data@.len() <= k < upto ==> final(page).data@[k] == erased_byte_value,
        if restore && old(page).data@.len() < upto {
            final(read_requests)@ == old(read_requests)@.push(
                (ReadRequest {
                    sector_index,
                    page_index,
                    data_offset: old(page).data@.len() as usize,
                    address: (old(page).address + old(page).data@.len()) as u32,
                    length: (upto - old(page).data@.len()) as usize,
                }),
            )
        } else {
            final(read_requests)@ == old(read_requests)@
        },
{
    let start_len = page.data.len();
    let fill_len = (upto as usize) - start_len;
    if fill_len > 0 {
        if restore {
            read_requests.push(
                ReadRequest {
                    sector_index,
                    page_index,
                    data_offset: start_len,
                    address: page.address + start_len as u32,
                    length: fill_len,
                },
            );
        }
        let mut t: usize = 0;
        while t < fill_len
            invariant
                0 <= t <= fill_len,
                page.address == old(page).address,
                page.size == old(page).size,
                page.data@.len() == start_len + t,
                forall|k: int| 0 <= k < start_len ==> page.data@[k] == old(page).data@[k],
                forall|k: int| start_len <= k < start_len + t ==> page.data@[k] == erased_byte_value,
            decreases fill_len - t,
        {
            page.data.push(erased_byte_value);
            t += 1;
        }
    }
    fill_len
}

/// Appends `src[start..end]` to `dst`.
fn append_range(dst: &mut Vec<u8>, src: &Vec<u8>, start: usize, end: usize)
    requires
        start <= end <= src@.len(),
        old(dst)@.len() + (end - start) <= usize::MAX,
    ensures
        final(dst)@ == old(dst)@ + src@.subrange(start as int, end as int),
{
    let mut t: usize = start;
    while t < end
        invariant
            start <= t <= end <= src@.len(),
            dst@ == old(dst)@ + src@.subrange(start as int, t as int),
        decreases end - t,
    {
        let b = src[t];
        dst.push(b);
        t += 1;
        proof {
            assert(dst@ =~= old(dst)@ + src@.subrange(start as int, t as int));
        }
    }
}

/// Closes out the last page of the layout: fills its tail to the full page
/// size, recording the device read when restoring.
fn close_out_last_page(
    sectors: &mut Vec<FlashSector>,
    read_requests: &mut Vec<ReadRequest>,
    region: &FlashRegion,
    restore: bool,
    Ghost(ws): Ghost<Seq<FlashWriteData>>,
    Ghost(cur): Ghost<int>,
    Ghost(nw): Ghost<int>,
)
    requires
        layout_inv(old(sectors)@, old(read_requests)@, ws, *region, cur, nw, restore),
        old(sectors)@.len() > 0,
        old(sectors)@.last().pages@.len() > 0,
        old(sectors)@.last().pages@.last().end() <= cur,
    ensures
        layout_inv_closed(final(sectors)@, final(read_requests)@, ws, *region, cur, nw, restore),
        layout_data_end(old(sectors)@) <= layout_data_end(final(sectors)@) <= cur,
        final(sectors)@.len() == old(sectors)@.len(),
        forall|si: int|
            0 <= si < old(sectors)@.len() ==> (#[trigger] final(sectors)@[si]).address
                == old(sectors)@[si].address && final(sectors)@[si].size
                == old(sectors)@[si].size && final(sectors)@[si].pages@.len()
                == old(sectors)@[si].pages@.len(),
        ({
            let lp_old = old(sectors)@.last().pages@.last();
            let lp_new = final(sectors)@.last().pages@.last();
            lp_new.address == lp_old.address && lp_new.size == lp_old.size
        }),
{
    let ghost pre_sectors = sectors@;
    let ghost pre_rr = read_requests@;
    let si_idx: usize = sectors.len() - 1;
    let mut sector = sectors.pop().unwrap();
    let pi_idx: usize = sector.pages.len() - 1;
    let mut page = sector.pages.pop().unwrap();
    let upto = page.size;
    proof {
        assert(page_in_sector(pre_sectors.last().pages@.last(), pre_sectors.last(), *region));
    }
    let _ = fill_page_to(
        &mut page,
        upto,
        region.erased_byte_value,
        restore,
        read_requests,
        si_idx,
        pi_idx,
    );
    sector.pages.push(page);
    sectors.push(sector);
    proof {
        lemma_layout_after_closeout(
            pre_sectors,
            sectors@,
            pre_rr,
            read_requests@,
            ws,
            *region,
            cur,
            nw,
            restore,
        );
    }
}

/// Opens the sector containing `addr` and appends it, empty, to the layout.
/// Fails when `addr` lies outside the region.
fn open_sector(
    sectors: &mut Vec<FlashSector>,
    region: &FlashRegion,
    addr: u32,
    Ghost(rr): Ghost<Seq<ReadRequest>>,
    Ghost(ws): Ghost<Seq<FlashWriteData>>,
    Ghost(nw): Ghost<int>,
    Ghost(restore): Ghost<bool>,
) -> (r: Result<(), FlashError>)
    requires
        region.wf(),
        layout_inv_closed(old(sectors)@, rr, ws, *region, addr as int, nw, restore),
        old(sectors)@.len() > 0 ==> old(sectors)@.last().end() <= addr,
    ensures
        match r {
            Ok(()) => {
                &&& layout_inv_open(final(sectors)@, rr, ws, *region, addr as int, nw, restore)
                &&& final(sectors)@.len() == old(sectors)@.len() + 1
                &&& final(sectors)@.last().address <= addr < final(sectors)@.last().end()
                &&& final(sectors)@.last().pages@.len() == 0
            },
            Err(e) => {
                &&& e == (FlashError::AddressNotInRegion { address: addr, region: *region })
                &&& !region.spec_contains(addr)
                &&& final(sectors)@ == old(sectors)@
            },
        },
{
    let ghost pre_sectors = sectors@;
    let info_opt = region.sector_info(addr);
    match info_opt {
        Some(info) => {
            proof {
                crate::region::lemma_sector_base_bounds(*region, addr);
                if pre_sectors.len() > 0 {
                    let lastsec = pre_sectors.last();
                    assert((lastsec.end()) % (region.sector_size as int) == 0) by {
                        vstd::arithmetic::div_mod::lemma_add_mod_noop(
                            lastsec.address as int,
                            lastsec.size as int,
                            region.sector_size as int,
                        );
                        vstd::arithmetic::div_mod::lemma_mod_self_0(region.sector_size as int);
                        vstd::arithmetic::div_mod::lemma_small_mod(0nat, region.sector_size as nat);
                    }
                    crate::region::lemma_aligned_ge(
                        info.base_address as int,
                        lastsec.end(),
                        region.sector_size as int,
                    );
                }
            }
            sectors.push(FlashSector::new(&info));
            proof {
                lemma_layout_after_new_sector(
                    pre_sectors,
                    sectors@,
                    rr,
                    ws,
                    *region,
                    addr as int,
                    nw,
                    restore,
                );
            }
            Ok(())
        },
        None => Err(FlashError::AddressNotInRegion { address: addr, region: *region }),
    }
}

/// Opens the page containing `addr` and appends it, empty, to the last
/// sector of the layout. `addr` lies inside that sector, so the page always
/// exists and fits.
fn open_page(
    sectors: &mut Vec<FlashSector>,
    region: &FlashRegion,
    addr: u32,
    Ghost(rr): Ghost<Seq<ReadRequest>>,
    Ghost(ws): Ghost<Seq<FlashWriteData>>,
    Ghost(nw): Ghost<int>,
    Ghost(restore): Ghost<bool>,
)
    requires
        region.wf(),
        old(sectors)@.len() > 0,
        (layout_inv_closed(old(sectors)@, rr, ws, *region, addr as int, nw, restore) && old(
            sectors,
        )@.last().pages@.len() > 0 && old(sectors)@.last().pages@.last().end() <= addr)
            || layout_inv_open(old(sectors)@, rr, ws, *region, addr as int, nw, restore),
        old(sectors)@.last().address <= addr < old(sectors)@.last().end(),
    ensures
        layout_inv(final(sectors)@, rr, ws, *region, addr as int, nw, restore),
        final(sectors)@.len() == old(sectors)@.len(),
        final(sectors)@.last().pages@.len() >= 1,
        ({
            let np = final(sectors)@.last().pages@.last();
            np.address <= addr < np.end() && np.data@.len() == 0
        }),
        layout_data_end(final(sectors)@) == final(sectors)@.last().pages@.last().address,
{
    let pinfo_opt = region.page_info(addr);
    match pinfo_opt {
        Some(pinfo) => {
            let page = FlashPage::new(&pinfo);
            let ghost gpage = page;
            let ghost pre_sectors = sectors@;
            let mut sector = sectors.pop().unwrap();
            let ghost gsector = sector;
            proof {
                assert(sector_wf(gsector, *region));
                assert(region.spec_contains(addr)) by {
                    assert(region.range_start <= gsector.address);
                    assert(gsector.end() <= region.range_end);
                }
                if gsector.pages@.len() > 0 {
                    assert(page_in_sector(gsector.pages@.last(), gsector, *region));
                }
                lemma_new_page_fits(gsector, *region, addr, gpage);
                if pre_sectors.last().pages@.len() > 0 {
                    assert(layout_data_end(pre_sectors)
                        == pre_sectors.last().pages@.last().data_end());
                }
            }
            let res = sector.add_page(page);
            match res {
                Ok(()) => {},
                Err(_) => {
                    proof {
                        assert(false);
                    }
                },
            }
            sectors.push(sector);
            proof {
                assert(sector.pages@ =~= gsector.pages@.push(gpage));
                lemma_layout_after_new_page(
                    pre_sectors,
                    sectors@,
                    rr,
                    ws,
                    *region,
                    addr as int,
                    nw,
                    restore,
                    gpage,
                );
            }
        },
        None => {
            proof {
                let ls = sectors@.last();
                assert(region.range_start <= ls.address && ls.end() <= region.range_end);
                assert(false);
            }
        },
    }
}

/// Copies as many bytes of the current write as fit into the current page,
/// filling any gap between the stored data and `addr` first.
fn copy_chunk(
    sectors: &mut Vec<FlashSector>,
    read_requests: &mut Vec<ReadRequest>,
    region: &FlashRegion,
    src: &Vec<u8>,
    pos: usize,
    addr: u32,
    restore: bool,
    Ghost(ws): Ghost<Seq<FlashWriteData>>,
    Ghost(wi): Ghost<int>,
) -> (amount: usize)
    requires
        region.wf(),
        writes_wf(ws),
        0 <= wi < ws.len(),
        src@ == ws[wi].data@,
        ws[wi].address + pos == addr,
        pos < src@.len(),
        layout_inv(old(sectors)@, old(read_requests)@, ws, *region, addr as int, wi, restore),
        old(sectors)@.len() > 0,
        old(sectors)@.last().pages@.len() > 0,
        ({
            let p = old(sectors)@.last().pages@.last();
            p.address <= addr < p.end()
        }),
    ensures
        1 <= amount,
        pos + amount <= src@.len(),
        layout_inv(
            final(sectors)@,
            final(read_requests)@,
            ws,
            *region,
            addr + amount,
            wi,
            restore,
        ),
        layout_data_end(final(sectors)@) == addr + amount,
{
    let ghost pre_sectors = sectors@;
    let ghost pre_rr = read_requests@;
    let sector_count: usize = sectors.len();
    let mut sector = sectors.pop().unwrap();
    let plen2: usize = sector.pages.len();
    proof {
        assert(pre_sectors.len() == sector_count);
        assert(pre_sectors.last().pages@.len() == plen2);
    }
    let mut page = sector.pages.pop().unwrap();
    let ghost old_page = page;
    proof {
        assert(page_in_sector(old_page, pre_sectors.last(), *region));
        assert(layout_data_end(pre_sectors) == old_page.data_end());
    }
    let offset_in_page: u32 = addr - page.address;
    let _ = fill_page_to(
        &mut page,
        offset_in_page,
        region.erased_byte_value,
        restore,
        read_requests,
        sectors.len(),
        plen2 - 1,
    );
    let space_left_in_page: usize = (page.size - offset_in_page) as usize;
    let space_left_in_data: usize = src.len() - pos;
    let amount: usize = if space_left_in_page < space_left_in_data {
        space_left_in_page
    } else {
        space_left_in_data
    };
    append_range(&mut page.data, src, pos, pos + amount);
    sector.pages.push(page);
    sectors.push(sector);
    proof {
        lemma_layout_after_copy(
            pre_sectors,
            sectors@,
            pre_rr,
            read_requests@,
            ws,
            *region,
            addr as int,
            wi,
            pos as int,
            amount as int,
            restore,
        );
    }
    amount
}

/// Total number of bytes held by the writes.
pub open spec fn sum_write_lens(ws: Seq<FlashWriteData>) -> int
    decreases ws.len(),
{
    if ws.len() == 0 {
        0
    } else {
        sum_write_lens(ws.drop_last()) + ws.last().data@.len()
    }
}

/// `write_insert_pos` is the first index whose write starts at or beyond the
/// new address; `probe` is any index below which all writes start earlier.
proof fn lemma_write_insert_pos_properties(ws: Seq<FlashWriteData>, address: u32, probe: int)
    requires
        0 <= probe <= ws.len(),
        forall|j: int| 0 <= j < probe ==> (#[trigger] ws[j]).address < address,
        probe < ws.len() ==> ws[probe].address >= address,
    ensures
        write_insert_pos(ws, address) == probe,
    decreases ws.len(),
{
    if ws.len() > 0 {
        if probe == 0 {
        } else {
            lemma_write_insert_pos_properties(ws.drop_first(), address, probe - 1);
        }
    }
}

/// Inserting a write adds its length to the total byte count.
proof fn lemma_sum_write_lens_insert_one(ws: Seq<FlashWriteData>, k: int, w: FlashWriteData)
    requires
        0 <= k <= ws.len(),
    ensures
        sum_write_lens(ws.insert(k, w)) == sum_write_lens(ws) + w.data@.len(),
    decreases ws.len(),
{
    let ws2 = ws.insert(k, w);
    if k == ws.len() {
        assert(ws2.drop_last() =~= ws);
        assert(ws2.last() == w);
    } else {
        lemma_sum_write_lens_insert_one(ws.drop_last(), k, w);
        assert(ws2.drop_last() =~= ws.drop_last().insert(k, w));
        assert(ws2.last() == ws.last());
    }
}


/// One operation of a programming plan, to be run against the device in
/// order.
#[derive(Debug, PartialEq)]
pub enum FlashOperation {
    /// Erase the whole chip.
    EraseAll,
    /// Erase the sector at `address`.
    EraseSector { address: u32 },
    /// Program one full page.
    ProgramPage { address: u32, data: Vec<u8> },
    /// Upload one full page into the target RAM buffer `buffer_number`.
    LoadPageBuffer { address: u32, data: Vec<u8>, buffer_number: u8 },
    /// Wait for the running buffer-to-flash copy; a nonzero result is a
    /// failure (see `check_completion`).
    WaitForCompletion,
    /// Start the copy of RAM buffer `buffer_number` into the page at
    /// `address`.
    StartProgramPageWithBuffer { buffer_number: u8, address: u32 },
}

/// All pages of the layout, sectors in order, pages in order within each.
pub open spec fn all_pages(sectors: Seq<FlashSector>) -> Seq<FlashPage>
    decreases sectors.len(),
{
    if sectors.len() == 0 {
        Seq::empty()
    } else {
        all_pages(sectors.drop_last()) + sectors.last().pages@
    }
}

/// The sector-erase operations of a layout: one `EraseSector` for every
/// sector holding at least one page, in ascending address order.
pub open spec fn erase_ops(sectors: Seq<FlashSector>) -> Seq<FlashOperation>
    decreases sectors.len(),
{
    if sectors.len() == 0 {
        Seq::empty()
    } else {
        erase_ops(sectors.drop_last()) + (if sectors.last().pages@.len() > 0 {
            seq![(FlashOperation::EraseSector { address: sectors.last().address })]
        } else {
            Seq::empty()
        })
    }
}

/// Whether `op` programs the page `p` (same address, same bytes).
pub open spec fn op_programs_page(op: FlashOperation, p: FlashPage) -> bool {
    match op {
        FlashOperation::ProgramPage { address, data } => address == p.address && data@ == p.data@,
        _ => false,
    }
}

/// Whether `op` loads the page `p` into RAM buffer `buffer_number`.
pub open spec fn op_loads_page(op: FlashOperation, p: FlashPage, buffer_number: u8) -> bool {
    match op {
        FlashOperation::LoadPageBuffer { address, data, buffer_number: b } => {
            address == p.address && data@ == p.data@ && b == buffer_number
        },
        _ => false,
    }
}

/// Copies a page (same address, size and bytes).
fn clone_page(p: &FlashPage) -> (r: FlashPage)
    ensures
        page_eq(r, *p),
{
    FlashPage { address: p.address, size: p.size, data: vstd::slice::slice_to_vec(p.data.as_slice()) }
}

impl FlashBuilder {
    /// Collects all pages of the given sectors, in address order.
    pub fn pages(sectors: &Vec<FlashSector>) -> (r: Vec<FlashPage>)
        ensures
            r@.len() == all_pages(sectors@).len(),
            forall|i: int| 0 <= i < r@.len() ==> page_eq(#[trigger] r@[i], all_pages(sectors@)[i]),
    {
        let mut r: Vec<FlashPage> = Vec::new();
        let mut si: usize = 0;
        while si < sectors.len()
            invariant
                0 <= si <= sectors@.len(),
                r@.len() == all_pages(sectors@.subrange(0, si as int)).len(),
                forall|i: int|
                    0 <= i < r@.len() ==> page_eq(
                        #[trigger] r@[i],
                        all_pages(sectors@.subrange(0, si as int))[i],
                    ),
            decreases sectors@.len() - si,
        {
            let mut pi: usize = 0;
            let ghost prefix = all_pages(sectors@.subrange(0, si as int));
            while pi < sectors[si].pages.len()
                invariant
                    0 <= si < sectors@.len(),
                    0 <= pi <= sectors@[si as int].pages@.len(),
                    prefix == all_pages(sectors@.subrange(0, si as int)),
                    r@.len() == prefix.len() + pi,
                    forall|i: int|
                        0 <= i < prefix.len() ==> page_eq(#[trigger] r@[i], prefix[i]),
                    forall|i: int|
                        prefix.len() <= i < r@.len() ==> page_eq(
                            #[trigger] r@[i],
                            sectors@[si as int].pages@[i - prefix.len()],
                        ),
                decreases sectors@[si as int].pages@.len() - pi,
            {
                r.push(clone_page(&sectors[si].pages[pi]));
                pi += 1;
            }
            si += 1;
            proof {
                lemma_all_pages_step(sectors@, si as int);
            }
        }
        proof {
            assert(sectors@.subrange(0, sectors@.len() as int) =~= sectors@);
        }
        r
    }

    /// The whole-chip erase plan.
    pub fn chip_erase(&self) -> (r: Vec<FlashOperation>)
        ensures
            r@ =~= seq![FlashOperation::EraseAll],
    {
        let mut r: Vec<FlashOperation> = Vec::new();
        r.push(FlashOperation::EraseAll);
        r
    }

    /// The sector-erase plan: erase exactly the sectors that hold at least
    /// one page, in ascending address order.
    pub fn sector_erase(&self, sectors: &Vec<FlashSector>) -> (r: Vec<FlashOperation>)
        ensures
            r@ == erase_ops(sectors@),
    {
        let mut r: Vec<FlashOperation> = Vec::new();
        let mut si: usize = 0;
        while si < sectors.len()
            invariant
                0 <= si <= sectors@.len(),
                r@ == erase_ops(sectors@.subrange(0, si as int)),
            decreases sectors@.len() - si,
        {
            if sectors[si].pages.len() > 0 {
                r.push(FlashOperation::EraseSector { address: sectors[si].address });
            }
            si += 1;
            proof {
                lemma_erase_ops_step(sectors@, si as int);
                assert(sectors@.subrange(0, si as int).drop_last() =~= sectors@.subrange(
                    0,
                    si - 1,
                ));
            }
        }
        proof {
            assert(sectors@.subrange(0, sectors@.len() as int) =~= sectors@);
        }
        r
    }

    /// The simple program plan: program every page of the layout in address
    /// order.
    pub fn program_simple(&self, sectors: &Vec<FlashSector>) -> (r: Vec<FlashOperation>)
        ensures
            r@.len() == all_pages(sectors@).len(),
            forall|i: int|
                0 <= i < r@.len() ==> op_programs_page(#[trigger] r@[i], all_pages(sectors@)[i]),
    {
        let pages = Self::pages(sectors);
        let mut r: Vec<FlashOperation> = Vec::new();
        let mut i: usize = 0;
        while i < pages.len()
            invariant
                0 <= i <= pages@.len(),
                pages@.len() == all_pages(sectors@).len(),
                forall|j: int|
                    0 <= j < pages@.len() ==> page_eq(#[trigger] pages@[j], all_pages(sectors@)[j]),
                r@.len() == i,
                forall|j: int|
                    0 <= j < i ==> op_programs_page(#[trigger] r@[j], all_pages(sectors@)[j]),
            decreases pages@.len() - i,
        {
            let p = clone_page(&pages[i]);
            r.push(FlashOperation::ProgramPage { address: p.address, data: p.data });
            i += 1;
        }
        r
    }

    /// The double-buffered program plan: for each page in order, upload it
    /// into the idle RAM buffer, wait for the previous copy to finish, then
    /// start the copy from that buffer, alternating between buffers 0 and 1.
    pub fn program_double_buffer(&self, sectors: &Vec<FlashSector>) -> (r: Vec<FlashOperation>)
        ensures
            r@.len() == 3 * all_pages(sectors@).len(),
            forall|i: int|
                0 <= i < all_pages(sectors@).len() ==> op_loads_page(
                    #[trigger] r@[3 * i],
                    all_pages(sectors@)[i],
                    (i % 2) as u8,
                ) && r@[3 * i + 1] == FlashOperation::WaitForCompletion && r@[3 * i + 2] == (
                FlashOperation::StartProgramPageWithBuffer {
                    buffer_number: (i % 2) as u8,
                    address: all_pages(sectors@)[i].address,
                }),
    {
        let pages = Self::pages(sectors);
        let mut r: Vec<FlashOperation> = Vec::new();
        let mut current_buf: u8 = 0;
        let mut i: usize = 0;
        while i < pages.len()
            invariant
                0 <= i <= pages@.len(),
                pages@.len() == all_pages(sectors@).len(),
                forall|j: int|
                    0 <= j < pages@.len() ==> page_eq(#[trigger] pages@[j], all_pages(sectors@)[j]),
                r@.len() == 3 * i,
                current_buf == (i % 2) as u8,
                forall|j: int|
                    0 <= j < i ==> op_loads_page(
                        #[trigger] r@[3 * j],
                        all_pages(sectors@)[j],
                        (j % 2) as u8,
                    ) && r@[3 * j + 1] == FlashOperation::WaitForCompletion && r@[3 * j + 2] == (
                    FlashOperation::StartProgramPageWithBuffer {
                        buffer_number: (j % 2) as u8,
                        address: all_pages(sectors@)[j].address,
                    }),
            decreases pages@.len() - i,
        {
            let p = clone_page(&pages[i]);
            let address = p.address;
            // Upload the next page into the idle RAM buffer.
            r.push(
                FlashOperation::LoadPageBuffer { address, data: p.data, buffer_number: current_buf },
            );
            // Wait for the running copy to finish, then start the next one.
            r.push(FlashOperation::WaitForCompletion);
            r.push(
                FlashOperation::StartProgramPageWithBuffer { buffer_number: current_buf, address },
            );
            // Swap the buffers.
            if current_buf == 1 {
                current_buf = 0;
            } else {
                current_buf = 1;
            }
            i += 1;
        }
        r
    }

    /// Computes the full programming plan for a finished layout: the erase
    /// step (whole-chip if requested and supported, else per-sector),
    /// followed by the program step (double-buffered when supported and
    /// enabled, else simple). An empty layout yields an empty plan.
    ///
    /// `do_chip_erase` is downgraded exactly when the flash algorithm has
    /// no erase-all entry point.
    pub fn program(
        &self,
        layout: &FlashLayout,
        has_erase_all: bool,
        double_buffering_supported: bool,
        do_chip_erase: bool,
    ) -> (r: Vec<FlashOperation>)
        ensures
            layout.sectors@.len() == 0 ==> r@.len() == 0,
            layout.sectors@.len() > 0 ==> ({
                // The erase step: whole-chip erase exactly when requested
                // and supported, else one erase per touched sector.
                let erase = if do_chip_erase && has_erase_all {
                    seq![FlashOperation::EraseAll]
                } else {
                    erase_ops(layout.sectors@)
                };
                let tail = r@.subrange(erase.len() as int, r@.len() as int);
                &&& erase.len() <= r@.len()
                &&& r@.subrange(0, erase.len() as int) == erase
                &&& (if double_buffering_supported && self.enable_double_buffering {
                    &&& tail.len() == 3 * all_pages(layout.sectors@).len()
                    &&& forall|i: int|
                        0 <= i < all_pages(layout.sectors@).len() ==> op_loads_page(
                            #[trigger] tail[3 * i],
                            all_pages(layout.sectors@)[i],
                            (i % 2) as u8,
                        ) && tail[3 * i + 1] == FlashOperation::WaitForCompletion && tail[3 * i
                            + 2] == (FlashOperation::StartProgramPageWithBuffer {
                            buffer_number: (i % 2) as u8,
                            address: all_pages(layout.sectors@)[i].address,
                        })
                } else {
                    &&& tail.len() == all_pages(layout.sectors@).len()
                    &&& forall|i: int|
                        0 <= i < tail.len() ==> op_programs_page(
                            #[trigger] tail[i],
                            all_pages(layout.sectors@)[i],
                        )
                })
            }),
    {
        if layout.sectors.len() == 0 {
            return Vec::new();
        }
        let mut do_chip_erase = do_chip_erase;
        // If the flash algorithm doesn't support erase all, disable chip
        // erase.
        if !has_erase_all {
            do_chip_erase = false;
        }
        let mut plan: Vec<FlashOperation>;
        if do_chip_erase {
            plan = self.chip_erase();
        } else {
            plan = self.sector_erase(&layout.sectors);
        }
        let ghost erase_part = plan@;
        let mut program_part: Vec<FlashOperation>;
        if double_buffering_supported && self.enable_double_buffering {
            program_part = self.program_double_buffer(&layout.sectors);
        } else {
            program_part = self.program_simple(&layout.sectors);
        }
        let ghost prog_part = program_part@;
        plan.append(&mut program_part);
        proof {
            assert(plan@ =~= erase_part + prog_part);
            assert(prog_part =~= plan@.subrange(erase_part.len() as int, plan@.len() as int));
        }
        plan
    }
}

/// Checks the result a `WaitForCompletion` operation returned: `None` for a
/// failed wait, `Some(code)` for a completed one; only completion code 0 is
/// success.
pub fn check_completion(result: Option<u32>) -> (r: Result<(), FlashError>)
    ensures
        match r {
            Ok(()) => result == Some(0u32),
            Err(e) => result != Some(0u32) && e == FlashError::FlashBuilder,
        },
{
    match result {
        Some(0u32) => Ok(()),
        _ => Err(FlashError::FlashBuilder),
    }
}

/// `all_pages` of a prefix grows by the pages of the next sector.
proof fn lemma_all_pages_step(sectors: Seq<FlashSector>, si: int)
    requires
        0 < si <= sectors.len(),
    ensures
        all_pages(sectors.subrange(0, si)) == all_pages(sectors.subrange(0, si - 1))
            + sectors[si - 1].pages@,
{
    let pre = sectors.subrange(0, si);
    assert(pre.drop_last() =~= sectors.subrange(0, si - 1));
    assert(pre.last() == sectors[si - 1]);
}

/// `erase_ops` of a prefix grows by the erase of the next sector, if it has
/// pages.
proof fn lemma_erase_ops_step(sectors: Seq<FlashSector>, si: int)
    requires
        0 < si <= sectors.len(),
    ensures
        erase_ops(sectors.subrange(0, si)) == erase_ops(sectors.subrange(0, si - 1)) + (if sectors[si
            - 1].pages@.len() > 0 {
            seq![(FlashOperation::EraseSector { address: sectors[si - 1].address })]
        } else {
            Seq::<FlashOperation>::empty()
        }),
{
    let pre = sectors.subrange(0, si);
    assert(pre.drop_last() =~= sectors.subrange(0, si - 1));
    assert(pre.last() == sectors[si - 1]);
}


/// A read request points at a real range of a page of the layout.
pub open spec fn request_in_bounds(r: ReadRequest, sectors: Seq<FlashSector>) -> bool {
    &&& r.sector_index < sectors.len()
    &&& r.page_index < sectors[r.sector_index as int].pages@.len()
    &&& r.data_offset + r.length <= sectors[r.sector_index as int].pages@[r.page_index as int].data@.len()
}

/// Whether offset `k` of page `pi` of sector `si` falls in some request.
pub open spec fn in_some_request(rr: Seq<ReadRequest>, si: int, pi: int, k: int) -> bool {
    exists|ri: int|
        0 <= ri < rr.len() && (#[trigger] rr[ri]).sector_index == si && rr[ri].page_index == pi
            && rr[ri].data_offset <= k < rr[ri].data_offset + rr[ri].length
}

/// The byte at offset `t` of request `ri` was replaced by the matching read
/// result.
pub open spec fn applied_request_byte(
    sectors: Seq<FlashSector>,
    rr: Seq<ReadRequest>,
    read_data: Seq<Vec<u8>>,
    ri: int,
    t: int,
) -> bool {
    sectors[rr[ri].sector_index as int].pages@[rr[ri].page_index as int].data@[rr[ri].data_offset
        + t] == read_data[ri]@[t]
}

/// The layouts have the same sectors and pages, with the same data lengths.
pub open spec fn sectors_shape_eq(pre: Seq<FlashSector>, post: Seq<FlashSector>) -> bool {
    &&& post.len() == pre.len()
    &&& forall|si: int|
        0 <= si < pre.len() ==> (#[trigger] post[si]).address == pre[si].address && post[si].size
            == pre[si].size && post[si].page_size == pre[si].page_size && post[si].pages@.len()
            == pre[si].pages@.len()
    &&& forall|si: int, pi: int|
        0 <= si < pre.len() && 0 <= pi < pre[si].pages@.len() ==> (
        #[trigger] post[si].pages@[pi]).address == pre[si].pages@[pi].address
            && post[si].pages@[pi].size == pre[si].pages@[pi].size
            && post[si].pages@[pi].data@.len() == pre[si].pages@[pi].data@.len()
}

/// Replaces the bytes of `page` at `offset` with `bytes`.
fn splice_bytes(page: &mut FlashPage, offset: usize, bytes: &Vec<u8>)
    requires
        offset + bytes@.len() <= old(page).data@.len(),
    ensures
        final(page).address == old(page).address,
        final(page).size == old(page).size,
        final(page).data@.len() == old(page).data@.len(),
        forall|t: int|
            0 <= t < bytes@.len() ==> final(page).data@[offset + t] == bytes@[t],
        forall|k: int|
            0 <= k < old(page).data@.len() && !(offset <= k < offset + bytes@.len())
                ==> final(page).data@[k] == old(page).data@[k],
{
    let data_len = page.data.len();
    let mut t: usize = 0;
    while t < bytes.len()
        invariant
            0 <= t <= bytes@.len(),
            offset + bytes@.len() <= data_len,
            data_len <= usize::MAX,
            offset + bytes@.len() <= page.data@.len(),
            page.address == old(page).address,
            page.size == old(page).size,
            page.data@.len() == old(page).data@.len(),
            forall|u: int| 0 <= u < t ==> page.data@[offset + u] == bytes@[u],
            forall|k: int|
                0 <= k < old(page).data@.len() && !(offset <= k < offset + t) ==> page.data@[k]
                    == old(page).data@[k],
        decreases bytes@.len() - t,
    {
        let b = bytes[t];
        page.data.set(offset + t, b);
        t += 1;
    }
}

impl FlashLayout {
    /// Replaces the placeholder bytes of every read request with the bytes
    /// actually read back from the device: `read_data[i]` holds the result
    /// of request `i`.
    pub fn apply_read_data(&mut self, read_data: &Vec<Vec<u8>>)
        requires
            forall|i: int|
                0 <= i < old(self).read_requests@.len() ==> request_in_bounds(
                    #[trigger] old(self).read_requests@[i],
                    old(self).sectors@,
                ),
            requests_ordered(old(self).read_requests@),
            read_data@.len() == old(self).read_requests@.len(),
            forall|i: int|
                0 <= i < read_data@.len() ==> (#[trigger] read_data@[i])@.len()
                    == old(self).read_requests@[i].length,
        ensures
            final(self).read_requests@ == old(self).read_requests@,
            sectors_shape_eq(old(self).sectors@, final(self).sectors@),
            forall|ri: int, t: int|
                0 <= ri < final(self).read_requests@.len() && 0 <= t
                    < final(self).read_requests@[ri].length ==> #[trigger] applied_request_byte(
                    final(self).sectors@,
                    final(self).read_requests@,
                    read_data@,
                    ri,
                    t,
                ),
            forall|si: int, pi: int, k: int|
                0 <= si < old(self).sectors@.len() && 0 <= pi < old(self).sectors@[si].pages@.len()
                    && 0 <= k < old(self).sectors@[si].pages@[pi].data@.len() && !(
                #[trigger] in_some_request(old(self).read_requests@, si, pi, k))
                    ==> final(self).sectors@[si].pages@[pi].data@[k]
                    == old(self).sectors@[si].pages@[pi].data@[k],
    {
        let ghost pre = self.sectors@;
        let ghost rr = self.read_requests@;
        let n = self.read_requests.len();
        let mut ri: usize = 0;
        while ri < n
            invariant
                n == rr.len(),
                0 <= ri <= n,
                self.read_requests@ == rr,
                read_data@.len() == rr.len(),
                forall|i: int|
                    0 <= i < rr.len() ==> request_in_bounds(#[trigger] rr[i], pre),
                requests_ordered(rr),
                forall|i: int|
                    0 <= i < read_data@.len() ==> (#[trigger] read_data@[i])@.len()
                        == rr[i].length,
                sectors_shape_eq(pre, self.sectors@),
                forall|rj: int, t: int|
                    0 <= rj < ri && 0 <= t < rr[rj].length ==> #[trigger] applied_request_byte(
                        self.sectors@,
                        rr,
                        read_data@,
                        rj,
                        t,
                    ),
                forall|si: int, pi: int, k: int|
                    0 <= si < pre.len() && 0 <= pi < pre[si].pages@.len() && 0 <= k
                        < pre[si].pages@[pi].data@.len() && !(#[trigger] in_some_request(
                        rr.subrange(0, ri as int),
                        si,
                        pi,
                        k,
                    )) ==> self.sectors@[si].pages@[pi].data@[k] == pre[si].pages@[pi].data@[k],
            decreases n - ri,
        {
            let r = self.read_requests[ri];
            let ghost mid = self.sectors@;
            let mut sector = self.sectors.remove(r.sector_index);
            let mut page = sector.pages.remove(r.page_index);
            splice_bytes(&mut page, r.data_offset, &read_data[ri]);
            sector.pages.insert(r.page_index, page);
            self.sectors.insert(r.sector_index, sector);
            ri += 1;
            proof {
                lemma_apply_step(pre, mid, self.sectors@, rr, read_data@, ri as int);
            }
        }
        proof {
            assert(rr.subrange(0, n as int) =~= rr);
        }
    }
}

/// Applying one read request preserves the shape, replaces exactly its
/// range, and keeps all earlier requests applied.
#[verifier::rlimit(100)]
proof fn lemma_apply_step(
    pre: Seq<FlashSector>,
    mid: Seq<FlashSector>,
    post: Seq<FlashSector>,
    rr: Seq<ReadRequest>,
    read_data: Seq<Vec<u8>>,
    ri: int,
)
    requires
        0 < ri <= rr.len(),
        read_data.len() == rr.len(),
        forall|i: int| 0 <= i < rr.len() ==> request_in_bounds(#[trigger] rr[i], pre),
        requests_ordered(rr),
        forall|i: int|
            0 <= i < read_data.len() ==> (#[trigger] read_data[i])@.len() == rr[i].length,
        sectors_shape_eq(pre, mid),
        forall|rj: int, t: int|
            0 <= rj < ri - 1 && 0 <= t < rr[rj].length ==> #[trigger] applied_request_byte(
                mid,
                rr,
                read_data,
                rj,
                t,
            ),
        forall|si: int, pi: int, k: int|
            0 <= si < pre.len() && 0 <= pi < pre[si].pages@.len() && 0 <= k
                < pre[si].pages@[pi].data@.len() && !(#[trigger] in_some_request(
                rr.subrange(0, ri - 1),
                si,
                pi,
                k,
            )) ==> mid[si].pages@[pi].data@[k] == pre[si].pages@[pi].data@[k],
        // the step: `post` is `mid` with the range of request `ri - 1`
        // replaced by its read data
        post.len() == mid.len(),
        forall|si: int| 0 <= si < mid.len() && si != rr[ri - 1].sector_index ==> #[trigger] post[si]
            == mid[si],
        ({
            let r = rr[ri - 1];
            let sm = mid[r.sector_index as int];
            let sp = post[r.sector_index as int];
            &&& sp.address == sm.address
            &&& sp.size == sm.size
            &&& sp.page_size == sm.page_size
            &&& sp.pages@.len() == sm.pages@.len()
            &&& forall|pi: int|
                0 <= pi < sm.pages@.len() && pi != r.page_index ==> #[trigger] sp.pages@[pi]
                    == sm.pages@[pi]
            &&& ({
                let pm = sm.pages@[r.page_index as int];
                let pp = sp.pages@[r.page_index as int];
                &&& pp.address == pm.address
                &&& pp.size == pm.size
                &&& pp.data@.len() == pm.data@.len()
                &&& forall|t: int|
                    0 <= t < r.length ==> pp.data@[r.data_offset + t] == (
                    #[trigger] read_data[ri - 1]@[t])
                &&& forall|k: int|
                    0 <= k < pm.data@.len() && !(r.data_offset <= k < r.data_offset + r.length)
                        ==> #[trigger] pp.data@[k] == pm.data@[k]
            })
        }),
    ensures
        sectors_shape_eq(pre, post),
        forall|rj: int, t: int|
            0 <= rj < ri && 0 <= t < rr[rj].length ==> #[trigger] applied_request_byte(
                post,
                rr,
                read_data,
                rj,
                t,
            ),
        forall|si: int, pi: int, k: int|
            0 <= si < pre.len() && 0 <= pi < pre[si].pages@.len() && 0 <= k
                < pre[si].pages@[pi].data@.len() && !(#[trigger] in_some_request(
                rr.subrange(0, ri),
                si,
                pi,
                k,
            )) ==> post[si].pages@[pi].data@[k] == pre[si].pages@[pi].data@[k],
{
    let r = rr[ri - 1];
    assert(request_in_bounds(r, pre));
    assert forall|rj: int, t: int|
        0 <= rj < ri && 0 <= t < rr[rj].length implies #[trigger] applied_request_byte(
        post,
        rr,
        read_data,
        rj,
        t,
    ) by {
        let rj_req = rr[rj];
        assert(request_in_bounds(rj_req, pre));
        if rj == ri - 1 {
            assert(post[r.sector_index as int].pages@[r.page_index as int].data@[r.data_offset + t]
                == read_data[ri - 1]@[t]);
        } else {
            assert(applied_request_byte(mid, rr, read_data, rj, t));
            if rj_req.sector_index != r.sector_index {
                assert(post[rj_req.sector_index as int] == mid[rj_req.sector_index as int]);
            } else if rj_req.page_index != r.page_index {
                assert(post[r.sector_index as int].pages@[rj_req.page_index as int]
                    == mid[r.sector_index as int].pages@[rj_req.page_index as int]);
            } else {
                // Same page: the ranges are disjoint because requests on one
                // page are ordered.
                assert(rj_req.data_offset + rj_req.length <= r.data_offset);
                assert(!(r.data_offset <= rj_req.data_offset + t < r.data_offset + r.length));
            }
        }
    }
    assert forall|si: int, pi: int, k: int|
        0 <= si < pre.len() && 0 <= pi < pre[si].pages@.len() && 0 <= k
            < pre[si].pages@[pi].data@.len() && !(#[trigger] in_some_request(
            rr.subrange(0, ri),
            si,
            pi,
            k,
        )) implies post[si].pages@[pi].data@[k] == pre[si].pages@[pi].data@[k] by {
        assert(!in_some_request(rr.subrange(0, ri - 1), si, pi, k)) by {
            if in_some_request(rr.subrange(0, ri - 1), si, pi, k) {
                let rj = choose|rj: int|
                    0 <= rj < rr.subrange(0, ri - 1).len() && (#[trigger] rr.subrange(
                        0,
                        ri - 1,
                    )[rj]).sector_index == si && rr.subrange(0, ri - 1)[rj].page_index == pi
                        && rr.subrange(0, ri - 1)[rj].data_offset <= k < rr.subrange(
                        0,
                        ri - 1,
                    )[rj].data_offset + rr.subrange(0, ri - 1)[rj].length;
                assert(rr.subrange(0, ri)[rj] == rr.subrange(0, ri - 1)[rj]);
                assert(in_some_request(rr.subrange(0, ri), si, pi, k));
            }
        }
        assert(mid[si].pages@[pi].data@[k] == pre[si].pages@[pi].data@[k]);
        if si == r.sector_index && pi == r.page_index {
            assert(!(r.data_offset <= k < r.data_offset + r.length)) by {
                if r.data_offset <= k < r.data_offset + r.length {
                    assert(rr.subrange(0, ri)[ri - 1] == r);
                    assert(in_some_request(rr.subrange(0, ri), si, pi, k));
                }
            }
        } else if si == r.sector_index {
            assert(post[si].pages@[pi] == mid[si].pages@[pi]);
        } else {
            assert(post[si] == mid[si]);
        }
    }
}

/// Any two distinct pages of a well-formed layout are disjoint, so every
/// written byte is stored exactly once: the page holding an address is
/// unique, and it stores the written byte at that address.
pub proof fn lemma_layout_places_bytes_once(
    sectors: Seq<FlashSector>,
    ws: Seq<FlashWriteData>,
    region: FlashRegion,
    a: int,
)
    requires
        sectors_wf(sectors, region),
        sectors_content_ok(sectors, ws, region),
        layout_complete(sectors, ws),
        writes_wf(ws),
        covered(ws, a),
    ensures
        layout_contains_addr(sectors, a),
        forall|si1: int, pi1: int, si2: int, pi2: int|
            0 <= si1 < sectors.len() && 0 <= pi1 < sectors[si1].pages@.len() && 0 <= si2
                < sectors.len() && 0 <= pi2 < sectors[si2].pages@.len() && (
            #[trigger] sectors[si1].pages@[pi1]).address <= a
                < sectors[si1].pages@[pi1].data_end() && (
            #[trigger] sectors[si2].pages@[pi2]).address <= a
                < sectors[si2].pages@[pi2].data_end() ==> si1 == si2 && pi1 == pi2,
        forall|si: int, pi: int|
            0 <= si < sectors.len() && 0 <= pi < sectors[si].pages@.len() && (
            #[trigger] sectors[si].pages@[pi]).address <= a < sectors[si].pages@[pi].data_end()
                ==> sectors[si].pages@[pi].data@[a - sectors[si].pages@[pi].address]
                == written_byte(ws, a),
{
    assert forall|si1: int, pi1: int, si2: int, pi2: int|
        0 <= si1 < sectors.len() && 0 <= pi1 < sectors[si1].pages@.len() && 0 <= si2
            < sectors.len() && 0 <= pi2 < sectors[si2].pages@.len() && (
        #[trigger] sectors[si1].pages@[pi1]).address <= a < sectors[si1].pages@[pi1].data_end()
            && (#[trigger] sectors[si2].pages@[pi2]).address <= a
            < sectors[si2].pages@[pi2].data_end() implies si1 == si2 && pi1 == pi2 by {
        let p1 = sectors[si1].pages@[pi1];
        let p2 = sectors[si2].pages@[pi2];
        assert(page_in_sector(p1, sectors[si1], region));
        assert(page_in_sector(p2, sectors[si2], region));
        if si1 < si2 {
            assert(sectors[si1].end() <= sectors[si2].address);
            assert(false);
        } else if si2 < si1 {
            assert(sectors[si2].end() <= sectors[si1].address);
            assert(false);
        } else {
            if pi1 < pi2 {
                assert(p1.address + region.page_size <= p2.address);
                assert(false);
            } else if pi2 < pi1 {
                assert(p2.address + region.page_size <= p1.address);
                assert(false);
            }
        }
    }
    assert forall|si: int, pi: int|
        0 <= si < sectors.len() && 0 <= pi < sectors[si].pages@.len() && (
        #[trigger] sectors[si].pages@[pi]).address <= a < sectors[si].pages@[pi].data_end()
            implies sectors[si].pages@[pi].data@[a - sectors[si].pages@[pi].address]
        == written_byte(ws, a) by {
        assert(page_content_ok(sectors[si].pages@[pi], ws, region));
        let k = a - sectors[si].pages@[pi].address;
        assert(sectors[si].pages@[pi].data@[k] == written_byte(ws, a));
    }
}

/// After restoring, every stored byte is either the byte of the write
/// covering its address, or the byte read back from exactly that device
/// address.
pub proof fn lemma_restored_contents(
    pre: Seq<FlashSector>,
    post: Seq<FlashSector>,
    rr: Seq<ReadRequest>,
    read_data: Seq<Vec<u8>>,
    ws: Seq<FlashWriteData>,
    region: FlashRegion,
    si: int,
    pi: int,
    k: int,
)
    requires
        sectors_content_ok(pre, ws, region),
        requests_wf(rr, pre, ws),
        requests_complete(rr, pre, ws),
        read_data.len() == rr.len(),
        sectors_shape_eq(pre, post),
        forall|ri: int, t: int|
            0 <= ri < rr.len() && 0 <= t < rr[ri].length ==> #[trigger] applied_request_byte(
                post,
                rr,
                read_data,
                ri,
                t,
            ),
        forall|si0: int, pi0: int, k0: int|
            0 <= si0 < pre.len() && 0 <= pi0 < pre[si0].pages@.len() && 0 <= k0
                < pre[si0].pages@[pi0].data@.len() && !(#[trigger] in_some_request(
                rr,
                si0,
                pi0,
                k0,
            )) ==> post[si0].pages@[pi0].data@[k0] == pre[si0].pages@[pi0].data@[k0],
        0 <= si < pre.len(),
        0 <= pi < pre[si].pages@.len(),
        0 <= k < pre[si].pages@[pi].data@.len(),
    ensures
        covered(ws, pre[si].pages@[pi].address + k) ==> post[si].pages@[pi].data@[k]
            == written_byte(ws, pre[si].pages@[pi].address + k),
        !covered(ws, pre[si].pages@[pi].address + k) ==> exists|ri: int, t: int|
            0 <= ri < rr.len() && 0 <= t < rr[ri].length && rr[ri].address + t
                == pre[si].pages@[pi].address + k && (#[trigger] post[si].pages@[pi].data@[k])
                == read_data[ri]@[t],
{
    let addr = pre[si].pages@[pi].address + k;
    if covered(ws, addr) {
        // A covered byte lies in no read request, so it was not replaced.
        assert(!in_some_request(rr, si, pi, k)) by {
            if in_some_request(rr, si, pi, k) {
                let ri = choose|ri: int|
                    0 <= ri < rr.len() && (#[trigger] rr[ri]).sector_index == si
                        && rr[ri].page_index == pi && rr[ri].data_offset <= k < rr[ri].data_offset
                        + rr[ri].length;
                assert(request_wf(rr[ri], pre, ws));
                let t = k - rr[ri].data_offset;
                assert(!covered(ws, rr[ri].address + t));
                assert(rr[ri].address + t == addr);
            }
        }
        assert(post[si].pages@[pi].data@[k] == pre[si].pages@[pi].data@[k]);
        assert(page_content_ok(pre[si].pages@[pi], ws, region));
    } else {
        assert(page_byte_unwritten(ws, pre, si, pi, k));
        let ri = choose|ri: int|
            0 <= ri < rr.len() && (#[trigger] rr[ri]).sector_index == si && rr[ri].page_index == pi
                && rr[ri].data_offset <= k < rr[ri].data_offset + rr[ri].length;
        let t = k - rr[ri].data_offset;
        assert(request_wf(rr[ri], pre, ws));
        assert(applied_request_byte(post, rr, read_data, ri, t));
        assert(rr[ri].address + t == addr);
        assert(post[si].pages@[pi].data@[k] == read_data[ri]@[t]);
    }
}

/// A well-formed sector respects its capacity: it holds at most
/// `size / page_size` pages, each of the sector's page size.
pub proof fn lemma_sector_capacity(s: FlashSector, region: FlashRegion)
    requires
        region.wf(),
        sector_wf(s, region),
    ensures
        s.pages@.len() <= s.size as int / s.page_size as int,
        forall|i: int| 0 <= i < s.pages@.len() ==> (#[trigger] s.pages@[i]).size == s.page_size,
{
    let len = s.pages@.len() as int;
    let p = region.page_size as int;
    if len > 0 {
        let lp = s.pages@.last();
        assert(page_in_sector(lp, s, region));
        assert(lp.address >= s.address + (len - 1) * p);
        assert(len * p <= s.size) by (nonlinear_arith)
            requires
                lp.address >= s.address + (len - 1) * p,
                lp.address + p <= s.address + s.size,
        ;
        assert(len <= s.size as int / p) by {
            vstd::arithmetic::div_mod::lemma_div_multiples_vanish(len, p);
            assert(p * len == len * p) by (nonlinear_arith);
            vstd::arithmetic::div_mod::lemma_div_is_ordered(p * len, s.size as int, p);
        }
    } else {
        vstd::arithmetic::div_mod::lemma_div_pos_is_pos(s.size as int, p);
    }
}

} // verus!
