//! The boot configuration record and the region allocator.
//!
//! Main RAM is modelled as a byte arena indexed from `sram_start`. The
//! allocator hands out ranges downward from the top of the arena:
//! `init_size` counts the bytes consumed from the top so far, and
//! `extra_pages` counts whole pages handed to the process being copied. A
//! ghost log keeps every range ever handed out, which is how the allocator's
//! disjointness law is stated and proved.

use vstd::prelude::*;

use crate::errors::LoaderError;
use crate::swap::SwapCfg;
use crate::PAGE_SIZE;

verus! {

/// Bytes kept free at the very top of RAM: boot stack, clean-suspend page
/// and guard pages.
pub const GUARD_MEMORY_BYTES: usize = 4 * 4096;

/// Word size of the boot target.
pub const WORD_BYTES: usize = 4;

/// Size in bytes of one initial-process descriptor (five words).
pub const DESC_BYTES: usize = 20;

/// An additional memory region besides main RAM.
#[derive(Clone, Copy, Debug, PartialEq, Eq, Structural)]
pub struct MemRegion {
    /// Four-byte ASCII name of the region.
    pub name: u32,
    /// Physical start address.
    pub start: usize,
    /// Length in bytes.
    pub length: usize,
}

/// One initial-process descriptor, as handed to the kernel.
#[derive(Clone, Copy, Debug, PartialEq, Eq, Structural)]
pub struct InitialProcess {
    /// Root page table pointer combined with the process id and mode bits.
    pub satp: usize,
    /// Virtual address execution begins at.
    pub entrypoint: usize,
    /// Address of the top of the stack.
    pub sp: usize,
    /// Address of the start of the environment block.
    pub env: usize,
    /// Pointer to the root of the process's swap page table, or zero when
    /// swap is not configured.
    pub swap_root: usize,
}

impl Default for InitialProcess {
    /// The all-zero descriptor the tables start out with.
    fn default() -> (r: Self)
        ensures
            r == (InitialProcess { satp: 0, entrypoint: 0, sp: 0, env: 0, swap_root: 0 }),
    {
        InitialProcess { satp: 0, entrypoint: 0, sp: 0, env: 0, swap_root: 0 }
    }
}

/// One mapping recorded in a per-process swap page table: which swap RAM
/// offset backs which virtual page of which process.
#[derive(Clone, Copy, Debug, PartialEq, Eq, Structural)]
pub struct SwapMapping {
    /// Byte offset of the page in swap RAM.
    pub swap_offset: usize,
    /// Virtual page address the mapping backs.
    pub vaddr: usize,
    /// Owning process id.
    pub pid: u8,
}

/// A range handed out by the allocator, as indices into the RAM arena.
pub struct AllocRange {
    /// Index of the first byte of the range.
    pub start: int,
    /// Length of the range in bytes.
    pub len: int,
}

/// Pages the tracker must cover for the given additional regions, each
/// rounded up to whole pages.
pub open spec fn spec_region_pages(regions: Seq<MemRegion>) -> int
    decreases regions.len(),
{
    if regions.len() == 0 {
        0
    } else {
        (regions[0].length + PAGE_SIZE - 1) / (PAGE_SIZE as int) + spec_region_pages(
            regions.skip(1),
        )
    }
}

/// Length in bytes of the page ownership tracker: one byte per page of main
/// RAM and of every region, rounded up to whole words.
pub open spec fn spec_rpt_len(cfg: BootConfig) -> int {
    let rpt = cfg.sram_size as int / (PAGE_SIZE as int) + spec_region_pages(cfg.regions@);
    ((rpt + WORD_BYTES - 1) / (WORD_BYTES as int)) * (WORD_BYTES as int)
}

/// The region page count is never negative.
pub proof fn lemma_region_pages_nonneg(regions: Seq<MemRegion>)
    ensures
        spec_region_pages(regions) >= 0,
    decreases regions.len(),
{
    if regions.len() > 0 {
        lemma_region_pages_nonneg(regions.skip(1));
    }
}

/// The region page count of a prefix grows by the next region's pages.
proof fn lemma_region_pages_take_step(regions: Seq<MemRegion>, i: int)
    requires
        0 <= i < regions.len(),
    ensures
        spec_region_pages(regions.take(i + 1)) == spec_region_pages(regions.take(i)) + (regions[i].length
            + PAGE_SIZE - 1) / (PAGE_SIZE as int),
    decreases i,
{
    if i == 0 {
        assert(regions.take(1).skip(1) =~= Seq::<MemRegion>::empty());
        assert(regions.take(1)[0] == regions[0]);
        assert(regions.take(0) =~= Seq::<MemRegion>::empty());
    } else {
        assert(regions.take(i + 1)[0] == regions[0]);
        assert(regions.take(i)[0] == regions[0]);
        assert(regions.take(i + 1).skip(1) =~= regions.skip(1).take(i));
        assert(regions.take(i).skip(1) =~= regions.skip(1).take(i - 1));
        assert(regions.skip(1)[i - 1] == regions[i]);
        lemma_region_pages_take_step(regions.skip(1), i - 1);
    }
}

/// A prefix never counts more pages than the whole list.
proof fn lemma_region_pages_prefix(regions: Seq<MemRegion>, i: int)
    requires
        0 <= i <= regions.len(),
    ensures
        spec_region_pages(regions.take(i)) <= spec_region_pages(regions),
    decreases regions.len(),
{
    if i == 0 {
        assert(regions.take(0) =~= Seq::<MemRegion>::empty());
        lemma_region_pages_nonneg(regions);
    } else {
        assert(regions.take(i)[0] == regions[0]);
        assert(regions.take(i).skip(1) =~= regions.skip(1).take(i - 1));
        lemma_region_pages_prefix(regions.skip(1), i - 1);
    }
}

/// The mutable record threaded through the whole loader.
pub struct BootConfig {
    /// Physical address of the bottom of main RAM.
    pub sram_start: usize,
    /// Size of main RAM in bytes; a whole number of pages.
    pub sram_size: usize,
    /// The bytes of main RAM, indexed from `sram_start`.
    pub ram: Vec<u8>,
    /// Additional memory regions the page tracker must cover.
    pub regions: Vec<MemRegion>,
    /// The active argument stream.
    pub args: Vec<u8>,
    /// The boot image the argument stream's load offsets point into.
    pub image: Vec<u8>,
    /// Bytes consumed downward from the top of RAM.
    pub init_size: usize,
    /// Whole pages handed to the process currently being copied.
    pub extra_pages: usize,
    /// Number of initial processes named by the argument stream.
    pub init_process_count: usize,
    /// One owner byte per physical page, index 0 being the highest page.
    pub runtime_page_tracker: Vec<u8>,
    /// One descriptor per process, entry 0 being the kernel.
    pub processes: Vec<InitialProcess>,
    /// The swap configuration, when the platform has one.
    pub swap: Option<SwapCfg>,
    /// Next unused page index inside the swap RAM region.
    pub swap_free_page: usize,
    /// The swap page table entries recorded so far.
    pub swap_mappings: Vec<SwapMapping>,
    /// When set, process data stays in FLASH and nothing is copied.
    pub no_copy: bool,
    /// Every range the allocator has handed out, in order.
    pub reserved: Ghost<Seq<AllocRange>>,
}

impl BootConfig {
    /// Builds a fresh boot configuration over a zeroed RAM arena. Fails when
    /// RAM is not whole pages, when the address space overflows 32 bits, or
    /// when a region does.
    pub fn new(
        sram_start: usize,
        sram_size: usize,
        regions: Vec<MemRegion>,
        args: Vec<u8>,
        image: Vec<u8>,
        swap: Option<crate::swap::SwapCfg>,
        no_copy: bool,
    ) -> (r: Result<BootConfig, LoaderError>)
        ensures
            r is Ok <==> sram_size as int % (PAGE_SIZE as int) == 0 && sram_start + sram_size
                <= 0xFFFF_FFFF && (forall|i: int|
                0 <= i < regions@.len() ==> (#[trigger] regions@[i]).start + regions@[i].length
                    <= 0xFFFF_FFFF),
            r is Err ==> r == Err::<BootConfig, LoaderError>(LoaderError::OutOfRam),
            r matches Ok(cfg) ==> {
                &&& cfg.wf()
                &&& cfg == (BootConfig {
                    sram_start,
                    sram_size,
                    ram: cfg.ram,
                    regions: cfg.regions,
                    args: cfg.args,
                    image: cfg.image,
                    init_size: 0,
                    extra_pages: 0,
                    init_process_count: 0,
                    runtime_page_tracker: cfg.runtime_page_tracker,
                    processes: cfg.processes,
                    swap: cfg.swap,
                    swap_free_page: 0,
                    swap_mappings: cfg.swap_mappings,
                    no_copy,
                    reserved: cfg.reserved,
                })
                &&& cfg.ram@ == crate::bytes::zeros(sram_size as int)
                &&& cfg.regions == regions
                &&& cfg.args == args
                &&& cfg.image == image
                &&& cfg.swap == swap
                &&& cfg.runtime_page_tracker@ == Seq::<u8>::empty()
                &&& cfg.processes@ == Seq::<InitialProcess>::empty()
                &&& cfg.swap_mappings@ == Seq::<SwapMapping>::empty()
                &&& cfg.reserved@ == Seq::<AllocRange>::empty()
            },
    {
        if sram_size % PAGE_SIZE != 0 {
            return Err(LoaderError::OutOfRam);
        }
        if sram_start > 0xFFFF_FFFF || sram_size > 0xFFFF_FFFF - sram_start {
            return Err(LoaderError::OutOfRam);
        }
        let mut i: usize = 0;
        while i < regions.len()
            invariant
                i <= regions@.len(),
                forall|k: int|
                    0 <= k < i ==> (#[trigger] regions@[k]).start + regions@[k].length
                        <= 0xFFFF_FFFF,
            decreases regions@.len() - i,
        {
            let reg = regions[i];
            if reg.start > 0xFFFF_FFFF || reg.length > 0xFFFF_FFFF - reg.start {
                return Err(LoaderError::OutOfRam);
            }
            i = i + 1;
        }
        let ram = crate::bytes::zero_vec(sram_size);
        Ok(
            BootConfig {
                sram_start,
                sram_size,
                ram,
                regions,
                args,
                image,
                init_size: 0,
                extra_pages: 0,
                init_process_count: 0,
                runtime_page_tracker: Vec::new(),
                processes: Vec::new(),
                swap,
                swap_free_page: 0,
                swap_mappings: Vec::new(),
                no_copy,
                reserved: Ghost(Seq::empty()),
            },
        )
    }

    /// Index of the lowest allocated byte of RAM: everything at or above
    /// this index has been handed out.
    pub open spec fn spec_top(self) -> int {
        self.sram_size - self.init_size - self.extra_pages * (PAGE_SIZE as int)
    }

    /// The allocator's accounting is sound: RAM is whole pages, the arena
    /// matches it, nothing allocated overruns the bottom, and the logged
    /// ranges descend from the top, pairwise disjoint, each above the
    /// current watermark.
    pub open spec fn wf(self) -> bool {
        &&& self.sram_size as int % (PAGE_SIZE as int) == 0
        &&& self.sram_start + self.sram_size <= 0xFFFF_FFFF
        &&& self.ram@.len() == self.sram_size
        &&& self.init_size + self.extra_pages * (PAGE_SIZE as int) <= self.sram_size
        &&& forall|i: int|
            0 <= i < self.regions@.len() ==> (#[trigger] self.regions@[i]).start
                + self.regions@[i].length <= 0xFFFF_FFFF
        &&& forall|i: int|
            0 <= i < self.reserved@.len() ==> (#[trigger] self.reserved@[i]).len >= 0
        &&& forall|i: int|
            0 <= i < self.reserved@.len() ==> (#[trigger] self.reserved@[i]).start
                >= self.spec_top()
        &&& forall|i: int|
            0 <= i < self.reserved@.len() ==> (#[trigger] self.reserved@[i]).start
                + self.reserved@[i].len <= self.sram_size
        &&& forall|i: int, j: int|
            0 <= i < j < self.reserved@.len() ==> (#[trigger] self.reserved@[j]).start
                + self.reserved@[j].len <= (#[trigger] self.reserved@[i]).start
    }

    /// Index of the lowest allocated byte of RAM.
    pub fn get_top(&self) -> (r: usize)
        requires
            self.wf(),
        ensures
            r == self.spec_top(),
    {
        self.sram_size - self.init_size - self.extra_pages * PAGE_SIZE
    }

    /// Advances the allocation watermark by `n` bytes and returns the index
    /// of the range handed out. Fails, changing nothing, when the range
    /// would fall below the bottom of RAM.
    pub fn try_reserve(&mut self, n: usize) -> (r: Result<usize, LoaderError>)
        requires
            old(self).wf(),
        ensures
            final(self).wf(),
            r is Ok <==> old(self).init_size + old(self).extra_pages * (PAGE_SIZE as int) + n
                <= old(self).sram_size,
            r is Err ==> *final(self) == *old(self) && r == Err::<usize, LoaderError>(
                LoaderError::OutOfRam,
            ),
            r matches Ok(start) ==> {
                &&& final(self).init_size == old(self).init_size + n
                &&& start == final(self).spec_top()
                &&& start + n == old(self).spec_top()
                &&& final(self).reserved@ == old(self).reserved@.push(
                    AllocRange { start: start as int, len: n as int },
                )
                &&& *final(self) == (BootConfig {
                    init_size: final(self).init_size,
                    reserved: final(self).reserved,
                    ..*old(self)
                })
            },
    {
        proof {
            assert(self.extra_pages * (PAGE_SIZE as int) <= self.sram_size);
        }
        if n > self.sram_size {
            return Err(LoaderError::OutOfRam);
        }
        let need: u64 = self.init_size as u64 + (self.extra_pages as u64) * (PAGE_SIZE as u64)
            + n as u64;
        if need > self.sram_size as u64 {
            return Err(LoaderError::OutOfRam);
        }
        self.init_size = self.init_size + n;
        let start = self.get_top();
        proof {
            self.reserved@ = old(self).reserved@.push(
                AllocRange { start: start as int, len: n as int },
            );
        }
        Ok(start)
    }

    /// Hands out one fresh page for the process being copied and returns its
    /// index. Fails, changing nothing, when RAM is exhausted.
    pub fn alloc_page(&mut self) -> (r: Result<usize, LoaderError>)
        requires
            old(self).wf(),
        ensures
            final(self).wf(),
            r is Ok <==> old(self).init_size + old(self).extra_pages * (PAGE_SIZE as int)
                + PAGE_SIZE <= old(self).sram_size,
            r is Err ==> *final(self) == *old(self) && r == Err::<usize, LoaderError>(
                LoaderError::OutOfRam,
            ),
            r matches Ok(start) ==> {
                &&& final(self).extra_pages == old(self).extra_pages + 1
                &&& start == final(self).spec_top()
                &&& start + PAGE_SIZE == old(self).spec_top()
                &&& final(self).reserved@ == old(self).reserved@.push(
                    AllocRange { start: start as int, len: PAGE_SIZE as int },
                )
                &&& *final(self) == (BootConfig {
                    extra_pages: final(self).extra_pages,
                    reserved: final(self).reserved,
                    ..*old(self)
                })
            },
    {
        proof {
            assert(self.extra_pages * (PAGE_SIZE as int) <= self.sram_size);
        }
        let need: u64 = self.init_size as u64 + (self.extra_pages as u64) * (PAGE_SIZE as u64)
            + PAGE_SIZE as u64;
        if need > self.sram_size as u64 {
            return Err(LoaderError::OutOfRam);
        }
        self.extra_pages = self.extra_pages + 1;
        let start = self.get_top();
        proof {
            self.reserved@ = old(self).reserved@.push(
                AllocRange { start: start as int, len: PAGE_SIZE as int },
            );
        }
        Ok(start)
    }

    /// Rounds the allocation watermark up to the next page boundary, so that
    /// everything below it is handed out in whole pages.
    pub fn align_up_to_page(&mut self)
        requires
            old(self).wf(),
            old(self).extra_pages == 0,
        ensures
            final(self).wf(),
            final(self).init_size == crate::spec_page_round_up(old(self).init_size as int),
            *final(self) == (BootConfig { init_size: final(self).init_size, ..*old(self) }),
    {
        let rounded = crate::page_round_up(self.init_size);
        assert(rounded <= self.sram_size) by {
            assert(self.init_size <= self.sram_size);
            assert(self.sram_size as int % (PAGE_SIZE as int) == 0);
            assert(crate::spec_page_round_up(self.init_size as int) <= self.sram_size) by {
                let p = PAGE_SIZE as int;
                let s = self.sram_size as int;
                let n = self.init_size as int;
                assert(s == (s / p) * p);
                assert((n + p - 1) / p <= s / p) by {
                    assert(n + p - 1 < s + p);
                };
            };
        };
        self.init_size = rounded;
    }

    /// Allocates and zeroes the page ownership tracker: one byte per page
    /// of main RAM and of every additional region, rounded up to a whole
    /// number of words.
    pub fn allocate_regions(&mut self) -> (r: Result<(), LoaderError>)
        requires
            old(self).wf(),
        ensures
            final(self).wf(),
            r is Ok <==> old(self).init_size + old(self).extra_pages * (PAGE_SIZE as int)
                + spec_rpt_len(*old(self)) <= old(self).sram_size,
            r is Err ==> *final(self) == *old(self) && r == Err::<(), LoaderError>(
                LoaderError::OutOfRam,
            ),
            r is Ok ==> {
                &&& final(self).init_size == old(self).init_size + spec_rpt_len(*old(self))
                &&& final(self).runtime_page_tracker@ == crate::bytes::zeros(
                    spec_rpt_len(*old(self)),
                )
                &&& *final(self) == (BootConfig {
                    init_size: final(self).init_size,
                    runtime_page_tracker: final(self).runtime_page_tracker,
                    reserved: final(self).reserved,
                    ..*old(self)
                })
            },
    {
        let ghost cfg0 = *self;
        let mut acc: u64 = (self.sram_size / PAGE_SIZE) as u64;
        let mut i: usize = 0;
        proof {
            lemma_region_pages_nonneg(self.regions@);
            assert(self.regions@.take(0) =~= Seq::<MemRegion>::empty());
        }
        while i < self.regions.len()
            invariant
                self.wf(),
                *self == cfg0,
                i <= self.regions@.len(),
                acc == self.sram_size as int / (PAGE_SIZE as int) + spec_region_pages(
                    self.regions@.take(i as int),
                ),
                acc <= self.sram_size,
            decreases self.regions@.len() - i,
        {
            let pages: u64 = (self.regions[i].length as u64 + (PAGE_SIZE - 1) as u64)
                / PAGE_SIZE as u64;
            proof {
                lemma_region_pages_take_step(self.regions@, i as int);
                lemma_region_pages_nonneg(self.regions@.take(i as int));
                lemma_region_pages_prefix(self.regions@, i + 1);
            }
            acc = acc + pages;
            i = i + 1;
            if acc > self.sram_size as u64 {
                proof {
                    assert(spec_region_pages(self.regions@.take(i as int)) <= spec_region_pages(
                        self.regions@,
                    ));
                    assert(spec_rpt_len(*self) > self.sram_size);
                }
                return Err(LoaderError::OutOfRam);
            }
        }
        assert(self.regions@.take(self.regions@.len() as int) =~= self.regions@);
        let rpt: u64 = ((acc + (WORD_BYTES - 1) as u64) / WORD_BYTES as u64) * WORD_BYTES as u64;
        assert(rpt == spec_rpt_len(*self));
        let rpt_len = rpt as usize;
        match self.try_reserve(rpt_len) {
            Ok(_) => {
                self.runtime_page_tracker = crate::bytes::zero_vec(rpt_len);
                Ok(())
            },
            Err(e) => {
                proof {
                    assert(*self == cfg0);
                }
                Err(e)
            },
        }
    }

    /// Allocates and zero-fills the process descriptor table, one entry per
    /// initial process plus one for the kernel.
    pub fn allocate_processes(&mut self) -> (r: Result<(), LoaderError>)
        requires
            old(self).wf(),
            old(self).init_process_count <= 254,
        ensures
            final(self).wf(),
            r is Ok <==> old(self).init_size + old(self).extra_pages * (PAGE_SIZE as int) + (old(
                self,
            ).init_process_count + 1) * DESC_BYTES <= old(self).sram_size,
            r is Err ==> *final(self) == *old(self) && r == Err::<(), LoaderError>(
                LoaderError::OutOfRam,
            ),
            r is Ok ==> {
                &&& final(self).init_size == old(self).init_size + (old(self).init_process_count
                    + 1) * DESC_BYTES
                &&& final(self).processes@.len() == old(self).init_process_count + 1
                &&& forall|i: int|
                    0 <= i < final(self).processes@.len() ==> final(self).processes@[i]
                        == (InitialProcess { satp: 0, entrypoint: 0, sp: 0, env: 0, swap_root: 0 })
                &&& *final(self) == (BootConfig {
                    init_size: final(self).init_size,
                    processes: final(self).processes,
                    reserved: final(self).reserved,
                    ..*old(self)
                })
            },
    {
        let count = self.init_process_count + 1;
        let table_size = count * DESC_BYTES;
        let _ = self.try_reserve(table_size)?;
        let mut procs: Vec<InitialProcess> = Vec::new();
        let mut i: usize = 0;
        while i < count
            invariant
                i <= count,
                procs@.len() == i,
                forall|k: int|
                    0 <= k < i ==> procs@[k] == (InitialProcess {
                        satp: 0,
                        entrypoint: 0,
                        sp: 0,
                        env: 0,
                        swap_root: 0,
                    }),
            decreases count - i,
        {
            procs.push(InitialProcess::default());
            i = i + 1;
        }
        self.processes = procs;
        Ok(())
    }

    /// Allocates one page-table-sized block per process for the swap page
    /// tables and stores each block's address in its descriptor.
    pub fn allocate_swap(&mut self) -> (r: Result<(), LoaderError>)
        requires
            old(self).wf(),
            old(self).processes@.len() <= 255,
        ensures
            final(self).wf(),
            r is Ok <==> old(self).init_size + old(self).extra_pages * (PAGE_SIZE as int) + old(
                self,
            ).processes@.len() * (PAGE_SIZE as int) <= old(self).sram_size,
            r is Err ==> *final(self) == *old(self) && r == Err::<(), LoaderError>(
                LoaderError::OutOfRam,
            ),
            r is Ok ==> {
                &&& final(self).init_size == old(self).init_size + old(self).processes@.len() * (
                PAGE_SIZE as int)
                &&& final(self).processes@.len() == old(self).processes@.len()
                &&& forall|i: int|
                    0 <= i < final(self).processes@.len() ==> final(self).processes@[i]
                        == (InitialProcess {
                        swap_root: (old(self).sram_start + final(self).spec_top() + i * (
                        PAGE_SIZE as int)) as usize,
                        ..old(self).processes@[i]
                    })
                &&& *final(self) == (BootConfig {
                    init_size: final(self).init_size,
                    processes: final(self).processes,
                    reserved: final(self).reserved,
                    ..*old(self)
                })
            },
    {
        let count = self.processes.len();
        let swap_pt_size = count * PAGE_SIZE;
        let base = self.try_reserve(swap_pt_size)?;
        let ghost mid = *self;
        let mut i: usize = 0;
        while i < count
            invariant
                i <= count,
                count == self.processes@.len(),
                self.wf(),
                self.sram_start + self.sram_size <= 0xFFFF_FFFF,
                base + count * PAGE_SIZE <= self.sram_size,
                forall|k: int|
                    0 <= k < i ==> self.processes@[k] == (InitialProcess {
                        swap_root: (self.sram_start + base + k * (PAGE_SIZE as int)) as usize,
                        ..mid.processes@[k]
                    }),
                forall|k: int| i <= k < count ==> self.processes@[k] == mid.processes@[k],
                *self == (BootConfig { processes: self.processes, ..mid }),
            decreases count - i,
        {
            let root = self.sram_start + base + i * PAGE_SIZE;
            let entry = InitialProcess {
                satp: self.processes[i].satp,
                entrypoint: self.processes[i].entrypoint,
                sp: self.processes[i].sp,
                env: self.processes[i].env,
                swap_root: root,
            };
            self.processes[i] = entry;
            i = i + 1;
        }
        Ok(())
    }

    /// Marks every allocated page as owned by the kernel, skipping the four
    /// guard pages at the very top of RAM. Page index 0 of the tracker is
    /// the highest page.
    pub fn mark_pages(&mut self)
        requires
            old(self).wf(),
            old(self).runtime_page_tracker@.len() >= old(self).sram_size as int / (
            PAGE_SIZE as int),
        ensures
            final(self).wf(),
            final(self).runtime_page_tracker@.len() == old(self).runtime_page_tracker@.len(),
            forall|j: int|
                0 <= j < final(self).runtime_page_tracker@.len()
                    ==> final(self).runtime_page_tracker@[j] == ({
                    let s = old(self).sram_size as int / (PAGE_SIZE as int);
                    let k = old(self).init_size as int / (PAGE_SIZE as int);
                    if s - k < j <= s - 4 {
                        1u8
                    } else {
                        old(self).runtime_page_tracker@[j]
                    }
                }),
            *final(self) == (BootConfig {
                runtime_page_tracker: final(self).runtime_page_tracker,
                ..*old(self)
            }),
    {
        let s = self.sram_size / PAGE_SIZE;
        let k = self.init_size / PAGE_SIZE;
        let mut i: usize = 4;
        while i < k
            invariant
                4 <= i <= (if k > 4 {
                    k
                } else {
                    4
                }),
                s == old(self).sram_size as int / (PAGE_SIZE as int),
                k == old(self).init_size as int / (PAGE_SIZE as int),
                k <= s,
                self.runtime_page_tracker@.len() >= s,
                self.runtime_page_tracker@.len() == old(self).runtime_page_tracker@.len(),
                forall|j: int|
                    0 <= j < self.runtime_page_tracker@.len() ==> self.runtime_page_tracker@[j]
                        == (if s - i < j <= s - 4 {
                        1u8
                    } else {
                        old(self).runtime_page_tracker@[j]
                    }),
                *self == (BootConfig {
                    runtime_page_tracker: self.runtime_page_tracker,
                    ..*old(self)
                }),
            decreases k - i,
        {
            self.runtime_page_tracker[s - i] = 1u8;
            i = i + 1;
        }
    }

    /// Every range the allocator has handed out lies inside main RAM, and
    /// the ranges are pairwise disjoint, each one wholly below all the
    /// ranges handed out before it.
    pub proof fn lemma_reservations_disjoint(self)
        requires
            self.wf(),
        ensures
            forall|i: int|
                0 <= i < self.reserved@.len() ==> 0 <= (#[trigger] self.reserved@[i]).start
                    && self.reserved@[i].start + self.reserved@[i].len <= self.sram_size,
            forall|i: int, j: int|
                0 <= i < self.reserved@.len() && 0 <= j < self.reserved@.len() && i != j ==> ((
                #[trigger] self.reserved@[i]).start + self.reserved@[i].len <= (
                #[trigger] self.reserved@[j]).start || self.reserved@[j].start
                    + self.reserved@[j].len <= self.reserved@[i].start),
    {
        assert forall|i: int|
            0 <= i < self.reserved@.len() implies 0 <= (#[trigger] self.reserved@[i]).start
            && self.reserved@[i].start + self.reserved@[i].len <= self.sram_size by {
            assert(self.reserved@[i].start >= self.spec_top());
            assert(self.spec_top() >= 0);
        };
    }
}

} // verus!
