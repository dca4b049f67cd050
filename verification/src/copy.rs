//! Copying resident processes out of the boot image.
//!
//! Resident processes are copied section by section into pages allocated
//! downward from the top of RAM; execute-in-place processes leave their
//! read-only sections in FLASH. The kernel is copied as two page-rounded
//! blocks.
//!
//! Each copy is specified by a small interpreter over the protocol: a
//! recursive function that consumes one chunk or one section at a time and
//! yields either the next state or the error the loader stops with. The
//! executable loops are proved to follow those interpreters step by step.

use vstd::prelude::*;

use crate::bootconfig::BootConfig;
use crate::bytes::{copy_into, splice, zero_range, zeros};
use crate::errors::LoaderError;
use crate::minielf::{sections_monotonic, MiniElf, Section};
use crate::PAGE_SIZE;

verus! {

/// The running state of a resident-process copy: the RAM arena, the pages
/// taken so far, the page-sharing trackers and the source cursor.
pub struct LoadSt {
    /// The bytes of main RAM.
    pub ram: Seq<u8>,
    /// Whole pages handed out for process data so far.
    pub extra: int,
    /// End of the address range last written to a fresh page; decides
    /// whether the next section may share the current page.
    pub last_page_vaddr: int,
    /// Whether the previous section ended exactly at a page boundary.
    pub fit: bool,
    /// End of the address range of the last section, whatever its kind;
    /// every section must start at or after it.
    pub last_virt: int,
    /// Byte offset of the next unread source byte in the image.
    pub src: int,
    /// Destination virtual address of the next byte of the current section.
    pub va: int,
}

/// Index of the lowest allocated RAM byte for a copy that started with
/// `t0 = sram_size - init_size` and has taken `extra` pages.
pub open spec fn load_top(t0: int, extra: int) -> int {
    t0 - extra * (PAGE_SIZE as int)
}

/// One fresh zeroed page taken from the top of RAM, or the out-of-RAM
/// error when it would fall below the bottom.
pub open spec fn spec_alloc_zero(t0: int, st: LoadSt) -> Result<LoadSt, LoaderError> {
    if load_top(t0, st.extra + 1) < 0 {
        Err(LoaderError::OutOfRam)
    } else {
        Ok(
            LoadSt {
                ram: splice(st.ram, load_top(t0, st.extra + 1), zeros(PAGE_SIZE as int)),
                extra: st.extra + 1,
                ..st
            },
        )
    }
}

/// The chunk loop of one copied section: each step copies what is left of
/// the current destination page or of the section, whichever ends first,
/// taking and zeroing a fresh page whenever the section runs past the
/// current one. The zero fill of a fresh page is skipped when the section
/// still has a whole page of data, which will overwrite it entirely.
pub open spec fn sec_chunks(
    t0: int,
    img: Seq<u8>,
    st: LoadSt,
    remaining: int,
    nocopy: bool,
) -> Result<LoadSt, LoaderError>
    decreases remaining,
{
    if remaining <= 0 {
        Ok(st)
    } else if st.extra <= 0 {
        Err(LoaderError::OutOfRam)
    } else {
        let avail = PAGE_SIZE - (st.va % (PAGE_SIZE as int));
        let n = if avail < remaining {
            avail
        } else {
            remaining
        };
        if !nocopy && st.src + n > img.len() {
            Err(LoaderError::BadFraming)
        } else {
            let top = load_top(t0, st.extra);
            let st1 = LoadSt {
                ram: if nocopy {
                    st.ram
                } else {
                    splice(
                        st.ram,
                        top + st.va % (PAGE_SIZE as int),
                        img.subrange(st.src, st.src + n),
                    )
                },
                src: if nocopy {
                    st.src
                } else {
                    st.src + n
                },
                va: st.va + n,
                fit: avail == remaining,
                ..st
            };
            let rem1 = remaining - n;
            if n == avail && rem1 > 0 {
                match spec_alloc_zero(t0, st1) {
                    Ok(st2) => {
                        let st3 = if rem1 < PAGE_SIZE {
                            st2
                        } else {
                            LoadSt { ram: st1.ram, ..st2 }
                        };
                        sec_chunks(t0, img, st3, rem1, nocopy)
                    },
                    Err(e) => Err(e),
                }
            } else {
                sec_chunks(t0, img, st1, rem1, nocopy)
            }
        }
    }
}

/// One section of a resident or execute-in-place process: the monotonicity
/// check, then either the chunk loop into RAM or, for a read-only section
/// of an execute-in-place process, a plain advance of the source cursor.
pub open spec fn load_section(
    t0: int,
    img: Seq<u8>,
    st: LoadSt,
    sec: Section,
    copy_all: bool,
) -> Result<LoadSt, LoaderError> {
    if sec.virt < st.last_virt {
        Err(LoaderError::NonMonotonicSections)
    } else if sec.virt + sec.len > 0xFFFF_FFFF {
        Err(LoaderError::BadFraming)
    } else if sec.spec_copy_to_ram(copy_all) {
        let need_page = st.last_page_vaddr / (PAGE_SIZE as int) != sec.virt as int / (
        PAGE_SIZE as int) || st.fit;
        let got = if need_page {
            spec_alloc_zero(t0, st)
        } else {
            Ok(st)
        };
        match got {
            Ok(st1) => {
                match sec_chunks(
                    t0,
                    img,
                    LoadSt { va: sec.virt as int, ..st1 },
                    sec.len as int,
                    sec.spec_no_copy(),
                ) {
                    Ok(st2) => Ok(
                        LoadSt {
                            last_page_vaddr: st2.va,
                            last_virt: sec.virt + sec.len,
                            va: 0,
                            ..st2
                        },
                    ),
                    Err(e) => Err(e),
                }
            },
            Err(e) => Err(e),
        }
    } else {
        if st.src + sec.len > img.len() {
            Err(LoaderError::BadFraming)
        } else {
            Ok(LoadSt { src: st.src + sec.len, last_virt: sec.virt + sec.len, va: 0, ..st })
        }
    }
}

/// The sections of one process, in order.
pub open spec fn load_sections(
    t0: int,
    img: Seq<u8>,
    st: LoadSt,
    secs: Seq<Section>,
    copy_all: bool,
) -> Result<LoadSt, LoaderError>
    decreases secs.len(),
{
    if secs.len() == 0 {
        Ok(st)
    } else {
        match load_section(t0, img, st, secs[0], copy_all) {
            Ok(st1) => load_sections(t0, img, st1, secs.skip(1), copy_all),
            Err(e) => Err(e),
        }
    }
}

/// Sections accepted from a watermark onward start at or after it and at or
/// after the end of each one before them.
pub open spec fn monotonic_from(lv: int, secs: Seq<Section>) -> bool
    decreases secs.len(),
{
    secs.len() == 0 || (secs[0].virt >= lv && monotonic_from(
        secs[0].virt + secs[0].len,
        secs.skip(1),
    ))
}

/// A section list accepted by the loader passes every monotonicity check.
proof fn lemma_load_sections_monotonic_from(
    t0: int,
    img: Seq<u8>,
    st: LoadSt,
    secs: Seq<Section>,
    copy_all: bool,
)
    requires
        load_sections(t0, img, st, secs, copy_all) is Ok,
    ensures
        monotonic_from(st.last_virt, secs),
    decreases secs.len(),
{
    if secs.len() > 0 {
        let st1 = load_section(t0, img, st, secs[0], copy_all);
        lemma_load_sections_monotonic_from(t0, img, st1.unwrap(), secs.skip(1), copy_all);
        assert(st1.unwrap().last_virt == secs[0].virt + secs[0].len);
    }
}

/// Sections that pass every watermark check are laid out in ascending
/// order.
pub proof fn lemma_monotonic_from_sections(lv: int, secs: Seq<Section>)
    requires
        monotonic_from(lv, secs),
    ensures
        sections_monotonic(secs),
    decreases secs.len(),
{
    if secs.len() > 0 {
        let tail = secs.skip(1);
        lemma_monotonic_from_sections(secs[0].virt + secs[0].len, tail);
        assert forall|i: int|
            0 < i < secs.len() implies (#[trigger] secs[i]).virt >= secs[i - 1].virt + secs[i
            - 1].len by {
            if i == 1 {
                assert(monotonic_from(secs[0].virt + secs[0].len, tail));
                if tail.len() > 0 {
                    assert(tail[0].virt >= secs[0].virt + secs[0].len);
                }
                assert(tail[0] == secs[1]);
            } else {
                assert(sections_monotonic(tail));
                assert(tail[i - 1] == secs[i]);
                assert(tail[i - 2] == secs[i - 1]);
                assert(tail[i - 1].virt >= tail[i - 2].virt + tail[i - 2].len);
            }
        };
    }
}

/// Every process image the loader accepts lists its sections in ascending
/// virtual-address order.
pub proof fn lemma_accepted_sections_monotonic(
    t0: int,
    img: Seq<u8>,
    st: LoadSt,
    secs: Seq<Section>,
    copy_all: bool,
)
    requires
        st.last_virt <= 0,
        load_sections(t0, img, st, secs, copy_all) is Ok,
    ensures
        sections_monotonic(secs),
{
    lemma_load_sections_monotonic_from(t0, img, st, secs, copy_all);
    lemma_monotonic_from_sections(st.last_virt, secs);
}

/// The state a process copy starts from.
pub open spec fn load_start(ram: Seq<u8>, extra: int, load_offset: int) -> LoadSt {
    LoadSt {
        ram,
        extra,
        last_page_vaddr: 0,
        fit: false,
        last_virt: 0,
        src: load_offset,
        va: 0,
    }
}

/// Processes one section of a resident or execute-in-place process,
/// following the section interpreter exactly: the trackers and the source
/// cursor advance as it says, and the loader stops with the error it names.
#[verifier::rlimit(100)]
fn load_one_section(
    cfg: &mut BootConfig,
    sec: Section,
    copy_all: bool,
    lpv: &mut usize,
    fit: &mut bool,
    lv: &mut usize,
    src: &mut usize,
) -> (r: Result<(), LoaderError>)
    requires
        old(cfg).wf(),
        old(cfg).init_size as int % (PAGE_SIZE as int) == 0,
        *old(lpv) <= 0xFFFF_FFFF,
        *old(lv) <= 0xFFFF_FFFF,
        sec.len <= 0xFFFF_FFFF,
    ensures
        final(cfg).wf(),
        final(cfg).ram@.len() == old(cfg).ram@.len(),
        final(cfg).init_size == old(cfg).init_size,
        *final(cfg) == (BootConfig {
            ram: final(cfg).ram,
            extra_pages: final(cfg).extra_pages,
            reserved: final(cfg).reserved,
            ..*old(cfg)
        }),
        ({
            let t0 = old(cfg).sram_size - old(cfg).init_size;
            let st = LoadSt {
                ram: old(cfg).ram@,
                extra: old(cfg).extra_pages as int,
                last_page_vaddr: *old(lpv) as int,
                fit: *old(fit),
                last_virt: *old(lv) as int,
                src: *old(src) as int,
                va: 0,
            };
            match load_section(t0, old(cfg).image@, st, sec, copy_all) {
                Ok(st1) => {
                    &&& r is Ok
                    &&& final(cfg).ram@ == st1.ram
                    &&& final(cfg).extra_pages == st1.extra
                    &&& *final(lpv) == st1.last_page_vaddr
                    &&& *final(fit) == st1.fit
                    &&& *final(lv) == st1.last_virt
                    &&& *final(src) == st1.src
                    &&& *final(lpv) <= 0xFFFF_FFFF
                    &&& *final(lv) <= 0xFFFF_FFFF
                },
                Err(e) => r == Err::<(), LoaderError>(e),
            }
        }),
{
    let ghost t0 = old(cfg).sram_size - old(cfg).init_size;
    let ghost st_in = LoadSt {
        ram: old(cfg).ram@,
        extra: old(cfg).extra_pages as int,
        last_page_vaddr: *old(lpv) as int,
        fit: *old(fit),
        last_virt: *old(lv) as int,
        src: *old(src) as int,
        va: 0,
    };
    let ghost sgoal = load_section(t0, old(cfg).image@, st_in, sec, copy_all);
    // the monotonicity check
    if sec.virt < *lv {
        assert(sgoal == Err::<LoadSt, LoaderError>(LoaderError::NonMonotonicSections));
        return Err(LoaderError::NonMonotonicSections);
    }
    // addresses must stay within the 32-bit physical space
    if sec.virt > 0xFFFF_FFFF - sec.len {
        assert(sgoal == Err::<LoadSt, LoaderError>(LoaderError::BadFraming));
        return Err(LoaderError::BadFraming);
    }
    if sec.copy_to_ram(copy_all) {
        // take a fresh zeroed page unless the section continues in the page
        // the previous one ended in
        let need_page = *lpv / PAGE_SIZE != sec.virt / PAGE_SIZE || *fit;
        proof {
            assert(need_page == (st_in.last_page_vaddr / (PAGE_SIZE as int) != sec.virt as int / (
            PAGE_SIZE as int) || st_in.fit));
        }
        if need_page {
            match cfg.alloc_page() {
                Ok(top) => {
                    proof {
                        assert(top + PAGE_SIZE <= cfg.ram@.len());
                    }
                    zero_range(&mut cfg.ram, top, PAGE_SIZE);
                    proof {
                        assert(spec_alloc_zero(t0, st_in) is Ok);
                        assert(cfg.ram@ == spec_alloc_zero(t0, st_in).unwrap().ram);
                    }
                },
                Err(e) => {
                    assert(spec_alloc_zero(t0, st_in) == Err::<LoadSt, LoaderError>(
                        LoaderError::OutOfRam,
                    ));
                    assert(sgoal == Err::<LoadSt, LoaderError>(e));
                    return Err(e);
                },
            }
        }
        let ghost st1 = if need_page {
            spec_alloc_zero(t0, st_in).unwrap()
        } else {
            st_in
        };
        proof {
            assert(cfg.ram@ == st1.ram);
            assert(cfg.extra_pages as int == st1.extra);
        }
        let mut va: usize = sec.virt;
        let mut remaining: usize = sec.len;
        let nocopy = sec.no_copy();
        let ghost st_c0 = LoadSt { va: sec.virt as int, ..st1 };
        let ghost cgoal = sec_chunks(t0, old(cfg).image@, st_c0, sec.len as int, nocopy);
        proof {
            assert(sgoal == match cgoal {
                Ok(st2) => Ok::<LoadSt, LoaderError>(
                    LoadSt {
                        last_page_vaddr: st2.va,
                        last_virt: sec.virt + sec.len,
                        va: 0,
                        ..st2
                    },
                ),
                Err(e) => Err(e),
            });
        }
        while remaining > 0
            invariant
                cfg.wf(),
                sgoal == load_section(
                    t0,
                    old(cfg).image@,
                    LoadSt {
                        ram: old(cfg).ram@,
                        extra: old(cfg).extra_pages as int,
                        last_page_vaddr: *old(lpv) as int,
                        fit: *old(fit),
                        last_virt: *old(lv) as int,
                        src: *old(src) as int,
                        va: 0,
                    },
                    sec,
                    copy_all,
                ),
                sgoal == (match cgoal {
                    Ok(st2) => Ok::<LoadSt, LoaderError>(
                        LoadSt {
                            last_page_vaddr: st2.va,
                            last_virt: sec.virt + sec.len,
                            va: 0,
                            ..st2
                        },
                    ),
                    Err(e) => Err(e),
                }),
                cfg.init_size == old(cfg).init_size,
                cfg.ram@.len() == old(cfg).ram@.len(),
                *cfg == (BootConfig {
                    ram: cfg.ram,
                    extra_pages: cfg.extra_pages,
                    reserved: cfg.reserved,
                    ..*old(cfg)
                }),
                t0 == cfg.sram_size - cfg.init_size,
                cfg.init_size as int % (PAGE_SIZE as int) == 0,
                va + remaining <= 0xFFFF_FFFF,
                cgoal == sec_chunks(
                    t0,
                    cfg.image@,
                    LoadSt {
                        ram: cfg.ram@,
                        extra: cfg.extra_pages as int,
                        last_page_vaddr: *old(lpv) as int,
                        fit: *fit,
                        last_virt: *old(lv) as int,
                        src: *src as int,
                        va: va as int,
                    },
                    remaining as int,
                    nocopy,
                ),
            decreases remaining,
        {
            let ghost st_it = LoadSt {
                ram: cfg.ram@,
                extra: cfg.extra_pages as int,
                last_page_vaddr: *old(lpv) as int,
                fit: *fit,
                last_virt: *old(lv) as int,
                src: *src as int,
                va: va as int,
            };
            if cfg.extra_pages == 0 {
                assert(cgoal == Err::<LoadSt, LoaderError>(LoaderError::OutOfRam));
                return Err(LoaderError::OutOfRam);
            }
            let avail = PAGE_SIZE - (va % PAGE_SIZE);
            let n = if avail < remaining {
                avail
            } else {
                remaining
            };
            if !nocopy && (n > cfg.image.len() || *src > cfg.image.len() - n) {
                assert(cgoal == Err::<LoadSt, LoaderError>(LoaderError::BadFraming));
                return Err(LoaderError::BadFraming);
            }
            proof {
                assert(st_it.extra >= 1);
                assert(load_top(t0, st_it.extra) >= 0) by {
                    assert(cfg.init_size + cfg.extra_pages * (PAGE_SIZE as int) <= cfg.sram_size);
                };
                assert(load_top(t0, st_it.extra) + PAGE_SIZE <= cfg.ram@.len()) by {
                    assert((cfg.extra_pages - 1) * (PAGE_SIZE as int) == cfg.extra_pages * (
                    PAGE_SIZE as int) - PAGE_SIZE);
                };
            }
            let top = cfg.get_top();
            if !nocopy {
                copy_into(&mut cfg.ram, top + (va % PAGE_SIZE), &cfg.image, *src, n);
                *src = *src + n;
            }
            *fit = avail == remaining;
            va = va + n;
            remaining = remaining - n;
            if n == avail && remaining > 0 {
                let ghost st_mid = LoadSt {
                    ram: cfg.ram@,
                    extra: cfg.extra_pages as int,
                    last_page_vaddr: *old(lpv) as int,
                    fit: *fit,
                    last_virt: *old(lv) as int,
                    src: *src as int,
                    va: va as int,
                };
                match cfg.alloc_page() {
                    Ok(top1) => {
                        if remaining < PAGE_SIZE {
                            proof {
                                assert(top1 + PAGE_SIZE <= cfg.ram@.len());
                            }
                            zero_range(&mut cfg.ram, top1, PAGE_SIZE);
                        }
                        proof {
                            let st2 = spec_alloc_zero(t0, st_mid).unwrap();
                            if remaining < PAGE_SIZE {
                                assert(cfg.ram@ == st2.ram);
                            } else {
                                assert(cfg.ram@ == st_mid.ram);
                            }
                        }
                    },
                    Err(e) => {
                        assert(spec_alloc_zero(t0, st_mid) == Err::<LoadSt, LoaderError>(
                            LoaderError::OutOfRam,
                        ));
                        assert(cgoal == Err::<LoadSt, LoaderError>(e));
                        return Err(e);
                    },
                }
            }
        }
        *lpv = va;
        *lv = sec.virt + sec.len;
        Ok(())
    } else {
        // the section stays in FLASH; skip its bytes in the image
        if sec.len > cfg.image.len() || *src > cfg.image.len() - sec.len {
            assert(sgoal == Err::<LoadSt, LoaderError>(LoaderError::BadFraming));
            return Err(LoaderError::BadFraming);
        }
        *src = *src + sec.len;
        *lv = sec.virt + sec.len;
        Ok(())
    }
}

/// Copies the sections of one resident (`copy_all`) or execute-in-place
/// process into RAM, exactly as the section interpreter lays them out.
pub fn load_process(cfg: &mut BootConfig, elf: &MiniElf, copy_all: bool) -> (r: Result<
    (),
    LoaderError,
>)
    requires
        old(cfg).wf(),
        old(cfg).init_size as int % (PAGE_SIZE as int) == 0,
        elf.load_offset <= 0xFFFF_FFFF,
        forall|k: int|
            0 <= k < elf.sections@.len() ==> (#[trigger] elf.sections@[k]).len <= 0xFFFF_FFFF,
    ensures
        final(cfg).wf(),
        ({
            let t0 = old(cfg).sram_size - old(cfg).init_size;
            let st0 = load_start(
                old(cfg).ram@,
                old(cfg).extra_pages as int,
                elf.load_offset as int,
            );
            match load_sections(t0, old(cfg).image@, st0, elf.sections@, copy_all) {
                Ok(st) => {
                    &&& r is Ok
                    &&& final(cfg).ram@ == st.ram
                    &&& final(cfg).extra_pages == st.extra
                },
                Err(e) => r == Err::<(), LoaderError>(e),
            }
        }),
        r is Ok ==> sections_monotonic(elf.sections@),
        final(cfg).ram@.len() == old(cfg).ram@.len(),
        final(cfg).init_size == old(cfg).init_size,
        *final(cfg) == (BootConfig {
            ram: final(cfg).ram,
            extra_pages: final(cfg).extra_pages,
            reserved: final(cfg).reserved,
            ..*old(cfg)
        }),
{
    let ghost t0 = old(cfg).sram_size - old(cfg).init_size;
    let ghost st0 = load_start(old(cfg).ram@, old(cfg).extra_pages as int, elf.load_offset as int);
    let ghost goal = load_sections(t0, old(cfg).image@, st0, elf.sections@, copy_all);
    let mut lpv: usize = 0;
    let mut fit: bool = false;
    let mut lv: usize = 0;
    let mut src: usize = elf.load_offset;
    let mut i: usize = 0;
    let nsec = elf.sections.len();
    proof {
        assert(elf.sections@.skip(0) =~= elf.sections@);
    }
    while i < nsec
        invariant
            i <= nsec,
            nsec == elf.sections@.len(),
            cfg.wf(),
            cfg.init_size as int % (PAGE_SIZE as int) == 0,
            cfg.init_size == old(cfg).init_size,
            cfg.ram@.len() == old(cfg).ram@.len(),
            *cfg == (BootConfig {
                ram: cfg.ram,
                extra_pages: cfg.extra_pages,
                reserved: cfg.reserved,
                ..*old(cfg)
            }),
            t0 == cfg.sram_size - cfg.init_size,
            lv <= 0xFFFF_FFFF,
            lpv <= 0xFFFF_FFFF,
            forall|k: int|
                0 <= k < elf.sections@.len() ==> (#[trigger] elf.sections@[k]).len <= 0xFFFF_FFFF,
            goal == load_sections(
                t0,
                old(cfg).image@,
                load_start(old(cfg).ram@, old(cfg).extra_pages as int, elf.load_offset as int),
                elf.sections@,
                copy_all,
            ),
            goal == load_sections(
                t0,
                cfg.image@,
                LoadSt {
                    ram: cfg.ram@,
                    extra: cfg.extra_pages as int,
                    last_page_vaddr: lpv as int,
                    fit,
                    last_virt: lv as int,
                    src: src as int,
                    va: 0,
                },
                elf.sections@.skip(i as int),
                copy_all,
            ),
        decreases nsec - i,
    {
        let ghost st_entry = LoadSt {
            ram: cfg.ram@,
            extra: cfg.extra_pages as int,
            last_page_vaddr: lpv as int,
            fit,
            last_virt: lv as int,
            src: src as int,
            va: 0,
        };
        let sec = elf.sections[i];
        proof {
            assert(elf.sections@.skip(i as int)[0] == sec);
            assert(elf.sections@.skip(i as int).skip(1) =~= elf.sections@.skip(i + 1));
            assert(goal == match load_section(t0, cfg.image@, st_entry, sec, copy_all) {
                Ok(st1) => load_sections(t0, cfg.image@, st1, elf.sections@.skip(i + 1), copy_all),
                Err(e) => Err(e),
            });
        }
        match load_one_section(cfg, sec, copy_all, &mut lpv, &mut fit, &mut lv, &mut src) {
            Ok(_) => {
                proof {
                    let st1 = load_section(t0, cfg.image@, st_entry, sec, copy_all).unwrap();
                    assert(LoadSt {
                        ram: cfg.ram@,
                        extra: cfg.extra_pages as int,
                        last_page_vaddr: lpv as int,
                        fit,
                        last_virt: lv as int,
                        src: src as int,
                        va: 0,
                    } == st1);
                }
            },
            Err(e) => {
                assert(goal == Err::<LoadSt, LoaderError>(e));
                return Err(e);
            },
        }
        i = i + 1;
    }
    proof {
        assert(elf.sections@.skip(nsec as int) =~= Seq::<Section>::empty());
        lemma_accepted_sections_monotonic(t0, cfg.image@, st0, elf.sections@, copy_all);
    }
    Ok(())
}

/// The kernel record's payload: two fixed blocks, text then data and bss.
#[derive(Clone, Copy, Debug, PartialEq, Eq, Structural)]
pub struct KernelDesc {
    /// Byte offset of the kernel's bytes in the image.
    pub load_offset: usize,
    /// Length of the text block.
    pub text_size: usize,
    /// Length of the initialised data block.
    pub data_size: usize,
    /// Length of the zero-filled block after the data.
    pub bss_size: usize,
    /// Virtual address the kernel starts at.
    pub entrypoint: usize,
}

/// Copies one kernel block, rounded up to whole pages of `total` bytes: the
/// image bytes at `[src, src + len)` land at the new top of RAM, and the
/// rest of the rounded block is zero.
pub open spec fn load_block(
    t0: int,
    img: Seq<u8>,
    ram: Seq<u8>,
    extra: int,
    src: int,
    len: int,
    total: int,
) -> Result<(Seq<u8>, int), LoaderError> {
    let rounded = crate::spec_page_round_up(total);
    let extra1 = extra + rounded / (PAGE_SIZE as int);
    if load_top(t0, extra1) < 0 {
        Err(LoaderError::OutOfRam)
    } else if src < 0 || src + len > img.len() {
        Err(LoaderError::BadFraming)
    } else {
        Ok(
            (
                splice(
                    ram,
                    load_top(t0, extra1),
                    img.subrange(src, src + len) + zeros(rounded - len),
                ),
                extra1,
            ),
        )
    }
}

/// The kernel load: the text block, then the data block sized for the data
/// and the zero-filled storage after it, both always copied to RAM.
pub open spec fn load_kernel_spec(
    t0: int,
    img: Seq<u8>,
    ram: Seq<u8>,
    extra: int,
    k: KernelDesc,
) -> Result<(Seq<u8>, int), LoaderError> {
    match load_block(
        t0,
        img,
        ram,
        extra,
        k.load_offset as int,
        k.text_size as int,
        k.text_size as int,
    ) {
        Ok((ram1, extra1)) => load_block(
            t0,
            img,
            ram1,
            extra1,
            k.load_offset + k.text_size,
            k.data_size as int,
            k.data_size + k.bss_size,
        ),
        Err(e) => Err(e),
    }
}

/// Takes `n` fresh pages from the top of RAM and returns the index of the
/// lowest.
fn alloc_pages(cfg: &mut BootConfig, n: usize) -> (r: Result<usize, LoaderError>)
    requires
        old(cfg).wf(),
        n <= 0x20_0000,
    ensures
        final(cfg).wf(),
        r is Ok <==> old(cfg).init_size + old(cfg).extra_pages * (PAGE_SIZE as int) + n * (
        PAGE_SIZE as int) <= old(cfg).sram_size,
        r matches Ok(top) ==> {
            &&& final(cfg).extra_pages == old(cfg).extra_pages + n
            &&& top == final(cfg).spec_top()
            &&& top + n * PAGE_SIZE == old(cfg).spec_top()
        },
        r is Err ==> r == Err::<usize, LoaderError>(LoaderError::OutOfRam),
        final(cfg).ram@.len() == old(cfg).ram@.len(),
        final(cfg).init_size == old(cfg).init_size,
        *final(cfg) == (BootConfig {
            extra_pages: final(cfg).extra_pages,
            reserved: final(cfg).reserved,
            ..*old(cfg)
        }),
{
    let mut j: usize = 0;
    while j < n
        invariant
            j <= n,
            n <= 0x20_0000,
            cfg.wf(),
            cfg.extra_pages == old(cfg).extra_pages + j,
            cfg.init_size == old(cfg).init_size,
            cfg.ram@.len() == old(cfg).ram@.len(),
            *cfg == (BootConfig {
                extra_pages: cfg.extra_pages,
                reserved: cfg.reserved,
                ..*old(cfg)
            }),
        decreases n - j,
    {
        match cfg.alloc_page() {
            Ok(_) => {},
            Err(e) => {
                proof {
                    assert(cfg.init_size + (old(cfg).extra_pages + j) * (PAGE_SIZE as int)
                        + PAGE_SIZE > cfg.sram_size);
                    let e0 = old(cfg).extra_pages as int;
                    let nn = n as int;
                    let jj = j as int;
                    assert((e0 + jj) * (PAGE_SIZE as int) + PAGE_SIZE <= (e0 + nn) * (
                    PAGE_SIZE as int)) by (nonlinear_arith)
                        requires
                            jj + 1 <= nn,
                            e0 >= 0,
                    ;
                }
                return Err(e);
            },
        }
        j = j + 1;
    }
    proof {
        assert(cfg.init_size + cfg.extra_pages * (PAGE_SIZE as int) <= cfg.sram_size);
        let e0 = old(cfg).extra_pages as int;
        let nn = n as int;
        assert((e0 + nn) * (PAGE_SIZE as int) == e0 * (PAGE_SIZE as int) + nn * (
        PAGE_SIZE as int)) by (nonlinear_arith);
    }
    Ok(cfg.get_top())
}

/// Copies one kernel block, exactly as `load_block` lays it out.
#[verifier::rlimit(100)]
fn load_kernel_block(cfg: &mut BootConfig, src: usize, len: usize, total: u64) -> (r: Result<
    (),
    LoaderError,
>)
    requires
        old(cfg).wf(),
        len <= 0xFFFF_FFFF,
        len <= total,
        total <= 0xFFFF_FFFF + 0xFFFF_FFFF,
        src <= 0xFFFF_FFFF + 0xFFFF_FFFF,
    ensures
        final(cfg).wf(),
        ({
            let t0 = old(cfg).sram_size - old(cfg).init_size;
            match load_block(
                t0,
                old(cfg).image@,
                old(cfg).ram@,
                old(cfg).extra_pages as int,
                src as int,
                len as int,
                total as int,
            ) {
                Ok((ram1, extra1)) => {
                    &&& r is Ok
                    &&& final(cfg).ram@ == ram1
                    &&& final(cfg).extra_pages == extra1
                },
                Err(e) => r == Err::<(), LoaderError>(e),
            }
        }),
        final(cfg).ram@.len() == old(cfg).ram@.len(),
        final(cfg).init_size == old(cfg).init_size,
        *final(cfg) == (BootConfig {
            ram: final(cfg).ram,
            extra_pages: final(cfg).extra_pages,
            reserved: final(cfg).reserved,
            ..*old(cfg)
        }),
{
    let ghost t0 = old(cfg).sram_size - old(cfg).init_size;
    let rounded64: u64 = ((total + (PAGE_SIZE - 1) as u64) / PAGE_SIZE as u64) * (
    PAGE_SIZE as u64);
    let pages = (rounded64 / PAGE_SIZE as u64) as usize;
    proof {
        assert(rounded64 == crate::spec_page_round_up(total as int));
        assert(pages == crate::spec_page_round_up(total as int) / (PAGE_SIZE as int));
    }
    let top = match alloc_pages(cfg, pages) {
        Ok(top) => top,
        Err(e) => {
            proof {
                assert(load_top(t0, old(cfg).extra_pages + pages) < 0) by {
                    assert(cfg.init_size + old(cfg).extra_pages * (PAGE_SIZE as int) + pages * (
                    PAGE_SIZE as int) > cfg.sram_size);
                };
            }
            return Err(e);
        },
    };
    if len > cfg.image.len() || src > cfg.image.len() - len {
        return Err(LoaderError::BadFraming);
    }
    let rounded = pages * PAGE_SIZE;
    proof {
        assert(top + rounded <= cfg.ram@.len()) by {
            assert(top + pages * PAGE_SIZE == old(cfg).spec_top());
            assert(old(cfg).spec_top() <= old(cfg).sram_size);
        };
        assert(rounded >= total);
        assert(rounded >= len);
    }
    let ghost ram0 = cfg.ram@;
    copy_into(&mut cfg.ram, top, &cfg.image, src, len);
    zero_range(&mut cfg.ram, top + len, rounded - len);
    proof {
        assert(cfg.ram@ =~= splice(
            ram0,
            top as int,
            cfg.image@.subrange(src as int, src + len) + zeros(rounded - len),
        ));
    }
    Ok(())
}

/// Copies the kernel: its text block, then its data block, each rounded to
/// whole pages and zero-filled past the image bytes.
pub fn load_kernel(cfg: &mut BootConfig, k: &KernelDesc) -> (r: Result<(), LoaderError>)
    requires
        old(cfg).wf(),
        k.load_offset <= 0xFFFF_FFFF,
        k.text_size <= 0xFFFF_FFFF,
        k.data_size <= 0xFFFF_FFFF,
        k.bss_size <= 0xFFFF_FFFF,
    ensures
        final(cfg).wf(),
        ({
            let t0 = old(cfg).sram_size - old(cfg).init_size;
            match load_kernel_spec(
                t0,
                old(cfg).image@,
                old(cfg).ram@,
                old(cfg).extra_pages as int,
                *k,
            ) {
                Ok((ram2, extra2)) => {
                    &&& r is Ok
                    &&& final(cfg).ram@ == ram2
                    &&& final(cfg).extra_pages == extra2
                },
                Err(e) => r == Err::<(), LoaderError>(e),
            }
        }),
        final(cfg).ram@.len() == old(cfg).ram@.len(),
        final(cfg).init_size == old(cfg).init_size,
        *final(cfg) == (BootConfig {
            ram: final(cfg).ram,
            extra_pages: final(cfg).extra_pages,
            reserved: final(cfg).reserved,
            ..*old(cfg)
        }),
{
    match load_kernel_block(cfg, k.load_offset, k.text_size, k.text_size as u64) {
        Ok(_) => {},
        Err(e) => {
            return Err(e);
        },
    }
    proof {
        assert(k.load_offset + k.text_size <= cfg.image.len());
    }
    load_kernel_block(
        cfg,
        k.load_offset + k.text_size,
        k.data_size,
        k.data_size as u64 + k.bss_size as u64,
    )
}

} // verus!
