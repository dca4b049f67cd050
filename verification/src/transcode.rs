//! The swap image transcoder.
//!
//! Swap-resident processes are not copied into RAM. Their sections are
//! decrypted page by page out of the swap source image in FLASH, re-packed
//! into pages in virtual-address order, encrypted under the per-boot swap
//! RAM key, and installed in swap RAM together with one MAC tag per page
//! and one swap page table entry per page.
//!
//! As with the resident loader, the protocol is specified by a recursive
//! interpreter — one chunk, one section, one process at a time — and the
//! executable loops are proved to follow it step by step.

use vstd::prelude::*;

use crate::bootconfig::SwapMapping;
use crate::bytes::{copy_into, splice, zero_range, zeros};
use crate::errors::LoaderError;
use crate::minielf::{sections_monotonic, MiniElf, Section};
use crate::swap::{gcmsiv_seal, swap_nonce, SwapHal, TAG_BYTES};
use crate::{page_round_down, spec_page_round_down, PAGE_SIZE};

verus! {

/// The running state of a transcode: the two swap RAM arenas, the free-page
/// counter, the recorded mappings, the working page and the cursors.
pub struct SwapSt {
    /// Ciphertext area of swap RAM.
    pub data: Seq<u8>,
    /// MAC table of swap RAM.
    pub macs: Seq<u8>,
    /// Next unused page index of swap RAM.
    pub free_page: int,
    /// The swap page table entries recorded so far.
    pub maps: Seq<SwapMapping>,
    /// The working page being assembled.
    pub wbuf: Seq<u8>,
    /// Page index of swap RAM the working page will be installed at.
    pub woff: Option<int>,
    /// Whether the working page holds anything not yet installed.
    pub dirty: bool,
    /// Byte offset of the next unread byte in the source image's ciphertext
    /// area.
    pub src_img: int,
    /// End of the address range the last section wrote.
    pub last_copy_vaddr: int,
    /// End of the address range of the last section; every section must
    /// start at or after it.
    pub last_virt: int,
    /// Destination virtual address of the next byte of the current section.
    pub va: int,
}

/// Encrypts the working page under `key`, bound to swap page `w`, virtual
/// page `vpage` and process `pid`; installs ciphertext, tag and mapping.
/// Fails when swap RAM has no slot `w`.
pub open spec fn spec_flush(key: Seq<u8>, st: SwapSt, w: int, vpage: int, pid: u8) -> Result<
    SwapSt,
    LoaderError,
> {
    if !(0 <= w && (w + 1) * (PAGE_SIZE as int) <= st.data.len()) {
        Err(LoaderError::OutOfRam)
    } else {
        let sealed = gcmsiv_seal(
            key,
            swap_nonce(0, pid, w * (PAGE_SIZE as int), vpage),
            Seq::empty(),
            st.wbuf,
        );
        Ok(
            SwapSt {
                data: splice(st.data, w * (PAGE_SIZE as int), sealed.take(PAGE_SIZE as int)),
                macs: splice(st.macs, w * (TAG_BYTES as int), sealed.skip(PAGE_SIZE as int)),
                maps: st.maps.push(
                    SwapMapping {
                        swap_offset: (w * (PAGE_SIZE as int)) as usize,
                        vaddr: vpage as usize,
                        pid,
                    },
                ),
                ..st
            },
        )
    }
}

/// A fresh working page at the next free slot.
pub open spec fn spec_rotate(st: SwapSt) -> SwapSt {
    SwapSt {
        wbuf: zeros(PAGE_SIZE as int),
        woff: Some(st.free_page),
        dirty: false,
        free_page: st.free_page + 1,
        ..st
    }
}

/// The chunk loop of one swap section: each step decrypts the source page
/// under the cursor if needed, copies as much as fits the source page, the
/// working page and the section, and installs the working page, bound to
/// the virtual page it holds, whenever the destination address reaches a
/// page boundary.
#[verifier::opaque]
pub open spec fn swap_chunks(
    hal: SwapHal,
    key: Seq<u8>,
    st: SwapSt,
    remaining: int,
    nocopy: bool,
    pid: u8,
) -> Result<SwapSt, LoaderError>
    decreases remaining,
{
    if remaining <= 0 {
        Ok(st)
    } else {
        let sp = (st.src_img / (PAGE_SIZE as int)) * (PAGE_SIZE as int);
        if st.src_img < 0 || sp + PAGE_SIZE > hal.src_data_area@.len() {
            Err(LoaderError::BadFraming)
        } else if !hal.src_page_authentic(sp / (PAGE_SIZE as int)) {
            Err(LoaderError::SrcCrypto)
        } else {
            let da = PAGE_SIZE - st.src_img % (PAGE_SIZE as int);
            let pa = PAGE_SIZE - st.va % (PAGE_SIZE as int);
            let m = if da >= pa {
                pa
            } else {
                da
            };
            let n = if m < remaining {
                m
            } else {
                remaining
            };
            let wbuf1 = if nocopy {
                st.wbuf
            } else {
                splice(
                    st.wbuf,
                    st.va % (PAGE_SIZE as int),
                    hal.spec_src_plain_page(sp / (PAGE_SIZE as int)).subrange(
                        st.src_img % (PAGE_SIZE as int),
                        st.src_img % (PAGE_SIZE as int) + n,
                    ),
                )
            };
            let st1 = SwapSt {
                wbuf: wbuf1,
                dirty: true,
                va: st.va + n,
                src_img: st.src_img + n,
                ..st
            };
            if st1.va % (PAGE_SIZE as int) == 0 {
                match st1.woff {
                    Some(w) => match spec_flush(key, st1, w, st1.va - PAGE_SIZE, pid) {
                        Ok(st2) => swap_chunks(hal, key, spec_rotate(st2), remaining - n, nocopy, pid),
                        Err(e) => Err(e),
                    },
                    None => Err(LoaderError::OutOfRam),
                }
            } else {
                swap_chunks(hal, key, st1, remaining - n, nocopy, pid)
            }
        }
    }
}

/// One swap section: the monotonicity check, then — when the section starts
/// outside the working page — an install of the working page bound to the
/// page of the last written byte, then the chunk loop.
#[verifier::opaque]
pub open spec fn swap_section(
    hal: SwapHal,
    key: Seq<u8>,
    st: SwapSt,
    sec: Section,
    pid: u8,
) -> Result<SwapSt, LoaderError> {
    if sec.virt < st.last_virt {
        Err(LoaderError::NonMonotonicSections)
    } else if sec.virt + sec.len > 0xFFFF_FFFF {
        Err(LoaderError::BadFraming)
    } else {
        let pre = match st.woff {
            Some(w) => if st.last_copy_vaddr / (PAGE_SIZE as int) != sec.virt as int / (
            PAGE_SIZE as int) {
                match spec_flush(key, st, w, spec_page_round_down(st.last_copy_vaddr), pid) {
                    Ok(f) => Ok(spec_rotate(f)),
                    Err(e) => Err(e),
                }
            } else {
                Ok(st)
            },
            None => Ok(SwapSt { woff: Some(st.free_page), free_page: st.free_page + 1, ..st }),
        };
        match pre {
            Ok(st0) => match swap_chunks(
                hal,
                key,
                SwapSt { va: sec.virt as int, ..st0 },
                sec.len as int,
                sec.spec_no_copy(),
                pid,
            ) {
                Ok(st1) => Ok(
                    SwapSt { last_copy_vaddr: st1.va, last_virt: sec.virt + sec.len, va: 0, ..st1 },
                ),
                Err(e) => Err(e),
            },
            Err(e) => Err(e),
        }
    }
}

/// The sections of one swap-resident process, in order.
#[verifier::opaque]
pub open spec fn swap_sections(
    hal: SwapHal,
    key: Seq<u8>,
    st: SwapSt,
    secs: Seq<Section>,
    pid: u8,
) -> Result<SwapSt, LoaderError>
    decreases secs.len(),
{
    if secs.len() == 0 {
        Ok(st)
    } else {
        match swap_section(hal, key, st, secs[0], pid) {
            Ok(st1) => swap_sections(hal, key, st1, secs.skip(1), pid),
            Err(e) => Err(e),
        }
    }
}

/// The state a transcode starts from.
pub open spec fn swap_start(
    data: Seq<u8>,
    macs: Seq<u8>,
    free_page: int,
    maps: Seq<SwapMapping>,
    load_offset: int,
) -> SwapSt {
    SwapSt {
        data,
        macs,
        free_page,
        maps,
        wbuf: zeros(PAGE_SIZE as int),
        woff: None,
        dirty: false,
        src_img: load_offset,
        last_copy_vaddr: 0,
        last_virt: 0,
        va: 0,
    }
}

/// The end of one swap-resident process: a final install of the working
/// page, bound to the page of the last written byte, if it holds anything;
/// otherwise the unused slot goes back to the free counter.
pub open spec fn swap_finish(key: Seq<u8>, st: SwapSt, pid: u8) -> Result<SwapSt, LoaderError> {
    match st.woff {
        None => Ok(st),
        Some(w) => if st.dirty {
            spec_flush(key, st, w, spec_page_round_down(st.last_copy_vaddr), pid)
        } else {
            Ok(SwapSt { free_page: st.free_page - 1, ..st })
        },
    }
}

/// One whole swap-resident process: its sections, then the finish step.
#[verifier::opaque]
pub open spec fn swap_process(
    hal: SwapHal,
    key: Seq<u8>,
    st: SwapSt,
    secs: Seq<Section>,
    pid: u8,
) -> Result<SwapSt, LoaderError> {
    match swap_sections(hal, key, st, secs, pid) {
        Ok(st1) => swap_finish(key, st1, pid),
        Err(e) => Err(e),
    }
}

/// Two backends with the same source side transcode section lists alike.
pub proof fn lemma_swap_sections_src_eq(
    a: SwapHal,
    b: SwapHal,
    key: Seq<u8>,
    st: SwapSt,
    secs: Seq<Section>,
    pid: u8,
)
    requires
        a.src_key@ == b.src_key@,
        a.partial_nonce@ == b.partial_nonce@,
        a.aad@ == b.aad@,
        a.src_data_area@ == b.src_data_area@,
        a.src_mac_area@ == b.src_mac_area@,
    ensures
        swap_sections(a, key, st, secs, pid) == swap_sections(b, key, st, secs, pid),
    decreases secs.len(),
{
    reveal(swap_sections);
    if secs.len() > 0 {
        lemma_swap_section_src_eq(a, b, key, st, secs[0], pid);
        match swap_section(a, key, st, secs[0], pid) {
            Ok(st1) => {
                lemma_swap_sections_src_eq(a, b, key, st1, secs.skip(1), pid);
            },
            Err(_) => {},
        }
    }
}

/// Two backends with the same source side transcode whole processes alike.
pub proof fn lemma_swap_process_src_eq(
    a: SwapHal,
    b: SwapHal,
    key: Seq<u8>,
    st: SwapSt,
    secs: Seq<Section>,
    pid: u8,
)
    requires
        a.src_key@ == b.src_key@,
        a.partial_nonce@ == b.partial_nonce@,
        a.aad@ == b.aad@,
        a.src_data_area@ == b.src_data_area@,
        a.src_mac_area@ == b.src_mac_area@,
    ensures
        swap_process(a, key, st, secs, pid) == swap_process(b, key, st, secs, pid),
{
    reveal(swap_process);
    lemma_swap_sections_src_eq(a, b, key, st, secs, pid);
}

/// An accepted swap section list passes every monotonicity check.
proof fn lemma_swap_sections_monotonic_from(
    hal: SwapHal,
    key: Seq<u8>,
    st: SwapSt,
    secs: Seq<Section>,
    pid: u8,
)
    requires
        swap_sections(hal, key, st, secs, pid) is Ok,
    ensures
        crate::copy::monotonic_from(st.last_virt, secs),
    decreases secs.len(),
{
    reveal(swap_sections);
    reveal(swap_section);
    if secs.len() > 0 {
        let st1 = swap_section(hal, key, st, secs[0], pid);
        lemma_swap_sections_monotonic_from(hal, key, st1.unwrap(), secs.skip(1), pid);
        assert(st1.unwrap().last_virt == secs[0].virt + secs[0].len);
    }
}

/// Every swap-resident image the loader accepts lists its sections in
/// ascending virtual-address order.
pub proof fn lemma_accepted_swap_sections_monotonic(
    hal: SwapHal,
    key: Seq<u8>,
    st: SwapSt,
    secs: Seq<Section>,
    pid: u8,
)
    requires
        st.last_virt <= 0,
        swap_sections(hal, key, st, secs, pid) is Ok,
    ensures
        sections_monotonic(secs),
{
    lemma_swap_sections_monotonic_from(hal, key, st, secs, pid);
    crate::copy::lemma_monotonic_from_sections(st.last_virt, secs);
}

/// The exec-side view of an optional working-page index.
pub open spec fn woff_view(w: Option<usize>) -> Option<int> {
    match w {
        Some(x) => Some(x as int),
        None => None,
    }
}

/// The working-page index and the free counter stay consistent: the working
/// page, when there is one, is the slot just below the free counter and lies
/// inside swap RAM or just past it.
pub open spec fn counter_ok(woff: Option<usize>, free: usize, data_len: int) -> bool {
    match woff {
        Some(w) => free == w + 1 && w * (PAGE_SIZE as int) <= data_len,
        None => free * (PAGE_SIZE as int) <= data_len,
    }
}

/// The source side of two backend states is the same, so everything said of
/// source pages carries over.
pub proof fn lemma_src_side_eq(a: SwapHal, b: SwapHal, p: int)
    requires
        a.src_key@ == b.src_key@,
        a.partial_nonce@ == b.partial_nonce@,
        a.aad@ == b.aad@,
        a.src_data_area@ == b.src_data_area@,
        a.src_mac_area@ == b.src_mac_area@,
    ensures
        a.spec_src_plain_page(p) == b.spec_src_plain_page(p),
        a.src_page_authentic(p) == b.src_page_authentic(p),
{
}

/// Installs the working page at swap slot `w`, bound to virtual page
/// `vpage` and process `pid`. The working buffer is left holding the
/// ciphertext; on failure nothing changes.
#[verifier::rlimit(100)]
fn flush_page(
    hal: &mut SwapHal,
    maps: &mut Vec<SwapMapping>,
    wbuf: &mut Vec<u8>,
    w: usize,
    vpage: usize,
    pid: u8,
) -> (r: Result<(), LoaderError>)
    requires
        old(hal).wf(),
        old(wbuf)@.len() == PAGE_SIZE,
        vpage <= 0xFFFF_FFFF,
        vpage % PAGE_SIZE == 0,
        w <= 0x10_0000,
    ensures
        final(hal).wf(),
        *final(hal) == (SwapHal {
            dst_data_area: final(hal).dst_data_area,
            dst_mac_area: final(hal).dst_mac_area,
            ..*old(hal)
        }),
        final(hal).dst_data_area@.len() == old(hal).dst_data_area@.len(),
        final(hal).dst_mac_area@.len() == old(hal).dst_mac_area@.len(),
        final(wbuf)@.len() == PAGE_SIZE,
        r is Ok <==> (w + 1) * (PAGE_SIZE as int) <= old(hal).dst_data_area@.len(),
        r is Ok ==> ({
            let sealed = gcmsiv_seal(
                old(hal).dst_key@,
                swap_nonce(0, pid, w * (PAGE_SIZE as int), vpage as int),
                Seq::empty(),
                old(wbuf)@,
            );
            &&& final(hal).dst_data_area@ == splice(
                old(hal).dst_data_area@,
                w * (PAGE_SIZE as int),
                sealed.take(PAGE_SIZE as int),
            )
            &&& final(hal).dst_mac_area@ == splice(
                old(hal).dst_mac_area@,
                w * (TAG_BYTES as int),
                sealed.skip(PAGE_SIZE as int),
            )
            &&& final(maps)@ == old(maps)@.push(
                SwapMapping { swap_offset: (w * (PAGE_SIZE as int)) as usize, vaddr: vpage, pid },
            )
        }),
        r is Err ==> r == Err::<(), LoaderError>(LoaderError::OutOfRam) && *final(hal) == *old(hal)
            && final(maps)@ == old(maps)@ && final(wbuf)@ == old(wbuf)@,
{
    let limit = hal.dst_data_area.len() / PAGE_SIZE;
    if w >= limit {
        proof {
            let len = hal.dst_data_area@.len() as int;
            assert(len == (len / (PAGE_SIZE as int)) * (PAGE_SIZE as int));
            assert((w + 1) * (PAGE_SIZE as int) > len) by (nonlinear_arith)
                requires
                    w as int >= len / (PAGE_SIZE as int),
                    len == (len / (PAGE_SIZE as int)) * (PAGE_SIZE as int),
            ;
        }
        return Err(LoaderError::OutOfRam);
    }
    proof {
        let len = hal.dst_data_area@.len() as int;
        assert(len == (len / (PAGE_SIZE as int)) * (PAGE_SIZE as int));
        assert((w + 1) * (PAGE_SIZE as int) <= len) by (nonlinear_arith)
            requires
                (w as int) < len / (PAGE_SIZE as int),
                len == (len / (PAGE_SIZE as int)) * (PAGE_SIZE as int),
        ;
    }
    let off = w * PAGE_SIZE;
    let ghost sealed = gcmsiv_seal(
        old(hal).dst_key@,
        swap_nonce(0, pid, off as int, vpage as int),
        Seq::empty(),
        old(wbuf)@,
    );
    hal.encrypt_swap_to(wbuf, off, vpage, pid);
    maps.push(SwapMapping { swap_offset: off, vaddr: vpage, pid });
    proof {
        assert(spec_page_round_down(vpage as int) == vpage as int);
        assert(crate::swap::spec_swap_slot(hal.dst_data_area@, hal.dst_mac_area@, off as int)
            == sealed);
        let p = PAGE_SIZE as int;
        let t = TAG_BYTES as int;
        let ct = hal.dst_data_area@.subrange(off as int, off + p);
        let tg = hal.dst_mac_area@.subrange((off as int / p) * t, (off as int / p) * t + t);
        assert(ct + tg == sealed);
        assert(ct =~= sealed.take(p));
        assert(tg =~= sealed.skip(p));
        assert(off as int / p == w);
        assert(hal.dst_data_area@ =~= splice(old(hal).dst_data_area@, off as int, sealed.take(p)));
        assert(hal.dst_mac_area@ =~= splice(old(hal).dst_mac_area@, w * t, sealed.skip(p)));
    }
    Ok(())
}

/// Two backends with the same source side and key transcode chunks alike.
proof fn lemma_swap_chunks_src_eq(
    a: SwapHal,
    b: SwapHal,
    key: Seq<u8>,
    st: SwapSt,
    remaining: int,
    nocopy: bool,
    pid: u8,
)
    requires
        a.src_key@ == b.src_key@,
        a.partial_nonce@ == b.partial_nonce@,
        a.aad@ == b.aad@,
        a.src_data_area@ == b.src_data_area@,
        a.src_mac_area@ == b.src_mac_area@,
    ensures
        swap_chunks(a, key, st, remaining, nocopy, pid) == swap_chunks(
            b,
            key,
            st,
            remaining,
            nocopy,
            pid,
        ),
    decreases remaining,
{
    reveal(swap_chunks);
    if remaining <= 0 {
    } else {
        let sp = (st.src_img / (PAGE_SIZE as int)) * (PAGE_SIZE as int);
        if st.src_img < 0 || sp + PAGE_SIZE > a.src_data_area@.len() {
        } else {
            lemma_src_side_eq(a, b, sp / (PAGE_SIZE as int));
            if !a.src_page_authentic(sp / (PAGE_SIZE as int)) {
            } else {
                let da = PAGE_SIZE - st.src_img % (PAGE_SIZE as int);
                let pa = PAGE_SIZE - st.va % (PAGE_SIZE as int);
                let m = if da >= pa {
                    pa
                } else {
                    da
                };
                let n = if m < remaining {
                    m
                } else {
                    remaining
                };
                let wbuf1 = if nocopy {
                    st.wbuf
                } else {
                    splice(
                        st.wbuf,
                        st.va % (PAGE_SIZE as int),
                        a.spec_src_plain_page(sp / (PAGE_SIZE as int)).subrange(
                            st.src_img % (PAGE_SIZE as int),
                            st.src_img % (PAGE_SIZE as int) + n,
                        ),
                    )
                };
                let st1 = SwapSt {
                    wbuf: wbuf1,
                    dirty: true,
                    va: st.va + n,
                    src_img: st.src_img + n,
                    ..st
                };
                if st1.va % (PAGE_SIZE as int) == 0 {
                    match st1.woff {
                        Some(w) => match spec_flush(key, st1, w, st1.va - PAGE_SIZE, pid) {
                            Ok(st2) => {
                                lemma_swap_chunks_src_eq(
                                    a,
                                    b,
                                    key,
                                    spec_rotate(st2),
                                    remaining - n,
                                    nocopy,
                                    pid,
                                );
                            },
                            Err(_) => {},
                        },
                        None => {},
                    }
                } else {
                    lemma_swap_chunks_src_eq(a, b, key, st1, remaining - n, nocopy, pid);
                }
            }
        }
    }
}

/// Two backends with the same source side transcode sections alike.
proof fn lemma_swap_section_src_eq(
    a: SwapHal,
    b: SwapHal,
    key: Seq<u8>,
    st: SwapSt,
    sec: Section,
    pid: u8,
)
    requires
        a.src_key@ == b.src_key@,
        a.partial_nonce@ == b.partial_nonce@,
        a.aad@ == b.aad@,
        a.src_data_area@ == b.src_data_area@,
        a.src_mac_area@ == b.src_mac_area@,
    ensures
        swap_section(a, key, st, sec, pid) == swap_section(b, key, st, sec, pid),
{
    reveal(swap_section);
    if sec.virt < st.last_virt {
    } else if sec.virt + sec.len > 0xFFFF_FFFF {
    } else {
        let pre = match st.woff {
            Some(w) => if st.last_copy_vaddr / (PAGE_SIZE as int) != sec.virt as int / (
            PAGE_SIZE as int) {
                match spec_flush(key, st, w, spec_page_round_down(st.last_copy_vaddr), pid) {
                    Ok(f) => Ok(spec_rotate(f)),
                    Err(e) => Err(e),
                }
            } else {
                Ok(st)
            },
            None => Ok(
                SwapSt { woff: Some(st.free_page), free_page: st.free_page + 1, ..st },
            ),
        };
        match pre {
            Ok(st0) => {
                lemma_swap_chunks_src_eq(
                    a,
                    b,
                    key,
                    SwapSt { va: sec.virt as int, ..st0 },
                    sec.len as int,
                    sec.spec_no_copy(),
                    pid,
                );
            },
            Err(_) => {},
        }
    }
}

/// Installs the working page at slot `w` bound to virtual page `vpage`,
/// then starts a fresh zeroed working page at the next free slot, exactly
/// `spec_flush` followed by `spec_rotate`. On failure nothing changes.
#[verifier::rlimit(100)]
#[verifier::spinoff_prover]
fn install_and_rotate(
    hal: &mut SwapHal,
    maps: &mut Vec<SwapMapping>,
    wbuf: &mut Vec<u8>,
    woff: &mut Option<usize>,
    dirty: &mut bool,
    free_page: &mut usize,
    vpage: usize,
    pid: u8,
) -> (r: Result<(), LoaderError>)
    requires
        old(hal).wf(),
        old(wbuf)@.len() == PAGE_SIZE,
        vpage <= 0xFFFF_FFFF,
        vpage % PAGE_SIZE == 0,
        *old(woff) is Some,
        counter_ok(*old(woff), *old(free_page), old(hal).dst_data_area@.len() as int),
    ensures
        final(hal).wf(),
        final(wbuf)@.len() == PAGE_SIZE,
        *final(hal) == (SwapHal {
            dst_data_area: final(hal).dst_data_area,
            dst_mac_area: final(hal).dst_mac_area,
            ..*old(hal)
        }),
        final(hal).dst_data_area@.len() == old(hal).dst_data_area@.len(),
        final(hal).dst_mac_area@.len() == old(hal).dst_mac_area@.len(),
        ({
            let st = SwapSt {
                data: old(hal).dst_data_area@,
                macs: old(hal).dst_mac_area@,
                free_page: *old(free_page) as int,
                maps: old(maps)@,
                wbuf: old(wbuf)@,
                woff: woff_view(*old(woff)),
                dirty: *old(dirty),
                src_img: 0,
                last_copy_vaddr: 0,
                last_virt: 0,
                va: 0,
            };
            match spec_flush(old(hal).dst_key@, st, (*old(woff)).unwrap() as int, vpage as int, pid) {
                Ok(st2) => {
                    let st3 = spec_rotate(st2);
                    &&& r is Ok
                    &&& final(hal).dst_data_area@ == st3.data
                    &&& final(hal).dst_mac_area@ == st3.macs
                    &&& final(maps)@ == st3.maps
                    &&& final(wbuf)@ == st3.wbuf
                    &&& woff_view(*final(woff)) == st3.woff
                    &&& *final(dirty) == st3.dirty
                    &&& *final(free_page) == st3.free_page
                    &&& counter_ok(
                        *final(woff),
                        *final(free_page),
                        final(hal).dst_data_area@.len() as int,
                    )
                },
                Err(e) => {
                    &&& r == Err::<(), LoaderError>(e)
                    &&& *final(hal) == *old(hal)
                    &&& final(maps)@ == old(maps)@
                    &&& final(wbuf)@ == old(wbuf)@
                    &&& *final(woff) == *old(woff)
                    &&& *final(dirty) == *old(dirty)
                    &&& *final(free_page) == *old(free_page)
                },
            }
        }),
{
    let w = match *woff {
        Some(w) => w,
        None => 0,
    };
    proof {
        assert(w <= 0x10_0000) by {
            assert(w * (PAGE_SIZE as int) <= old(hal).dst_data_area@.len());
            assert(old(hal).dst_data_area@.len() <= 0xFFFF_FFFF);
        };
    }
    match flush_page(hal, maps, wbuf, w, vpage, pid) {
        Ok(_) => {
            zero_range(wbuf, 0, PAGE_SIZE);
            proof {
                assert(wbuf@ =~= zeros(PAGE_SIZE as int));
            }
            *woff = Some(*free_page);
            *dirty = false;
            *free_page = *free_page + 1;
            Ok(())
        },
        Err(e) => Err(e),
    }
}

/// Performs one chunk of a swap section: decrypts the source page under the
/// cursor if needed, copies what fits, and installs the working page when
/// the destination reaches a page boundary.
#[verifier::rlimit(100)]
#[verifier::spinoff_prover]
fn transcode_chunk(
    hal: &mut SwapHal,
    free_page: &mut usize,
    maps: &mut Vec<SwapMapping>,
    wbuf: &mut Vec<u8>,
    woff: &mut Option<usize>,
    dirty: &mut bool,
    src_img: &mut usize,
    va: &mut usize,
    remaining: &mut usize,
    lcv: usize,
    lv: usize,
    nocopy: bool,
    pid: u8,
) -> (r: Result<(), LoaderError>)
    requires
        old(hal).wf(),
        old(wbuf)@.len() == PAGE_SIZE,
        *old(va) + *old(remaining) <= 0xFFFF_FFFF,
        *old(remaining) > 0,
        *old(src_img) <= 0xFFFF_FFFF,
        counter_ok(*old(woff), *old(free_page), old(hal).dst_data_area@.len() as int),
    ensures
        final(hal).wf(),
        final(wbuf)@.len() == PAGE_SIZE,
        *final(hal) == (SwapHal {
            dst_data_area: final(hal).dst_data_area,
            dst_mac_area: final(hal).dst_mac_area,
            buf_addr: final(hal).buf_addr,
            buf_valid: final(hal).buf_valid,
            buf: final(hal).buf,
            ..*old(hal)
        }),
        final(hal).dst_data_area@.len() == old(hal).dst_data_area@.len(),
        final(hal).dst_mac_area@.len() == old(hal).dst_mac_area@.len(),
        ({
            let st_old = SwapSt {
                data: old(hal).dst_data_area@,
                macs: old(hal).dst_mac_area@,
                free_page: *old(free_page) as int,
                maps: old(maps)@,
                wbuf: old(wbuf)@,
                woff: woff_view(*old(woff)),
                dirty: *old(dirty),
                src_img: *old(src_img) as int,
                last_copy_vaddr: lcv as int,
                last_virt: lv as int,
                va: *old(va) as int,
            };
            let st_new = SwapSt {
                data: final(hal).dst_data_area@,
                macs: final(hal).dst_mac_area@,
                free_page: *final(free_page) as int,
                maps: final(maps)@,
                wbuf: final(wbuf)@,
                woff: woff_view(*final(woff)),
                dirty: *final(dirty),
                src_img: *final(src_img) as int,
                last_copy_vaddr: lcv as int,
                last_virt: lv as int,
                va: *final(va) as int,
            };
            match r {
                Ok(_) => {
                    &&& swap_chunks(
                        *old(hal),
                        old(hal).dst_key@,
                        st_old,
                        *old(remaining) as int,
                        nocopy,
                        pid,
                    ) == swap_chunks(
                        *old(hal),
                        old(hal).dst_key@,
                        st_new,
                        *final(remaining) as int,
                        nocopy,
                        pid,
                    )
                    &&& *final(remaining) < *old(remaining)
                    &&& *final(va) + *final(remaining) == *old(va) + *old(remaining)
                    &&& *final(src_img) <= 0xFFFF_FFFF
                    &&& counter_ok(
                        *final(woff),
                        *final(free_page),
                        final(hal).dst_data_area@.len() as int,
                    )
                },
                Err(e) => swap_chunks(
                    *old(hal),
                    old(hal).dst_key@,
                    st_old,
                    *old(remaining) as int,
                    nocopy,
                    pid,
                ) == Err::<SwapSt, LoaderError>(e),
            }
        }),
{
    let ghost key = old(hal).dst_key@;
    let ghost st_old = SwapSt {
        data: old(hal).dst_data_area@,
        macs: old(hal).dst_mac_area@,
        free_page: *old(free_page) as int,
        maps: old(maps)@,
        wbuf: old(wbuf)@,
        woff: woff_view(*old(woff)),
        dirty: *old(dirty),
        src_img: *old(src_img) as int,
        last_copy_vaddr: lcv as int,
        last_virt: lv as int,
        va: *old(va) as int,
    };
    let ghost cg = swap_chunks(*old(hal), key, st_old, *old(remaining) as int, nocopy, pid);
    proof {
        reveal(swap_chunks);
    }
    let sp = (*src_img / PAGE_SIZE) * PAGE_SIZE;
    if hal.src_data_area.len() < PAGE_SIZE || sp > hal.src_data_area.len() - PAGE_SIZE {
        assert(cg == Err::<SwapSt, LoaderError>(LoaderError::BadFraming));
        return Err(LoaderError::BadFraming);
    }
    // decrypt the source page under the cursor, unless the buffer already
    // holds it
    if !hal.buf_valid || hal.decrypt_page_addr() != sp {
        match hal.decrypt_src_page_at(sp) {
            Ok(_) => {},
            Err(e) => {
                proof {
                    lemma_src_side_eq(*hal, *old(hal), sp as int / (PAGE_SIZE as int));
                    assert(cg == Err::<SwapSt, LoaderError>(LoaderError::SrcCrypto));
                }
                return Err(e);
            },
        }
    }
    proof {
        lemma_src_side_eq(*hal, *old(hal), sp as int / (PAGE_SIZE as int));
        assert(hal.buf@ == old(hal).spec_src_plain_page(sp as int / (PAGE_SIZE as int)));
        assert(old(hal).src_page_authentic(sp as int / (PAGE_SIZE as int)));
    }
    let da = PAGE_SIZE - (*src_img % PAGE_SIZE);
    let pa = PAGE_SIZE - (*va % PAGE_SIZE);
    let m = if da >= pa {
        pa
    } else {
        da
    };
    let n = if m < *remaining {
        m
    } else {
        *remaining
    };
    if !nocopy {
        proof {
            assert((*va % PAGE_SIZE) + n <= PAGE_SIZE);
            assert((*src_img % PAGE_SIZE) + n <= PAGE_SIZE);
            assert(hal.buf@.len() == PAGE_SIZE);
        }
        copy_into(wbuf, *va % PAGE_SIZE, &hal.buf, *src_img % PAGE_SIZE, n);
    }
    *dirty = true;
    *va = *va + n;
    *src_img = *src_img + n;
    *remaining = *remaining - n;
    let ghost st1 = SwapSt {
        data: hal.dst_data_area@,
        macs: hal.dst_mac_area@,
        free_page: *free_page as int,
        maps: maps@,
        wbuf: wbuf@,
        woff: woff_view(*woff),
        dirty: *dirty,
        src_img: *src_img as int,
        last_copy_vaddr: lcv as int,
        last_virt: lv as int,
        va: *va as int,
    };
    if *va % PAGE_SIZE == 0 {
        match *woff {
            Some(w0) => {
                proof {
                    assert(*va >= PAGE_SIZE);
                }
                let vpage = *va - PAGE_SIZE;
                match install_and_rotate(hal, maps, wbuf, woff, dirty, free_page, vpage, pid) {
                    Ok(_) => {
                        proof {
                            let stf = spec_flush(key, st1, w0 as int, vpage as int, pid);
                            assert(stf is Ok);
                            let st2 = stf.unwrap();
                            let st3 = spec_rotate(st2);
                            assert(hal.dst_data_area@ == st3.data);
                            assert(hal.dst_mac_area@ == st3.macs);
                            assert(maps@ == st3.maps);
                            assert(wbuf@ == st3.wbuf);
                            assert(woff_view(*woff) == st3.woff);
                            assert(*dirty == st3.dirty);
                            assert(*free_page == st3.free_page);
                            assert(cg == swap_chunks(
                                *old(hal),
                                key,
                                st3,
                                *remaining as int,
                                nocopy,
                                pid,
                            ));
                        }
                        Ok(())
                    },
                    Err(e) => {
                        proof {
                            assert(spec_flush(key, st1, w0 as int, vpage as int, pid)
                                == Err::<SwapSt, LoaderError>(LoaderError::OutOfRam));
                        }
                        assert(cg == Err::<SwapSt, LoaderError>(e));
                        Err(e)
                    },
                }
            },
            None => {
                assert(cg == Err::<SwapSt, LoaderError>(LoaderError::OutOfRam));
                Err(LoaderError::OutOfRam)
            },
        }
    } else {
        Ok(())
    }
}

/// Transcodes one section of a swap-resident process, following the section
/// interpreter exactly.
#[verifier::rlimit(100)]
#[verifier::spinoff_prover]
fn transcode_one_section(
    hal: &mut SwapHal,
    free_page: &mut usize,
    maps: &mut Vec<SwapMapping>,
    wbuf: &mut Vec<u8>,
    woff: &mut Option<usize>,
    dirty: &mut bool,
    src_img: &mut usize,
    lcv: &mut usize,
    lv: &mut usize,
    sec: Section,
    pid: u8,
) -> (r: Result<(), LoaderError>)
    requires
        old(hal).wf(),
        old(wbuf)@.len() == PAGE_SIZE,
        *old(lcv) <= 0xFFFF_FFFF,
        *old(lv) <= 0xFFFF_FFFF,
        *old(src_img) <= 0xFFFF_FFFF,
        sec.len <= 0xFFFF_FFFF,
        counter_ok(*old(woff), *old(free_page), old(hal).dst_data_area@.len() as int),
    ensures
        final(hal).wf(),
        final(wbuf)@.len() == PAGE_SIZE,
        *final(hal) == (SwapHal {
            dst_data_area: final(hal).dst_data_area,
            dst_mac_area: final(hal).dst_mac_area,
            buf_addr: final(hal).buf_addr,
            buf_valid: final(hal).buf_valid,
            buf: final(hal).buf,
            ..*old(hal)
        }),
        final(hal).dst_data_area@.len() == old(hal).dst_data_area@.len(),
        final(hal).dst_mac_area@.len() == old(hal).dst_mac_area@.len(),
        ({
            let st_in = SwapSt {
                data: old(hal).dst_data_area@,
                macs: old(hal).dst_mac_area@,
                free_page: *old(free_page) as int,
                maps: old(maps)@,
                wbuf: old(wbuf)@,
                woff: woff_view(*old(woff)),
                dirty: *old(dirty),
                src_img: *old(src_img) as int,
                last_copy_vaddr: *old(lcv) as int,
                last_virt: *old(lv) as int,
                va: 0,
            };
            match swap_section(*old(hal), old(hal).dst_key@, st_in, sec, pid) {
                Ok(st1) => {
                    &&& r is Ok
                    &&& final(hal).dst_data_area@ == st1.data
                    &&& final(hal).dst_mac_area@ == st1.macs
                    &&& *final(free_page) == st1.free_page
                    &&& final(maps)@ == st1.maps
                    &&& final(wbuf)@ == st1.wbuf
                    &&& woff_view(*final(woff)) == st1.woff
                    &&& *final(dirty) == st1.dirty
                    &&& *final(src_img) == st1.src_img
                    &&& *final(lcv) == st1.last_copy_vaddr
                    &&& *final(lv) == st1.last_virt
                    &&& st1.va == 0
                    &&& *final(lcv) <= 0xFFFF_FFFF
                    &&& *final(lv) <= 0xFFFF_FFFF
                    &&& *final(src_img) <= 0xFFFF_FFFF
                    &&& counter_ok(
                        *final(woff),
                        *final(free_page),
                        final(hal).dst_data_area@.len() as int,
                    )
                },
                Err(e) => r == Err::<(), LoaderError>(e),
            }
        }),
{
    let ghost key = old(hal).dst_key@;
    let ghost st_in = SwapSt {
        data: old(hal).dst_data_area@,
        macs: old(hal).dst_mac_area@,
        free_page: *old(free_page) as int,
        maps: old(maps)@,
        wbuf: old(wbuf)@,
        woff: woff_view(*old(woff)),
        dirty: *old(dirty),
        src_img: *old(src_img) as int,
        last_copy_vaddr: *old(lcv) as int,
        last_virt: *old(lv) as int,
        va: 0,
    };
    let ghost sgoal = swap_section(*old(hal), key, st_in, sec, pid);
    // the monotonicity check
    if sec.virt < *lv {
        proof {
            reveal(swap_section);
        }
        assert(sgoal == Err::<SwapSt, LoaderError>(LoaderError::NonMonotonicSections));
        return Err(LoaderError::NonMonotonicSections);
    }
    // addresses must stay within the 32-bit space
    if sec.virt > 0xFFFF_FFFF - sec.len {
        proof {
            reveal(swap_section);
        }
        assert(sgoal == Err::<SwapSt, LoaderError>(LoaderError::BadFraming));
        return Err(LoaderError::BadFraming);
    }
    // install the working page when the new section leaves it; take the
    // very first working page otherwise
    let need_flush = match *woff {
        Some(_) => *lcv / PAGE_SIZE != sec.virt / PAGE_SIZE,
        None => false,
    };
    if need_flush {
        match install_and_rotate(
            hal,
            maps,
            wbuf,
            woff,
            dirty,
            free_page,
            crate::page_round_down(*lcv),
            pid,
        ) {
            Ok(_) => {},
            Err(e) => {
                proof {
                    reveal(swap_section);
                }
                assert(sgoal == Err::<SwapSt, LoaderError>(e));
                return Err(e);
            },
        }
    } else {
        match *woff {
            Some(_) => {},
            None => {
                *woff = Some(*free_page);
                *free_page = *free_page + 1;
            },
        }
    }
    let ghost st0 = match st_in.woff {
        Some(w) => if st_in.last_copy_vaddr / (PAGE_SIZE as int) != sec.virt as int / (
        PAGE_SIZE as int) {
            spec_rotate(
                spec_flush(key, st_in, w, spec_page_round_down(st_in.last_copy_vaddr), pid).unwrap(),
            )
        } else {
            st_in
        },
        None => SwapSt { woff: Some(st_in.free_page), free_page: st_in.free_page + 1, ..st_in },
    };
    proof {
        assert(hal.dst_data_area@ == st0.data);
        assert(hal.dst_mac_area@ == st0.macs);
        assert(maps@ == st0.maps);
        assert(wbuf@ == st0.wbuf);
        assert(woff_view(*woff) == st0.woff);
        assert(*free_page == st0.free_page);
        assert(*dirty == st0.dirty);
    }
    let mut va: usize = sec.virt;
    let mut remaining: usize = sec.len;
    let nocopy = sec.no_copy();
    let ghost st_c0 = SwapSt { va: sec.virt as int, ..st0 };
    let ghost cgoal = swap_chunks(*old(hal), key, st_c0, sec.len as int, nocopy, pid);
    proof {
        reveal(swap_section);
        assert(sgoal == match cgoal {
            Ok(st1) => Ok::<SwapSt, LoaderError>(
                SwapSt { last_copy_vaddr: st1.va, last_virt: sec.virt + sec.len, va: 0, ..st1 },
            ),
            Err(e) => Err(e),
        });
    }
    while remaining > 0
        invariant
            hal.wf(),
            wbuf@.len() == PAGE_SIZE,
            *hal == (SwapHal {
                dst_data_area: hal.dst_data_area,
                dst_mac_area: hal.dst_mac_area,
                buf_addr: hal.buf_addr,
                buf_valid: hal.buf_valid,
                buf: hal.buf,
                ..*old(hal)
            }),
            hal.dst_data_area@.len() == old(hal).dst_data_area@.len(),
            hal.dst_mac_area@.len() == old(hal).dst_mac_area@.len(),
            va + remaining <= 0xFFFF_FFFF,
            *src_img <= 0xFFFF_FFFF,
            counter_ok(*woff, *free_page, hal.dst_data_area@.len() as int),
            key == old(hal).dst_key@,
            *lcv == *old(lcv),
            *lv == *old(lv),
            cgoal == swap_chunks(
                *old(hal),
                key,
                SwapSt {
                    data: hal.dst_data_area@,
                    macs: hal.dst_mac_area@,
                    free_page: *free_page as int,
                    maps: maps@,
                    wbuf: wbuf@,
                    woff: woff_view(*woff),
                    dirty: *dirty,
                    src_img: *src_img as int,
                    last_copy_vaddr: *old(lcv) as int,
                    last_virt: *old(lv) as int,
                    va: va as int,
                },
                remaining as int,
                nocopy,
                pid,
            ),
            sgoal == swap_section(*old(hal), key, st_in, sec, pid),
            st_in == (SwapSt {
                data: old(hal).dst_data_area@,
                macs: old(hal).dst_mac_area@,
                free_page: *old(free_page) as int,
                maps: old(maps)@,
                wbuf: old(wbuf)@,
                woff: woff_view(*old(woff)),
                dirty: *old(dirty),
                src_img: *old(src_img) as int,
                last_copy_vaddr: *old(lcv) as int,
                last_virt: *old(lv) as int,
                va: 0,
            }),
            sgoal == (match cgoal {
                Ok(st1) => Ok::<SwapSt, LoaderError>(
                    SwapSt { last_copy_vaddr: st1.va, last_virt: sec.virt + sec.len, va: 0, ..st1 },
                ),
                Err(e) => Err(e),
            }),
            sec.virt + sec.len <= 0xFFFF_FFFF,
        decreases remaining,
    {
        let ghost pre_hal = *hal;
        let ghost st_b = SwapSt {
            data: hal.dst_data_area@,
            macs: hal.dst_mac_area@,
            free_page: *free_page as int,
            maps: maps@,
            wbuf: wbuf@,
            woff: woff_view(*woff),
            dirty: *dirty,
            src_img: *src_img as int,
            last_copy_vaddr: *old(lcv) as int,
            last_virt: *old(lv) as int,
            va: va as int,
        };
        let ghost rem_b = remaining as int;
        match transcode_chunk(
            hal,
            free_page,
            maps,
            wbuf,
            woff,
            dirty,
            src_img,
            &mut va,
            &mut remaining,
            *lcv,
            *lv,
            nocopy,
            pid,
        ) {
            Ok(_) => {
                proof {
                    let st_a = SwapSt {
                        data: hal.dst_data_area@,
                        macs: hal.dst_mac_area@,
                        free_page: *free_page as int,
                        maps: maps@,
                        wbuf: wbuf@,
                        woff: woff_view(*woff),
                        dirty: *dirty,
                        src_img: *src_img as int,
                        last_copy_vaddr: *old(lcv) as int,
                        last_virt: *old(lv) as int,
                        va: va as int,
                    };
                    lemma_swap_chunks_src_eq(pre_hal, *old(hal), key, st_b, rem_b, nocopy, pid);
                    lemma_swap_chunks_src_eq(
                        pre_hal,
                        *old(hal),
                        key,
                        st_a,
                        remaining as int,
                        nocopy,
                        pid,
                    );
                }
            },
            Err(e) => {
                proof {
                    lemma_swap_chunks_src_eq(pre_hal, *old(hal), key, st_b, rem_b, nocopy, pid);
                }
                assert(cgoal == Err::<SwapSt, LoaderError>(e));
                return Err(e);
            },
        }
    }
    proof {
        reveal(swap_chunks);
        assert(cgoal is Ok);
    }
    *lcv = va;
    *lv = sec.virt + sec.len;
    Ok(())
}

/// Performs the finish step of one process, exactly as `swap_finish` says.
#[verifier::rlimit(100)]
#[verifier::spinoff_prover]
fn finish_transcode(
    hal: &mut SwapHal,
    free_page: &mut usize,
    maps: &mut Vec<SwapMapping>,
    wbuf: &mut Vec<u8>,
    woff: Option<usize>,
    dirty: bool,
    src_img: usize,
    lcv: usize,
    lv: usize,
    pid: u8,
) -> (r: Result<(), LoaderError>)
    requires
        old(hal).wf(),
        old(wbuf)@.len() == PAGE_SIZE,
        lcv <= 0xFFFF_FFFF,
        counter_ok(woff, *old(free_page), old(hal).dst_data_area@.len() as int),
    ensures
        final(hal).wf(),
        *final(hal) == (SwapHal {
            dst_data_area: final(hal).dst_data_area,
            dst_mac_area: final(hal).dst_mac_area,
            buf_addr: final(hal).buf_addr,
            buf_valid: final(hal).buf_valid,
            buf: final(hal).buf,
            ..*old(hal)
        }),
        final(hal).dst_data_area@.len() == old(hal).dst_data_area@.len(),
        final(hal).dst_mac_area@.len() == old(hal).dst_mac_area@.len(),
        ({
            let st = SwapSt {
                data: old(hal).dst_data_area@,
                macs: old(hal).dst_mac_area@,
                free_page: *old(free_page) as int,
                maps: old(maps)@,
                wbuf: old(wbuf)@,
                woff: woff_view(woff),
                dirty,
                src_img: src_img as int,
                last_copy_vaddr: lcv as int,
                last_virt: lv as int,
                va: 0,
            };
            match swap_finish(old(hal).dst_key@, st, pid) {
                Ok(st2) => {
                    &&& r is Ok
                    &&& final(hal).dst_data_area@ == st2.data
                    &&& final(hal).dst_mac_area@ == st2.macs
                    &&& *final(free_page) == st2.free_page
                    &&& final(maps)@ == st2.maps
                    &&& *final(free_page) * (PAGE_SIZE as int)
                        <= final(hal).dst_data_area@.len()
                },
                Err(e) => r == Err::<(), LoaderError>(e),
            }
        }),
{
    match woff {
        None => Ok(()),
        Some(w) => {
            if dirty {
                proof {
                    assert(w <= 0x10_0000) by {
                        assert(w * (PAGE_SIZE as int) <= hal.dst_data_area@.len());
                        assert(hal.dst_data_area@.len() <= 0xFFFF_FFFF);
                    };
                }
                match flush_page(hal, maps, wbuf, w, crate::page_round_down(lcv), pid) {
                    Ok(_) => Ok(()),
                    Err(e) => Err(e),
                }
            } else {
                *free_page = *free_page - 1;
                Ok(())
            }
        },
    }
}

/// Transcodes one swap-resident process into encrypted swap RAM, exactly as
/// the process interpreter says: every installed page is sealed under the
/// per-boot key, bound to its swap offset, its virtual page and its process
/// id, and recorded in the swap page table.
#[verifier::rlimit(100)]
#[verifier::spinoff_prover]
pub fn transcode_process(
    hal: &mut SwapHal,
    free_page: &mut usize,
    maps: &mut Vec<SwapMapping>,
    elf: &MiniElf,
    pid: u8,
) -> (r: Result<(), LoaderError>)
    requires
        old(hal).wf(),
        elf.load_offset <= 0xFFFF_FFFF,
        forall|k: int|
            0 <= k < elf.sections@.len() ==> (#[trigger] elf.sections@[k]).len <= 0xFFFF_FFFF,
        *old(free_page) * (PAGE_SIZE as int) <= old(hal).dst_data_area@.len(),
    ensures
        final(hal).wf(),
        *final(hal) == (SwapHal {
            dst_data_area: final(hal).dst_data_area,
            dst_mac_area: final(hal).dst_mac_area,
            buf_addr: final(hal).buf_addr,
            buf_valid: final(hal).buf_valid,
            buf: final(hal).buf,
            ..*old(hal)
        }),
        final(hal).dst_data_area@.len() == old(hal).dst_data_area@.len(),
        final(hal).dst_mac_area@.len() == old(hal).dst_mac_area@.len(),
        ({
            let st0 = swap_start(
                old(hal).dst_data_area@,
                old(hal).dst_mac_area@,
                *old(free_page) as int,
                old(maps)@,
                elf.load_offset as int,
            );
            match swap_process(*old(hal), old(hal).dst_key@, st0, elf.sections@, pid) {
                Ok(st) => {
                    &&& r is Ok
                    &&& final(hal).dst_data_area@ == st.data
                    &&& final(hal).dst_mac_area@ == st.macs
                    &&& *final(free_page) == st.free_page
                    &&& final(maps)@ == st.maps
                    &&& *final(free_page) * (PAGE_SIZE as int) <= final(hal).dst_data_area@.len()
                },
                Err(e) => r == Err::<(), LoaderError>(e),
            }
        }),
        r is Ok ==> sections_monotonic(elf.sections@),
{
    let ghost key = old(hal).dst_key@;
    let ghost st0 = swap_start(
        old(hal).dst_data_area@,
        old(hal).dst_mac_area@,
        *old(free_page) as int,
        old(maps)@,
        elf.load_offset as int,
    );
    let ghost goal = swap_sections(*old(hal), key, st0, elf.sections@, pid);
    let mut wbuf = crate::bytes::zero_vec(PAGE_SIZE);
    let mut woff: Option<usize> = None;
    let mut dty: bool = false;
    let mut src_img: usize = elf.load_offset;
    let mut lcv: usize = 0;
    let mut lv: usize = 0;
    let mut i: usize = 0;
    let nsec = elf.sections.len();
    proof {
        assert(elf.sections@.skip(0) =~= elf.sections@);
    }
    while i < nsec
        invariant
            i <= nsec,
            nsec == elf.sections@.len(),
            hal.wf(),
            wbuf@.len() == PAGE_SIZE,
            *hal == (SwapHal {
                dst_data_area: hal.dst_data_area,
                dst_mac_area: hal.dst_mac_area,
                buf_addr: hal.buf_addr,
                buf_valid: hal.buf_valid,
                buf: hal.buf,
                ..*old(hal)
            }),
            hal.dst_data_area@.len() == old(hal).dst_data_area@.len(),
            hal.dst_mac_area@.len() == old(hal).dst_mac_area@.len(),
            lcv <= 0xFFFF_FFFF,
            lv <= 0xFFFF_FFFF,
            src_img <= 0xFFFF_FFFF,
            counter_ok(woff, *free_page, hal.dst_data_area@.len() as int),
            key == old(hal).dst_key@,
            forall|k: int|
                0 <= k < elf.sections@.len() ==> (#[trigger] elf.sections@[k]).len <= 0xFFFF_FFFF,
            goal == swap_sections(*old(hal), key, st0, elf.sections@, pid),
            st0 == swap_start(
                old(hal).dst_data_area@,
                old(hal).dst_mac_area@,
                *old(free_page) as int,
                old(maps)@,
                elf.load_offset as int,
            ),
            goal == swap_sections(
                *old(hal),
                key,
                SwapSt {
                    data: hal.dst_data_area@,
                    macs: hal.dst_mac_area@,
                    free_page: *free_page as int,
                    maps: maps@,
                    wbuf: wbuf@,
                    woff: woff_view(woff),
                    dirty: dty,
                    src_img: src_img as int,
                    last_copy_vaddr: lcv as int,
                    last_virt: lv as int,
                    va: 0,
                },
                elf.sections@.skip(i as int),
                pid,
            ),
        decreases nsec - i,
    {
        let ghost st_entry = SwapSt {
            data: hal.dst_data_area@,
            macs: hal.dst_mac_area@,
            free_page: *free_page as int,
            maps: maps@,
            wbuf: wbuf@,
            woff: woff_view(woff),
            dirty: dty,
            src_img: src_img as int,
            last_copy_vaddr: lcv as int,
            last_virt: lv as int,
            va: 0,
        };
        let sec = elf.sections[i];
        proof {
            reveal(swap_sections);
            reveal(swap_process);
            assert(elf.sections@.skip(i as int)[0] == sec);
            assert(elf.sections@.skip(i as int).skip(1) =~= elf.sections@.skip(i + 1));
            assert(goal == match swap_section(*old(hal), key, st_entry, sec, pid) {
                Ok(st1) => swap_sections(*old(hal), key, st1, elf.sections@.skip(i + 1), pid),
                Err(e) => Err(e),
            });
        }
        let ghost pre_hal = *hal;
        match transcode_one_section(
            hal,
            free_page,
            maps,
            &mut wbuf,
            &mut woff,
            &mut dty,
            &mut src_img,
            &mut lcv,
            &mut lv,
            sec,
            pid,
        ) {
            Ok(_) => {
                proof {
                    assert(pre_hal.dst_key@ == key);
                    lemma_swap_section_src_eq(pre_hal, *old(hal), key, st_entry, sec, pid);
                    assert(swap_section(*old(hal), key, st_entry, sec, pid) == swap_section(
                        pre_hal,
                        pre_hal.dst_key@,
                        st_entry,
                        sec,
                        pid,
                    ));
                    let st1 = swap_section(*old(hal), key, st_entry, sec, pid).unwrap();
                    assert(SwapSt {
                        data: hal.dst_data_area@,
                        macs: hal.dst_mac_area@,
                        free_page: *free_page as int,
                        maps: maps@,
                        wbuf: wbuf@,
                        woff: woff_view(woff),
                        dirty: dty,
                        src_img: src_img as int,
                        last_copy_vaddr: lcv as int,
                        last_virt: lv as int,
                        va: 0,
                    } == st1);
                }
            },
            Err(e) => {
                proof {
                    lemma_swap_section_src_eq(pre_hal, *old(hal), key, st_entry, sec, pid);
                }
                assert(goal == Err::<SwapSt, LoaderError>(e));
                return Err(e);
            },
        }
        i = i + 1;
    }
    proof {
        reveal(swap_sections);
        reveal(swap_process);
        assert(elf.sections@.skip(nsec as int) =~= Seq::<Section>::empty());
        assert(goal is Ok);
        lemma_accepted_swap_sections_monotonic(*old(hal), key, st0, elf.sections@, pid);
    }
    // install the working page if it holds anything; otherwise give the
    // unused slot back
    let ghost pre_fin = *hal;
    let r = finish_transcode(
        hal,
        free_page,
        maps,
        &mut wbuf,
        woff,
        dty,
        src_img,
        lcv,
        lv,
        pid,
    );
    proof {
        assert(pre_fin.dst_key@ == key);
    }
    r
}

} // verus!
