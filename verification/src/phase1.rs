//! Phase one of boot: parse the argument stream, build the bookkeeping
//! tables at the top of RAM, merge the swap arguments when swap is
//! configured, copy the kernel and every initial process into place, and
//! mark the pages the loader consumed.

use vstd::prelude::*;

use crate::args::{
    count_processes, parse_records, spec_process_count, spec_records, validate_args, ArgRecord,
    TAG_INIE, TAG_INIF, TAG_INIS, TAG_XKRN, XARG_BYTES,
};
use crate::bootconfig::{BootConfig, InitialProcess, SwapMapping, GUARD_MEMORY_BYTES};
use crate::bytes::le32;
use crate::copy::{
    load_kernel, load_kernel_spec, load_process, load_sections, load_start, KernelDesc,
};
use crate::errors::LoaderError;
use crate::merge::merge_args;
use crate::minielf::{minielf_shaped, parse_minielf, spec_sections, MiniElf};
use crate::swap::{
    swap_data_len, swap_flash_ok, swap_mac_len, swap_ram_ok, SwapCfg, SwapHal, TAG_BYTES,
};
use crate::bytes::zeros;
use crate::transcode::{
    lemma_src_side_eq, lemma_swap_process_src_eq, swap_process, swap_start, transcode_process,
};
use crate::PAGE_SIZE;

verus! {

/// The recognised record tags.
#[derive(Clone, Copy, Debug, PartialEq, Eq, Structural)]
pub enum TagType {
    /// A resident process, copied to RAM whole.
    IniE,
    /// An execute-in-place process: only writable sections are copied.
    IniF,
    /// A swap-resident process, transcoded into encrypted swap RAM.
    IniS,
    /// The kernel.
    XKrn,
    /// Anything else; skipped.
    Other,
}

impl TagType {
    /// Classifies a four-byte record tag.
    pub fn classify(code: u32) -> (r: TagType)
        ensures
            r == TagType::IniE <==> code == TAG_INIE,
            r == TagType::IniF <==> code == TAG_INIF,
            r == TagType::IniS <==> code == TAG_INIS,
            r == TagType::XKrn <==> code == TAG_XKRN,
    {
        if code == TAG_INIE {
            TagType::IniE
        } else if code == TAG_INIF {
            TagType::IniF
        } else if code == TAG_INIS {
            TagType::IniS
        } else if code == TAG_XKRN {
            TagType::XKrn
        } else {
            TagType::Other
        }
    }

    /// The tag's name, for diagnostics.
    pub fn to_str(&self) -> (r: &'static str)
        ensures
            self is IniE ==> r@ == "IniE"@,
            self is IniF ==> r@ == "IniF"@,
            self is IniS ==> r@ == "IniS"@,
            self is XKrn ==> r@ == "XKrn"@,
            self is Other ==> r@ == "Other"@,
    {
        match self {
            TagType::IniE => "IniE",
            TagType::IniF => "IniF",
            TagType::IniS => "IniS",
            TagType::XKrn => "XKrn",
            TagType::Other => "Other",
        }
    }
}

/// The kernel descriptor stored in a kernel record's payload: five 32-bit
/// words.
pub open spec fn spec_kernel_desc(args: Seq<u8>, rec: ArgRecord) -> KernelDesc {
    KernelDesc {
        load_offset: le32(args, rec.start as int) as usize,
        text_size: le32(args, rec.start + 4) as usize,
        data_size: le32(args, rec.start + 8) as usize,
        bss_size: le32(args, rec.start + 12) as usize,
        entrypoint: le32(args, rec.start + 16) as usize,
    }
}

/// Reads the kernel descriptor out of the record at `rec`.
pub fn parse_kernel_desc(args: &Vec<u8>, rec: &ArgRecord) -> (r: KernelDesc)
    requires
        rec.start + rec.len <= args.len(),
        rec.len >= 20,
    ensures
        r == spec_kernel_desc(args@, *rec),
{
    KernelDesc {
        load_offset: crate::bytes::read_le32(args, rec.start) as usize,
        text_size: crate::bytes::read_le32(args, rec.start + 4) as usize,
        data_size: crate::bytes::read_le32(args, rec.start + 8) as usize,
        bss_size: crate::bytes::read_le32(args, rec.start + 12) as usize,
        entrypoint: crate::bytes::read_le32(args, rec.start + 16) as usize,
    }
}

/// The parts of the boot state that copying processes changes: RAM and the
/// pages taken from it, the descriptor table, the swap RAM arenas, the swap
/// free-page counter, the swap page table, and the process id counter.
pub struct CopySt {
    /// The bytes of main RAM.
    pub ram: Seq<u8>,
    /// Whole pages handed out for process data so far.
    pub extra: int,
    /// The process descriptor table.
    pub procs: Seq<InitialProcess>,
    /// Ciphertext area of swap RAM.
    pub sdata: Seq<u8>,
    /// MAC table of swap RAM.
    pub smacs: Seq<u8>,
    /// Next unused page index of swap RAM.
    pub sfree: int,
    /// The swap page table entries recorded so far.
    pub smaps: Seq<SwapMapping>,
    /// Id of the most recently started process; the kernel is 1.
    pub pid: int,
}

/// The ciphertext area of swap RAM, or nothing when swap is off.
pub open spec fn hal_sdata(h: Option<SwapHal>) -> Seq<u8> {
    match h {
        Some(h) => h.dst_data_area@,
        None => Seq::empty(),
    }
}

/// The MAC table of swap RAM, or nothing when swap is off.
pub open spec fn hal_smacs(h: Option<SwapHal>) -> Seq<u8> {
    match h {
        Some(h) => h.dst_mac_area@,
        None => Seq::empty(),
    }
}

/// What one record does to the boot state: a resident or execute-in-place
/// process is laid out in RAM, the kernel is copied as two blocks, a
/// swap-resident process is transcoded into swap RAM when swap is on and
/// skipped when it is off, and any other record is skipped. Process records
/// advance the id counter and fill in the descriptor's entry point.
#[verifier::opaque]
pub open spec fn copy_one_record(
    t0: int,
    img: Seq<u8>,
    args: Seq<u8>,
    hal: Option<SwapHal>,
    rec: ArgRecord,
    st: CopySt,
) -> Result<CopySt, LoaderError> {
    if rec.tag == TAG_INIE || rec.tag == TAG_INIF {
        if !minielf_shaped(rec.len as int) {
            Err(LoaderError::BadFraming)
        } else {
            let load_offset = le32(args, rec.start as int);
            let ep = le32(args, rec.start + 4);
            let secs = spec_sections(args, rec.start + 8, (rec.len - 8) as int / 8);
            let pid1 = st.pid + 1;
            match load_sections(
                t0,
                img,
                load_start(st.ram, st.extra, load_offset as int),
                secs,
                rec.tag == TAG_INIE,
            ) {
                Ok(lst) => Ok(
                    CopySt {
                        ram: lst.ram,
                        extra: lst.extra,
                        procs: st.procs.update(
                            pid1 - 1,
                            InitialProcess { entrypoint: ep as usize, ..st.procs[pid1 - 1] },
                        ),
                        pid: pid1,
                        ..st
                    },
                ),
                Err(e) => Err(e),
            }
        }
    } else if rec.tag == TAG_XKRN {
        if rec.len < 20 {
            Err(LoaderError::BadFraming)
        } else {
            let k = spec_kernel_desc(args, rec);
            match load_kernel_spec(t0, img, st.ram, st.extra, k) {
                Ok(out) => Ok(
                    CopySt {
                        ram: out.0,
                        extra: out.1,
                        procs: st.procs.update(
                            0,
                            InitialProcess { entrypoint: k.entrypoint, ..st.procs[0] },
                        ),
                        ..st
                    },
                ),
                Err(e) => Err(e),
            }
        }
    } else if rec.tag == TAG_INIS {
        match hal {
            None => Ok(st),
            Some(h) => {
                if !minielf_shaped(rec.len as int) {
                    Err(LoaderError::BadFraming)
                } else {
                    let load_offset = le32(args, rec.start as int);
                    let ep = le32(args, rec.start + 4);
                    let secs = spec_sections(args, rec.start + 8, (rec.len - 8) as int / 8);
                    let pid1 = st.pid + 1;
                    match swap_process(
                        h,
                        h.dst_key@,
                        swap_start(st.sdata, st.smacs, st.sfree, st.smaps, load_offset as int),
                        secs,
                        pid1 as u8,
                    ) {
                        Ok(sst) => Ok(
                            CopySt {
                                sdata: sst.data,
                                smacs: sst.macs,
                                sfree: sst.free_page,
                                smaps: sst.maps,
                                procs: st.procs.update(
                                    pid1 - 1,
                                    InitialProcess {
                                        entrypoint: ep as usize,
                                        ..st.procs[pid1 - 1]
                                    },
                                ),
                                pid: pid1,
                                ..st
                            },
                        ),
                        Err(e) => Err(e),
                    }
                }
            },
        }
    } else {
        Ok(st)
    }
}

/// The records of the stream, applied in order.
#[verifier::opaque]
pub open spec fn copy_records(
    t0: int,
    img: Seq<u8>,
    args: Seq<u8>,
    hal: Option<SwapHal>,
    recs: Seq<ArgRecord>,
    st: CopySt,
) -> Result<CopySt, LoaderError>
    decreases recs.len(),
{
    if recs.len() == 0 {
        Ok(st)
    } else {
        match copy_one_record(t0, img, args, hal, recs[0], st) {
            Ok(st1) => copy_records(t0, img, args, hal, recs.skip(1), st1),
            Err(e) => Err(e),
        }
    }
}

/// Two swap backends that agree on the source side and the key make every
/// record act alike.
proof fn lemma_copy_one_src_eq(
    a: Option<SwapHal>,
    b: Option<SwapHal>,
    t0: int,
    img: Seq<u8>,
    args: Seq<u8>,
    rec: ArgRecord,
    st: CopySt,
)
    requires
        match (a, b) {
            (Some(ha), Some(hb)) => ha.src_key@ == hb.src_key@ && ha.partial_nonce@
                == hb.partial_nonce@ && ha.aad@ == hb.aad@ && ha.src_data_area@
                == hb.src_data_area@ && ha.src_mac_area@ == hb.src_mac_area@ && ha.dst_key@
                == hb.dst_key@,
            (None, None) => true,
            _ => false,
        },
    ensures
        copy_one_record(t0, img, args, a, rec, st) == copy_one_record(t0, img, args, b, rec, st),
{
    reveal(copy_one_record);
    if rec.tag == TAG_INIS {
        match (a, b) {
            (Some(ha), Some(hb)) => {
                if minielf_shaped(rec.len as int) {
                    let load_offset = le32(args, rec.start as int);
                    let secs = spec_sections(args, rec.start + 8, (rec.len - 8) as int / 8);
                    lemma_swap_process_src_eq(
                        ha,
                        hb,
                        ha.dst_key@,
                        swap_start(st.sdata, st.smacs, st.sfree, st.smaps, load_offset as int),
                        secs,
                        (st.pid + 1) as u8,
                    );
                }
            },
            _ => {},
        }
    }
}

/// Applies one record of the stream to the boot state, exactly as
/// `copy_one_record` says.
#[verifier::rlimit(100)]
#[verifier::spinoff_prover]
fn do_one_record(
    cfg: &mut BootConfig,
    hal_opt: &mut Option<SwapHal>,
    rec: ArgRecord,
    pid: &mut u8,
) -> (r: Result<(), LoaderError>)
    requires
        old(cfg).wf(),
        old(cfg).init_size as int % (PAGE_SIZE as int) == 0,
        rec.start + rec.len <= old(cfg).args@.len(),
        old(cfg).args@.len() <= 0xFFFF_FFFF,
        (rec.tag == TAG_INIE || rec.tag == TAG_INIF || rec.tag == TAG_INIS) ==> (*old(pid) < 255
            && (*old(pid) as int) < old(cfg).processes@.len()),
        old(cfg).processes@.len() >= 1,
        match *old(hal_opt) {
            Some(h) => h.wf() && old(cfg).swap_free_page * (PAGE_SIZE as int)
                <= h.dst_data_area@.len(),
            None => true,
        },
    ensures
        final(cfg).wf(),
        final(cfg).init_size == old(cfg).init_size,
        *final(cfg) == (BootConfig {
            ram: final(cfg).ram,
            extra_pages: final(cfg).extra_pages,
            processes: final(cfg).processes,
            swap_free_page: final(cfg).swap_free_page,
            swap_mappings: final(cfg).swap_mappings,
            reserved: final(cfg).reserved,
            ..*old(cfg)
        }),
        final(cfg).ram@.len() == old(cfg).ram@.len(),
        final(cfg).processes@.len() == old(cfg).processes@.len(),
        match (*final(hal_opt), *old(hal_opt)) {
            (Some(h), Some(h0)) => h.wf() && h == (SwapHal {
                dst_data_area: h.dst_data_area,
                dst_mac_area: h.dst_mac_area,
                buf_addr: h.buf_addr,
                buf_valid: h.buf_valid,
                buf: h.buf,
                ..h0
            }) && h.dst_data_area@.len() == h0.dst_data_area@.len() && h.dst_mac_area@.len()
                == h0.dst_mac_area@.len(),
            (None, None) => true,
            _ => false,
        },
        ({
            let t0 = old(cfg).sram_size - old(cfg).init_size;
            let st = CopySt {
                ram: old(cfg).ram@,
                extra: old(cfg).extra_pages as int,
                procs: old(cfg).processes@,
                sdata: hal_sdata(*old(hal_opt)),
                smacs: hal_smacs(*old(hal_opt)),
                sfree: old(cfg).swap_free_page as int,
                smaps: old(cfg).swap_mappings@,
                pid: *old(pid) as int,
            };
            match copy_one_record(t0, old(cfg).image@, old(cfg).args@, *old(hal_opt), rec, st) {
                Ok(st1) => {
                    &&& r is Ok
                    &&& final(cfg).ram@ == st1.ram
                    &&& final(cfg).extra_pages == st1.extra
                    &&& final(cfg).processes@ == st1.procs
                    &&& final(cfg).swap_free_page == st1.sfree
                    &&& final(cfg).swap_mappings@ == st1.smaps
                    &&& hal_sdata(*final(hal_opt)) == st1.sdata
                    &&& hal_smacs(*final(hal_opt)) == st1.smacs
                    &&& *final(pid) == st1.pid
                    &&& st1.procs.len() == st.procs.len()
                    &&& st.pid <= st1.pid <= st.pid + 1
                    &&& (st1.pid == st.pid + 1 ==> (rec.tag == TAG_INIE || rec.tag == TAG_INIF
                        || rec.tag == TAG_INIS))
                    &&& (match *final(hal_opt) {
                        Some(h) => final(cfg).swap_free_page * (PAGE_SIZE as int)
                            <= h.dst_data_area@.len(),
                        None => true,
                    })
                },
                Err(e) => r == Err::<(), LoaderError>(e),
            }
        }),
{
    let ghost t0 = old(cfg).sram_size - old(cfg).init_size;
    let ghost st = CopySt {
        ram: old(cfg).ram@,
        extra: old(cfg).extra_pages as int,
        procs: old(cfg).processes@,
        sdata: hal_sdata(*old(hal_opt)),
        smacs: hal_smacs(*old(hal_opt)),
        sfree: old(cfg).swap_free_page as int,
        smaps: old(cfg).swap_mappings@,
        pid: *old(pid) as int,
    };
    let ghost goal = copy_one_record(t0, old(cfg).image@, old(cfg).args@, *old(hal_opt), rec, st);
    proof {
        reveal(copy_one_record);
    }
    if rec.tag == TAG_INIE || rec.tag == TAG_INIF {
        if rec.len < 8 || (rec.len - 8) % 8 != 0 {
            assert(goal == Err::<CopySt, LoaderError>(LoaderError::BadFraming));
            return Err(LoaderError::BadFraming);
        }
        let elf = parse_minielf(&cfg.args, &rec);
        proof {
            assert forall|k: int|
                0 <= k < elf.sections@.len() implies (#[trigger] elf.sections@[k]).len
                <= 0xFFFF_FFFF by {
                assert(elf.sections@[k] == crate::minielf::spec_section(
                    cfg.args@,
                    rec.start + 8 + 8 * k,
                ));
            };
        }
        let pid1 = *pid + 1;
        match load_process(cfg, &elf, rec.tag == TAG_INIE) {
            Ok(_) => {},
            Err(e) => {
                assert(goal == Err::<CopySt, LoaderError>(e));
                return Err(e);
            },
        }
        let idx = (pid1 - 1) as usize;
        let entry = InitialProcess {
            satp: cfg.processes[idx].satp,
            entrypoint: elf.entrypoint,
            sp: cfg.processes[idx].sp,
            env: cfg.processes[idx].env,
            swap_root: cfg.processes[idx].swap_root,
        };
        cfg.processes[idx] = entry;
        *pid = pid1;
        proof {
            let st1 = goal.unwrap();
            assert(cfg.processes@ =~= st1.procs);
        }
        Ok(())
    } else if rec.tag == TAG_XKRN {
        if rec.len < 20 {
            assert(goal == Err::<CopySt, LoaderError>(LoaderError::BadFraming));
            return Err(LoaderError::BadFraming);
        }
        let k = parse_kernel_desc(&cfg.args, &rec);
        match load_kernel(cfg, &k) {
            Ok(_) => {},
            Err(e) => {
                assert(goal == Err::<CopySt, LoaderError>(e));
                return Err(e);
            },
        }
        let entry = InitialProcess {
            satp: cfg.processes[0].satp,
            entrypoint: k.entrypoint,
            sp: cfg.processes[0].sp,
            env: cfg.processes[0].env,
            swap_root: cfg.processes[0].swap_root,
        };
        cfg.processes[0] = entry;
        proof {
            let st1 = goal.unwrap();
            assert(cfg.processes@ =~= st1.procs);
        }
        Ok(())
    } else if rec.tag == TAG_INIS {
        match hal_opt {
            Some(hal) => {
                if rec.len < 8 || (rec.len - 8) % 8 != 0 {
                    assert(goal == Err::<CopySt, LoaderError>(LoaderError::BadFraming));
                    return Err(LoaderError::BadFraming);
                }
                let elf = parse_minielf(&cfg.args, &rec);
                proof {
                    assert forall|k: int|
                        0 <= k < elf.sections@.len() implies (#[trigger] elf.sections@[k]).len
                        <= 0xFFFF_FFFF by {
                        assert(elf.sections@[k] == crate::minielf::spec_section(
                            cfg.args@,
                            rec.start + 8 + 8 * k,
                        ));
                    };
                }
                let pid1 = *pid + 1;
                let ghost pre_hal = *hal;
                let ghost sstart = swap_start(
                    st.sdata,
                    st.smacs,
                    st.sfree,
                    st.smaps,
                    elf.load_offset as int,
                );
                match transcode_process(
                    hal,
                    &mut cfg.swap_free_page,
                    &mut cfg.swap_mappings,
                    &elf,
                    pid1,
                ) {
                    Ok(_) => {
                        proof {
                            let h0 = old(hal_opt).unwrap();
                            lemma_swap_process_src_eq(
                                pre_hal,
                                h0,
                                pre_hal.dst_key@,
                                sstart,
                                elf.sections@,
                                pid1,
                            );
                        }
                    },
                    Err(e) => {
                        proof {
                            let h0 = old(hal_opt).unwrap();
                            lemma_swap_process_src_eq(
                                pre_hal,
                                h0,
                                pre_hal.dst_key@,
                                sstart,
                                elf.sections@,
                                pid1,
                            );
                        }
                        assert(goal == Err::<CopySt, LoaderError>(e));
                        return Err(e);
                    },
                }
                let idx = (pid1 - 1) as usize;
                let entry = InitialProcess {
                    satp: cfg.processes[idx].satp,
                    entrypoint: elf.entrypoint,
                    sp: cfg.processes[idx].sp,
                    env: cfg.processes[idx].env,
                    swap_root: cfg.processes[idx].swap_root,
                };
                cfg.processes[idx] = entry;
                *pid = pid1;
                proof {
                    let st1 = goal.unwrap();
                    assert(cfg.processes@ =~= st1.procs);
                }
                Ok(())
            },
            None => {
                assert(goal == Ok::<CopySt, LoaderError>(st));
                Ok(())
            },
        }
    } else {
        assert(goal == Ok::<CopySt, LoaderError>(st));
        Ok(())
    }
}

/// Copies every process the argument stream names into place: resident and
/// execute-in-place processes into RAM, the kernel as two page-rounded
/// blocks, swap-resident processes into encrypted swap RAM when swap is
/// configured. Process records advance the process id and set the entry
/// point of their descriptor.
#[verifier::rlimit(100)]
#[verifier::spinoff_prover]
pub fn copy_processes(cfg: &mut BootConfig, hal_opt: &mut Option<SwapHal>) -> (r: Result<
    (),
    LoaderError,
>)
    requires
        old(cfg).wf(),
        old(cfg).init_size as int % (PAGE_SIZE as int) == 0,
        crate::args::stream_well_framed(old(cfg).args@),
        old(cfg).processes@.len() == 1 + spec_process_count(
            spec_records(old(cfg).args@, XARG_BYTES as int),
        ),
        spec_process_count(spec_records(old(cfg).args@, XARG_BYTES as int)) <= 254,
        match *old(hal_opt) {
            Some(h) => h.wf() && old(cfg).swap_free_page * (PAGE_SIZE as int)
                <= h.dst_data_area@.len(),
            None => true,
        },
    ensures
        final(cfg).wf(),
        *final(cfg) == (BootConfig {
            ram: final(cfg).ram,
            extra_pages: final(cfg).extra_pages,
            processes: final(cfg).processes,
            swap_free_page: final(cfg).swap_free_page,
            swap_mappings: final(cfg).swap_mappings,
            reserved: final(cfg).reserved,
            ..*old(cfg)
        }),
        final(cfg).ram@.len() == old(cfg).ram@.len(),
        final(cfg).processes@.len() == old(cfg).processes@.len(),
        match (*final(hal_opt), *old(hal_opt)) {
            (Some(h), Some(h0)) => h.wf() && h == (SwapHal {
                dst_data_area: h.dst_data_area,
                dst_mac_area: h.dst_mac_area,
                buf_addr: h.buf_addr,
                buf_valid: h.buf_valid,
                buf: h.buf,
                ..h0
            }) && h.dst_data_area@.len() == h0.dst_data_area@.len() && h.dst_mac_area@.len()
                == h0.dst_mac_area@.len(),
            (None, None) => true,
            _ => false,
        },
        ({
            let t0 = old(cfg).sram_size - old(cfg).init_size;
            let st0 = CopySt {
                ram: old(cfg).ram@,
                extra: old(cfg).extra_pages as int,
                procs: old(cfg).processes@,
                sdata: hal_sdata(*old(hal_opt)),
                smacs: hal_smacs(*old(hal_opt)),
                sfree: old(cfg).swap_free_page as int,
                smaps: old(cfg).swap_mappings@,
                pid: 1,
            };
            match copy_records(
                t0,
                old(cfg).image@,
                old(cfg).args@,
                *old(hal_opt),
                spec_records(old(cfg).args@, XARG_BYTES as int),
                st0,
            ) {
                Ok(st) => {
                    &&& r is Ok
                    &&& final(cfg).ram@ == st.ram
                    &&& final(cfg).extra_pages == st.extra
                    &&& final(cfg).processes@ == st.procs
                    &&& final(cfg).swap_free_page == st.sfree
                    &&& final(cfg).swap_mappings@ == st.smaps
                    &&& hal_sdata(*final(hal_opt)) == st.sdata
                    &&& hal_smacs(*final(hal_opt)) == st.smacs
                },
                Err(e) => r == Err::<(), LoaderError>(e),
            }
        }),
{
    let ghost t0 = old(cfg).sram_size - old(cfg).init_size;
    let ghost recs_spec = spec_records(old(cfg).args@, XARG_BYTES as int);
    let ghost st0 = CopySt {
        ram: old(cfg).ram@,
        extra: old(cfg).extra_pages as int,
        procs: old(cfg).processes@,
        sdata: hal_sdata(*old(hal_opt)),
        smacs: hal_smacs(*old(hal_opt)),
        sfree: old(cfg).swap_free_page as int,
        smaps: old(cfg).swap_mappings@,
        pid: 1,
    };
    let ghost goal = copy_records(
        t0,
        old(cfg).image@,
        old(cfg).args@,
        *old(hal_opt),
        recs_spec,
        st0,
    );
    let recs = parse_records(&cfg.args);
    let mut pid: u8 = 1;
    let mut i: usize = 0;
    proof {
        assert(recs_spec.skip(0) =~= recs_spec);
        assert(recs_spec.take(0) =~= Seq::<ArgRecord>::empty());
        crate::args::lemma_process_count_bounds(recs_spec);
        assert(cfg.args@.len() <= 0xFFFF_FFFF) by {
            assert(crate::bytes::le32(cfg.args@, 8) == cfg.args@.len());
        };
    }
    while i < recs.len()
        invariant
            i <= recs@.len(),
            recs@ == recs_spec,
            recs_spec == spec_records(old(cfg).args@, XARG_BYTES as int),
            cfg.args@.len() <= 0xFFFF_FFFF,
            cfg.wf(),
            cfg.init_size as int % (PAGE_SIZE as int) == 0,
            cfg.ram@.len() == old(cfg).ram@.len(),
            *cfg == (BootConfig {
                ram: cfg.ram,
                extra_pages: cfg.extra_pages,
                processes: cfg.processes,
                swap_free_page: cfg.swap_free_page,
                swap_mappings: cfg.swap_mappings,
                reserved: cfg.reserved,
                ..*old(cfg)
            }),
            t0 == cfg.sram_size - cfg.init_size,
            match (*hal_opt, *old(hal_opt)) {
                (Some(h), Some(h0)) => h.wf() && h == (SwapHal {
                    dst_data_area: h.dst_data_area,
                    dst_mac_area: h.dst_mac_area,
                    buf_addr: h.buf_addr,
                    buf_valid: h.buf_valid,
                    buf: h.buf,
                    ..h0
                }) && h.dst_data_area@.len() == h0.dst_data_area@.len() && h.dst_mac_area@.len()
                    == h0.dst_mac_area@.len() && cfg.swap_free_page * (PAGE_SIZE as int)
                    <= h.dst_data_area@.len(),
                (None, None) => true,
                _ => false,
            },
            1 <= pid,
            pid as int <= 1 + spec_process_count(recs_spec.take(i as int)),
            spec_process_count(recs_spec) <= 254,
            cfg.processes@.len() == 1 + spec_process_count(recs_spec),
            old(cfg).processes@.len() == 1 + spec_process_count(recs_spec),
            forall|k: int|
                0 <= k < recs@.len() ==> (#[trigger] recs@[k]).start + recs@[k].len
                    <= cfg.args@.len(),
            goal == copy_records(
                t0,
                cfg.image@,
                cfg.args@,
                *old(hal_opt),
                recs_spec.skip(i as int),
                CopySt {
                    ram: cfg.ram@,
                    extra: cfg.extra_pages as int,
                    procs: cfg.processes@,
                    sdata: hal_sdata(*hal_opt),
                    smacs: hal_smacs(*hal_opt),
                    sfree: cfg.swap_free_page as int,
                    smaps: cfg.swap_mappings@,
                    pid: pid as int,
                },
            ),
            goal == copy_records(
                t0,
                old(cfg).image@,
                old(cfg).args@,
                *old(hal_opt),
                recs_spec,
                st0,
            ),
            st0 == (CopySt {
                ram: old(cfg).ram@,
                extra: old(cfg).extra_pages as int,
                procs: old(cfg).processes@,
                sdata: hal_sdata(*old(hal_opt)),
                smacs: hal_smacs(*old(hal_opt)),
                sfree: old(cfg).swap_free_page as int,
                smaps: old(cfg).swap_mappings@,
                pid: 1,
            }),
        decreases recs@.len() - i,
    {
        let ghost st_now = CopySt {
            ram: cfg.ram@,
            extra: cfg.extra_pages as int,
            procs: cfg.processes@,
            sdata: hal_sdata(*hal_opt),
            smacs: hal_smacs(*hal_opt),
            sfree: cfg.swap_free_page as int,
            smaps: cfg.swap_mappings@,
            pid: pid as int,
        };
        let rec = recs[i];
        proof {
            reveal(copy_records);
            assert(recs_spec.skip(i as int)[0] == rec);
            assert(recs_spec.skip(i as int).skip(1) =~= recs_spec.skip(i + 1));
            assert(goal == match copy_one_record(
                t0,
                cfg.image@,
                cfg.args@,
                *old(hal_opt),
                rec,
                st_now,
            ) {
                Ok(st1) => copy_records(
                    t0,
                    cfg.image@,
                    cfg.args@,
                    *old(hal_opt),
                    recs_spec.skip(i + 1),
                    st1,
                ),
                Err(e) => Err(e),
            });
            crate::args::lemma_process_count_take_step(recs_spec, i as int);
            crate::args::lemma_process_count_prefix(recs_spec, i + 1);
        }
        let ghost pre_hal_opt = *hal_opt;
        match do_one_record(cfg, hal_opt, rec, &mut pid) {
            Ok(_) => {
                proof {
                    lemma_copy_one_src_eq(
                        pre_hal_opt,
                        *old(hal_opt),
                        t0,
                        cfg.image@,
                        cfg.args@,
                        rec,
                        st_now,
                    );
                }
            },
            Err(e) => {
                proof {
                    lemma_copy_one_src_eq(
                        pre_hal_opt,
                        *old(hal_opt),
                        t0,
                        cfg.image@,
                        cfg.args@,
                        rec,
                        st_now,
                    );
                }
                assert(goal == Err::<CopySt, LoaderError>(e));
                return Err(e);
            },
        }
        i = i + 1;
    }
    proof {
        reveal(copy_records);
        assert(recs_spec.skip(recs@.len() as int) =~= Seq::<ArgRecord>::empty());
    }
    Ok(())
}

/// The source-image side of a swap backend matches its configuration: both
/// keys installed and the header page parsed into its fields.
pub open spec fn hal_src_ready(h: SwapHal, c: SwapCfg) -> bool {
    let aad_len = c.flash@[0] as int;
    let mac_offset = le32(c.flash@, 9 + aad_len) as int;
    &&& c.flash@.len() >= 1
    &&& h.src_key@ == c.src_key@
    &&& h.dst_key@ == c.dst_key@
    &&& h.aad@ == c.flash@.subrange(1, 1 + aad_len)
    &&& h.partial_nonce@ == c.flash@.subrange(1 + aad_len, 9 + aad_len)
    &&& h.src_data_area@ == c.flash@.subrange(PAGE_SIZE as int, PAGE_SIZE + mac_offset)
    &&& h.src_mac_area@ == c.flash@.subrange(
        PAGE_SIZE + mac_offset,
        PAGE_SIZE + mac_offset + (mac_offset / (PAGE_SIZE as int)) * (TAG_BYTES as int),
    )
}

/// A freshly brought-up swap backend: source side parsed, destination
/// arenas zeroed, sound.
pub open spec fn hal_ready(h: SwapHal, c: SwapCfg) -> bool {
    &&& hal_src_ready(h, c)
    &&& h.wf()
    &&& h.dst_data_area@ == zeros(swap_data_len(c.ram_size as int))
    &&& h.dst_mac_area@ == zeros(swap_mac_len(c.ram_size as int))
}

/// The secondary argument stream at the head of the first source page.
pub open spec fn page0_stream(h: SwapHal) -> Seq<u8> {
    h.spec_src_plain_page(0).subrange(0, le32(h.spec_src_plain_page(0), 8) as int)
}

/// The merger accepts the secondary stream: its length field names a whole
/// stream inside the page, and that stream is well framed.
pub open spec fn merge_ok(h: SwapHal) -> bool {
    &&& 32 <= le32(h.spec_src_plain_page(0), 8) <= PAGE_SIZE
    &&& crate::args::stream_well_framed(page0_stream(h))
}

/// The argument stream the boot runs on: the merged stream when swap
/// contributes and the arguments are copied at all.
pub open spec fn boot_stream(args: Seq<u8>, h: Option<SwapHal>, no_copy: bool) -> Seq<u8> {
    if no_copy {
        args
    } else {
        match h {
            None => args,
            Some(h) => crate::merge::spec_merged(args, page0_stream(h)),
        }
    }
}

/// Bytes the bookkeeping tables consume from the top of RAM for a given
/// process count and argument-stream length: the guard pages, the page
/// tracker, the descriptor table and the stream copy, rounded up to whole
/// pages, plus one swap page table per process when swap is configured.
pub open spec fn tables_total(cfg0: BootConfig, ipc: int, stream_len: int) -> int {
    crate::spec_page_round_up(
        GUARD_MEMORY_BYTES + crate::bootconfig::spec_rpt_len(cfg0) + (ipc + 1)
            * crate::bootconfig::DESC_BYTES + stream_len,
    ) + if cfg0.swap is Some {
        (ipc + 1) * (PAGE_SIZE as int)
    } else {
        0
    }
}

/// The descriptor table as the builder leaves it: zeroed entries, each
/// pointing at its swap page table when swap is configured.
pub open spec fn tables_procs(cfg0: BootConfig, ipc: int, total: int) -> Seq<InitialProcess> {
    Seq::new(
        (ipc + 1) as nat,
        |i: int|
            InitialProcess {
                satp: 0,
                entrypoint: 0,
                sp: 0,
                env: 0,
                swap_root: if cfg0.swap is Some {
                    (cfg0.sram_start + cfg0.sram_size - total + i * (PAGE_SIZE as int)) as usize
                } else {
                    0
                },
            },
    )
}

/// The stream the tables reserve room for: nothing when `no_copy` leaves
/// the arguments in FLASH.
pub open spec fn tables_stream_len(cfg0: BootConfig, merged: Option<Vec<u8>>) -> int {
    if cfg0.no_copy {
        0
    } else {
        match merged {
            Some(m) => m@.len() as int,
            None => cfg0.args@.len() as int,
        }
    }
}

/// The copy state the process copy starts from once the tables stand.
pub open spec fn copy_st0(cfg0: BootConfig, stream: Seq<u8>) -> CopySt {
    let cnt = spec_process_count(spec_records(stream, XARG_BYTES as int));
    let total = tables_total(
        cfg0,
        cnt,
        if cfg0.no_copy {
            0
        } else {
            stream.len() as int
        },
    );
    CopySt {
        ram: cfg0.ram@,
        extra: 0,
        procs: tables_procs(cfg0, cnt, total),
        sdata: match cfg0.swap {
            Some(c) => zeros(swap_data_len(c.ram_size as int)),
            None => Seq::empty(),
        },
        smacs: match cfg0.swap {
            Some(c) => zeros(swap_mac_len(c.ram_size as int)),
            None => Seq::empty(),
        },
        sfree: cfg0.swap_free_page as int,
        smaps: cfg0.swap_mappings@,
        pid: 1,
    }
}

/// Everything after stream validation succeeds for the stream and backend
/// at hand: the process count fits the id space, the tables fit RAM, and —
/// unless nothing is copied — every process record is accepted.
pub open spec fn rest_ok(cfg0: BootConfig, stream: Seq<u8>, h: Option<SwapHal>) -> bool {
    let cnt = spec_process_count(spec_records(stream, XARG_BYTES as int));
    let total = tables_total(
        cfg0,
        cnt,
        if cfg0.no_copy {
            0
        } else {
            stream.len() as int
        },
    );
    &&& cnt <= 254
    &&& total <= cfg0.sram_size
    &&& (cfg0.no_copy || copy_records(
        cfg0.sram_size - total,
        cfg0.image@,
        stream,
        h,
        spec_records(stream, XARG_BYTES as int),
        copy_st0(cfg0, stream),
    ) is Ok)
}

/// Phase one succeeds on exactly these boot configurations: a valid
/// argument stream; when swap is configured, a whole source image whose
/// first page authenticates and carries an acceptable secondary stream;
/// tables that fit RAM; and every process record accepted.
pub open spec fn boot_ok(cfg0: BootConfig) -> bool {
    &&& crate::args::stream_well_framed(cfg0.args@)
    &&& crate::args::stream_crc_ok(cfg0.args@)
    &&& match cfg0.swap {
        None => rest_ok(cfg0, cfg0.args@, None),
        Some(c) => {
            &&& swap_flash_ok(c.flash@)
            &&& swap_ram_ok(c.ram_size as int)
            &&& le32(c.flash@, 9 + c.flash@[0]) >= PAGE_SIZE
            &&& forall|h: SwapHal|
                #[trigger] hal_ready(h, c) ==> {
                    &&& h.src_page_authentic(0)
                    &&& (cfg0.no_copy || merge_ok(h))
                    &&& rest_ok(cfg0, boot_stream(cfg0.args@, Some(h), cfg0.no_copy), Some(h))
                }
        },
    }
}

/// Two swap backends that agree on the source side and the key run the
/// whole record fold alike.
proof fn lemma_copy_records_src_eq(
    a: Option<SwapHal>,
    b: Option<SwapHal>,
    t0: int,
    img: Seq<u8>,
    args: Seq<u8>,
    recs: Seq<ArgRecord>,
    st: CopySt,
)
    requires
        match (a, b) {
            (Some(ha), Some(hb)) => ha.src_key@ == hb.src_key@ && ha.partial_nonce@
                == hb.partial_nonce@ && ha.aad@ == hb.aad@ && ha.src_data_area@
                == hb.src_data_area@ && ha.src_mac_area@ == hb.src_mac_area@ && ha.dst_key@
                == hb.dst_key@,
            (None, None) => true,
            _ => false,
        },
    ensures
        copy_records(t0, img, args, a, recs, st) == copy_records(t0, img, args, b, recs, st),
    decreases recs.len(),
{
    reveal(copy_records);
    if recs.len() > 0 {
        lemma_copy_one_src_eq(a, b, t0, img, args, recs[0], st);
        match copy_one_record(t0, img, args, a, recs[0], st) {
            Ok(st1) => {
                lemma_copy_records_src_eq(a, b, t0, img, args, recs.skip(1), st1);
            },
            Err(_) => {},
        }
    }
}

/// Once one ready backend passes the swap-side checks, every ready backend
/// does: all the conditions depend only on the views its configuration
/// pins.
proof fn lemma_swap_conditions_transfer(cfg0: BootConfig, c: SwapCfg, h0: SwapHal)
    requires
        cfg0.swap == Some(c),
        hal_ready(h0, c),
        h0.src_page_authentic(0),
        !cfg0.no_copy ==> merge_ok(h0),
        rest_ok(cfg0, boot_stream(cfg0.args@, Some(h0), cfg0.no_copy), Some(h0)),
    ensures
        forall|h: SwapHal|
            #[trigger] hal_ready(h, c) ==> {
                &&& h.src_page_authentic(0)
                &&& (cfg0.no_copy || merge_ok(h))
                &&& rest_ok(cfg0, boot_stream(cfg0.args@, Some(h), cfg0.no_copy), Some(h))
            },
{
    assert forall|h: SwapHal| #[trigger] hal_ready(h, c) implies {
        &&& h.src_page_authentic(0)
        &&& (cfg0.no_copy || merge_ok(h))
        &&& rest_ok(cfg0, boot_stream(cfg0.args@, Some(h), cfg0.no_copy), Some(h))
    } by {
        lemma_src_side_eq(h, h0, 0);
        assert(h.spec_src_plain_page(0) == h0.spec_src_plain_page(0));
        assert(h.src_page_authentic(0) == h0.src_page_authentic(0));
        let stream = boot_stream(cfg0.args@, Some(h0), cfg0.no_copy);
        assert(boot_stream(cfg0.args@, Some(h), cfg0.no_copy) == stream);
        if !cfg0.no_copy {
            let cnt = spec_process_count(spec_records(stream, XARG_BYTES as int));
            let total = tables_total(cfg0, cnt, stream.len() as int);
            lemma_copy_records_src_eq(
                Some(h),
                Some(h0),
                cfg0.sram_size - total,
                cfg0.image@,
                stream,
                spec_records(stream, XARG_BYTES as int),
                copy_st0(cfg0, stream),
            );
        }
    }
}

/// Installs the active argument stream in its reserved spot: the merged
/// stream when the merger ran, the boot image's own stream otherwise. The
/// reservation accounts for the stream's bytes at the top of RAM.
pub fn copy_args(cfg: &mut BootConfig, merged: Option<Vec<u8>>) -> (r: Result<(), LoaderError>)
    requires
        old(cfg).wf(),
    ensures
        final(cfg).wf(),
        ({
            let stream = match merged {
                Some(m) => m@,
                None => old(cfg).args@,
            };
            &&& (r is Ok <==> old(cfg).init_size + old(cfg).extra_pages * (PAGE_SIZE as int)
                + stream.len() <= old(cfg).sram_size)
            &&& (r is Err ==> r == Err::<(), LoaderError>(LoaderError::OutOfRam) && *final(cfg)
                == *old(cfg))
            &&& (r is Ok ==> {
                &&& final(cfg).args@ == stream
                &&& final(cfg).init_size == old(cfg).init_size + stream.len()
                &&& *final(cfg) == (BootConfig {
                    args: final(cfg).args,
                    init_size: final(cfg).init_size,
                    reserved: final(cfg).reserved,
                    ..*old(cfg)
                })
            })
        }),
{
    match merged {
        Some(m) => {
            let _ = self_reserve(cfg, m.len())?;
            cfg.args = m;
            Ok(())
        },
        None => {
            let _ = self_reserve(cfg, cfg.args.len())?;
            Ok(())
        },
    }
}

/// Reserves `n` bytes at the top of RAM for the argument stream.
fn self_reserve(cfg: &mut BootConfig, n: usize) -> (r: Result<usize, LoaderError>)
    requires
        old(cfg).wf(),
    ensures
        final(cfg).wf(),
        r is Ok <==> old(cfg).init_size + old(cfg).extra_pages * (PAGE_SIZE as int) + n <= old(
            cfg,
        ).sram_size,
        r is Err ==> *final(cfg) == *old(cfg) && r == Err::<usize, LoaderError>(
            LoaderError::OutOfRam,
        ),
        r is Ok ==> final(cfg).init_size == old(cfg).init_size + n && *final(cfg) == (BootConfig {
            init_size: final(cfg).init_size,
            reserved: final(cfg).reserved,
            ..*old(cfg)
        }),
{
    cfg.try_reserve(n)
}

/// Builds the bookkeeping tables at the top of RAM: the guard pages, the
/// page tracker, the process table, the argument stream copy, and — when
/// swap is configured — the swap page tables.
#[verifier::rlimit(100)]
#[verifier::spinoff_prover]
#[verifier::rlimit(100)]
#[verifier::spinoff_prover]
fn build_tables(cfg: &mut BootConfig, merged: Option<Vec<u8>>) -> (r: Result<(), LoaderError>)
    requires
        old(cfg).wf(),
        old(cfg).init_size == 0,
        old(cfg).extra_pages == 0,
        old(cfg).init_process_count <= 254,
    ensures
        final(cfg).wf(),
        r is Err ==> r == Err::<(), LoaderError>(LoaderError::OutOfRam),
        r is Ok <==> tables_total(
            *old(cfg),
            old(cfg).init_process_count as int,
            tables_stream_len(*old(cfg), merged),
        ) <= old(cfg).sram_size,
        r is Ok ==> {
            let total = tables_total(
                *old(cfg),
                old(cfg).init_process_count as int,
                tables_stream_len(*old(cfg), merged),
            );
            &&& final(cfg).init_size == total
            &&& final(cfg).extra_pages == 0
            &&& final(cfg).runtime_page_tracker@ == crate::bytes::zeros(
                crate::bootconfig::spec_rpt_len(*old(cfg)),
            )
            &&& final(cfg).processes@ == tables_procs(
                *old(cfg),
                old(cfg).init_process_count as int,
                total,
            )
            &&& final(cfg).args@ == (if old(cfg).no_copy {
                old(cfg).args@
            } else {
                match merged {
                    Some(m) => m@,
                    None => old(cfg).args@,
                }
            })
            &&& *final(cfg) == (BootConfig {
                args: final(cfg).args,
                init_size: final(cfg).init_size,
                runtime_page_tracker: final(cfg).runtime_page_tracker,
                processes: final(cfg).processes,
                reserved: final(cfg).reserved,
                ..*old(cfg)
            })
            &&& final(cfg).runtime_page_tracker@.len() >= final(cfg).sram_size as int / (
            PAGE_SIZE as int)
        },
{
    let ghost total = tables_total(
        *old(cfg),
        old(cfg).init_process_count as int,
        tables_stream_len(*old(cfg), merged),
    );
    proof {
        crate::bootconfig::lemma_region_pages_nonneg(old(cfg).regions@);
        let base = GUARD_MEMORY_BYTES + crate::bootconfig::spec_rpt_len(*old(cfg)) + (old(
            cfg,
        ).init_process_count + 1) * crate::bootconfig::DESC_BYTES + tables_stream_len(
            *old(cfg),
            merged,
        );
        assert(crate::spec_page_round_up(base) >= base) by {
            let p = PAGE_SIZE as int;
            assert((base + p - 1) == ((base + p - 1) / p) * p + (base + p - 1) % p);
            assert((base + p - 1) % p < p);
        };
        assert(total >= base);
    }
    let _ = cfg.try_reserve(GUARD_MEMORY_BYTES)?;
    cfg.allocate_regions()?;
    proof {
        crate::bootconfig::lemma_region_pages_nonneg(cfg.regions@);
        assert(cfg.runtime_page_tracker@.len() >= cfg.sram_size as int / (PAGE_SIZE as int));
    }
    cfg.allocate_processes()?;
    if !cfg.no_copy {
        copy_args(cfg, merged)?;
    }
    cfg.align_up_to_page();
    proof {
        assert(cfg.init_size as int == crate::spec_page_round_up(
            GUARD_MEMORY_BYTES + crate::bootconfig::spec_rpt_len(*old(cfg)) + (old(
                cfg,
            ).init_process_count + 1) * crate::bootconfig::DESC_BYTES + tables_stream_len(
                *old(cfg),
                merged,
            ),
        ));
    }
    if cfg.swap.is_some() {
        cfg.allocate_swap()?;
    }
    proof {
        assert(cfg.init_size as int == total);
        assert(cfg.processes@ =~= tables_procs(
            *old(cfg),
            old(cfg).init_process_count as int,
            total,
        ));
    }
    Ok(())
}

/// Phase one of boot. Validates the argument stream; brings up the swap
/// backend and merges the swap argument stream when swap is configured and
/// arguments are copied; allocates the guard pages, the page tracker, the
/// process table, the argument copy and the swap page tables from the top
/// of RAM; copies the kernel and every process into place unless `no_copy`
/// leaves the image in FLASH; and marks the pages the loader consumed.
/// Succeeds exactly on the configurations `boot_ok` describes, leaving the
/// state the stage contracts compose to, and returns the swap backend for
/// the kernel's pager.
#[verifier::rlimit(100)]
#[verifier::spinoff_prover]
pub fn phase_1(cfg: &mut BootConfig) -> (r: Result<Option<SwapHal>, LoaderError>)
    requires
        old(cfg).wf(),
        old(cfg).init_size == 0,
        old(cfg).extra_pages == 0,
        old(cfg).swap_free_page == 0,
        old(cfg).args@.len() + PAGE_SIZE <= 0xFFFF_FFFF,
        match old(cfg).swap {
            Some(c) => c.wf(),
            None => true,
        },
    ensures
        !crate::args::stream_well_framed(old(cfg).args@) ==> r == Err::<
            Option<SwapHal>,
            LoaderError,
        >(LoaderError::BadFraming) && *final(cfg) == *old(cfg),
        crate::args::stream_well_framed(old(cfg).args@) && !crate::args::stream_crc_ok(
            old(cfg).args@,
        ) ==> r == Err::<Option<SwapHal>, LoaderError>(LoaderError::BadCrc) && *final(cfg) == *old(
            cfg,
        ),
        r is Ok <==> boot_ok(*old(cfg)),
        r matches Ok(hal_out) ==> ({
            let stream = boot_stream(old(cfg).args@, hal_out, old(cfg).no_copy);
            let cnt = spec_process_count(spec_records(stream, XARG_BYTES as int));
            let total = tables_total(
                *old(cfg),
                cnt,
                if old(cfg).no_copy {
                    0
                } else {
                    stream.len() as int
                },
            );
            &&& final(cfg).wf()
            &&& (hal_out is Some <==> old(cfg).swap is Some)
            &&& (match (hal_out, old(cfg).swap) {
                (Some(h), Some(c)) => hal_src_ready(h, c) && h.wf() && h.mac_table_covers(),
                _ => true,
            })
            &&& final(cfg).args@ == stream
            &&& crate::args::stream_well_framed(final(cfg).args@)
            &&& crate::args::stream_crc_ok(final(cfg).args@)
            &&& final(cfg).init_size == total
            &&& final(cfg).init_process_count == cnt
            &&& final(cfg).runtime_page_tracker@ == Seq::new(
                crate::bootconfig::spec_rpt_len(*old(cfg)) as nat,
                |j: int|
                    {
                        let sp = old(cfg).sram_size as int / (PAGE_SIZE as int);
                        if sp - total / (PAGE_SIZE as int) < j <= sp - 4 {
                            1u8
                        } else {
                            0u8
                        }
                    },
            )
            &&& *final(cfg) == (BootConfig {
                ram: final(cfg).ram,
                args: final(cfg).args,
                init_size: final(cfg).init_size,
                extra_pages: final(cfg).extra_pages,
                init_process_count: final(cfg).init_process_count,
                runtime_page_tracker: final(cfg).runtime_page_tracker,
                processes: final(cfg).processes,
                swap_free_page: final(cfg).swap_free_page,
                swap_mappings: final(cfg).swap_mappings,
                reserved: final(cfg).reserved,
                ..*old(cfg)
            })
            &&& (if old(cfg).no_copy {
                &&& final(cfg).ram@ == old(cfg).ram@
                &&& final(cfg).extra_pages == 0
                &&& final(cfg).processes@ == tables_procs(*old(cfg), cnt, total)
                &&& final(cfg).swap_free_page == old(cfg).swap_free_page
                &&& final(cfg).swap_mappings@ == old(cfg).swap_mappings@
            } else {
                match copy_records(
                    old(cfg).sram_size - total,
                    old(cfg).image@,
                    stream,
                    hal_out,
                    spec_records(stream, XARG_BYTES as int),
                    copy_st0(*old(cfg), stream),
                ) {
                    Ok(st) => {
                        &&& final(cfg).ram@ == st.ram
                        &&& final(cfg).extra_pages == st.extra
                        &&& final(cfg).processes@ == st.procs
                        &&& final(cfg).swap_free_page == st.sfree
                        &&& final(cfg).swap_mappings@ == st.smaps
                        &&& hal_sdata(hal_out) == st.sdata
                        &&& hal_smacs(hal_out) == st.smacs
                    },
                    Err(_) => false,
                }
            })
        }),
{
    // nothing is touched before the stream is validated
    match validate_args(&cfg.args) {
        Ok(_) => {},
        Err(e) => {
            return Err(e);
        },
    }
    // bring up the swap backend and decrypt the first swap page
    let mut hal_opt: Option<SwapHal> = None;
    match &cfg.swap {
        Some(c) => {
            let mut h = match SwapHal::new(c) {
                Ok(h) => h,
                Err(e) => {
                    assert(!boot_ok(*old(cfg)));
                    return Err(e);
                },
            };
            proof {
                assert(hal_ready(h, *c)) by {
                    assert(h.dst_data_area@ =~= zeros(swap_data_len(c.ram_size as int)));
                    assert(h.dst_mac_area@ =~= zeros(swap_mac_len(c.ram_size as int)));
                };
            }
            if h.src_data_area.len() < PAGE_SIZE {
                proof {
                    assert(le32(c.flash@, 9 + c.flash@[0]) < PAGE_SIZE);
                }
                assert(!boot_ok(*old(cfg)));
                return Err(LoaderError::BadFraming);
            }
            match h.decrypt_src_page_at(0) {
                Ok(_) => {},
                Err(e) => {
                    proof {
                        assert(!h.src_page_authentic(0));
                        if boot_ok(*old(cfg)) {
                            assert(hal_ready(h, *c));
                            assert(h.src_page_authentic(0));
                        }
                    }
                    return Err(e);
                },
            }
            proof {
                assert(hal_ready(h, *c));
                assert(h.buf@ == h.spec_src_plain_page(0));
            }
            hal_opt = Some(h);
        },
        None => {},
    }
    let ghost h0 = hal_opt;
    // merge the swap argument stream, unless nothing is copied at all
    let merged: Option<Vec<u8>> = if cfg.no_copy {
        None
    } else {
        match &hal_opt {
            Some(h) => {
                match merge_args(&cfg.args, h.get_decrypt()) {
                    Ok(m) => Some(m),
                    Err(e) => {
                        proof {
                            assert(!merge_ok(*h));
                            if boot_ok(*old(cfg)) {
                                let c = old(cfg).swap.unwrap();
                                assert(hal_ready(*h, c));
                                assert(merge_ok(*h));
                            }
                        }
                        return Err(e);
                    },
                }
            },
            None => None,
        }
    };
    let ghost stream = boot_stream(old(cfg).args@, h0, old(cfg).no_copy);
    proof {
        assert(match merged {
            Some(m) => m@ == stream,
            None => stream == old(cfg).args@,
        });
    }
    // the process count governs the table sizes
    let count = match &merged {
        Some(m) => {
            let recs = parse_records(m);
            count_processes(&recs)
        },
        None => {
            let recs = parse_records(&cfg.args);
            count_processes(&recs)
        },
    };
    proof {
        assert(count == spec_process_count(spec_records(stream, XARG_BYTES as int)));
    }
    if count > 254 {
        proof {
            if boot_ok(*old(cfg)) {
                match old(cfg).swap {
                    Some(c) => {
                        assert(hal_ready(h0.unwrap(), c));
                    },
                    None => {},
                }
            }
        }
        return Err(LoaderError::BadFraming);
    }
    cfg.init_process_count = count;
    let ghost total = tables_total(
        *old(cfg),
        count as int,
        if old(cfg).no_copy {
            0
        } else {
            stream.len() as int
        },
    );
    // guard pages, tracker, process table, argument copy, swap page tables
    let ghost cfg_tb = *cfg;
    match build_tables(cfg, merged) {
        Ok(_) => {},
        Err(e) => {
            proof {
                assert(tables_total(
                    cfg_tb,
                    count as int,
                    tables_stream_len(cfg_tb, merged),
                ) > cfg_tb.sram_size);
                assert(total > old(cfg).sram_size);
                if boot_ok(*old(cfg)) {
                    match old(cfg).swap {
                        Some(c) => {
                            assert(hal_ready(h0.unwrap(), c));
                        },
                        None => {},
                    }
                }
            }
            return Err(e);
        },
    }
    proof {
        assert(cfg.init_size == total);
        assert(cfg.args@ == stream);
        assert(cfg.processes@ == tables_procs(*old(cfg), count as int, total));
    }
    // copy every process into place, unless the image stays in FLASH
    if !cfg.no_copy {
        let ghost st0 = copy_st0(*old(cfg), stream);
        proof {
            assert(cfg.processes@.len() == 1 + count);
            assert(CopySt {
                ram: cfg.ram@,
                extra: cfg.extra_pages as int,
                procs: cfg.processes@,
                sdata: hal_sdata(hal_opt),
                smacs: hal_smacs(hal_opt),
                sfree: cfg.swap_free_page as int,
                smaps: cfg.swap_mappings@,
                pid: 1,
            } == st0);
        }
        match copy_processes(cfg, &mut hal_opt) {
            Ok(_) => {
                proof {
                    if hal_opt is Some {
                        lemma_copy_records_src_eq(
                            hal_opt,
                            h0,
                            old(cfg).sram_size - total,
                            old(cfg).image@,
                            stream,
                            spec_records(stream, XARG_BYTES as int),
                            st0,
                        );
                    }
                }
            },
            Err(e) => {
                proof {
                    assert(copy_records(
                        old(cfg).sram_size - total,
                        old(cfg).image@,
                        stream,
                        h0,
                        spec_records(stream, XARG_BYTES as int),
                        st0,
                    ) is Err);
                    if boot_ok(*old(cfg)) {
                        match old(cfg).swap {
                            Some(c) => {
                                assert(hal_ready(h0.unwrap(), c));
                            },
                            None => {},
                        }
                    }
                }
                return Err(e);
            },
        }
    }
    // everything the loader consumed belongs to the kernel, except the
    // guard pages at the very top
    let ghost tracker_before = cfg.runtime_page_tracker@;
    cfg.mark_pages();
    proof {
        assert(tracker_before == zeros(crate::bootconfig::spec_rpt_len(*old(cfg))));
        assert(cfg.runtime_page_tracker@ =~= Seq::new(
            crate::bootconfig::spec_rpt_len(*old(cfg)) as nat,
            |j: int|
                {
                    let sp = old(cfg).sram_size as int / (PAGE_SIZE as int);
                    if sp - total / (PAGE_SIZE as int) < j <= sp - 4 {
                        1u8
                    } else {
                        0u8
                    }
                },
        ));
        // the run just taken succeeds, so every ready backend does
        match old(cfg).swap {
            Some(c) => {
                let hh = h0.unwrap();
                assert(hal_ready(hh, c));
                lemma_swap_conditions_transfer(*old(cfg), c, hh);
            },
            None => {},
        }
        assert(boot_ok(*old(cfg)));
        match &hal_opt {
            Some(h) => {
                assert(h.mac_table_covers()) by {
                    let d = h.dst_data_area@.len() as int;
                    let m = h.dst_mac_area@.len() as int;
                    assert(m == (d / (PAGE_SIZE as int)) * 16);
                    assert(m / 16 == d / (PAGE_SIZE as int));
                };
            },
            None => {},
        }
    }
    Ok(hal_opt)
}

} // verus!
