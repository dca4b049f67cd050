use loader::bootconfig::BootConfig;
use loader::errors::LoaderError;
use loader::phase1::phase_1;
use loader::PAGE_SIZE;

fn rec(tag: &[u8; 4], payload: &[u8]) -> Vec<u8> {
    assert!(payload.len() % 4 == 0);
    let mut v = Vec::new();
    v.extend_from_slice(tag);
    let words = (payload.len() / 4) as u16;
    v.extend_from_slice(&words.to_le_bytes());
    v.extend_from_slice(&[0, 0]);
    v.extend_from_slice(payload);
    v
}

fn build_stream(records: &[Vec<u8>]) -> Vec<u8> {
    let mut stream = rec(b"XArg", &[0u8; 24]);
    for r in records {
        stream.extend_from_slice(r);
    }
    let total = stream.len() as u32;
    stream[8..12].copy_from_slice(&total.to_le_bytes());
    let mut input = stream[8..32].to_vec();
    input[8] = 0;
    input[9] = 0;
    let crc = crc::Crc::<u16>::new(&crc::CRC_16_IBM_SDLC).checksum(&input);
    stream[16..18].copy_from_slice(&crc.to_le_bytes());
    stream
}

fn ini_payload(load_offset: u32, entrypoint: u32, sections: &[(u32, u32, u8)]) -> Vec<u8> {
    let mut p = Vec::new();
    p.extend_from_slice(&load_offset.to_le_bytes());
    p.extend_from_slice(&entrypoint.to_le_bytes());
    for (virt, len, flags) in sections {
        p.extend_from_slice(&virt.to_le_bytes());
        let word2 = len | ((*flags as u32) << 24);
        p.extend_from_slice(&word2.to_le_bytes());
    }
    p
}

fn xkrn_payload(load_offset: u32, text: u32, data: u32, bss: u32, entry: u32) -> Vec<u8> {
    let mut p = Vec::new();
    p.extend_from_slice(&load_offset.to_le_bytes());
    p.extend_from_slice(&text.to_le_bytes());
    p.extend_from_slice(&data.to_le_bytes());
    p.extend_from_slice(&bss.to_le_bytes());
    p.extend_from_slice(&entry.to_le_bytes());
    p
}

fn fresh_cfg(args: Vec<u8>, image: Vec<u8>) -> BootConfig {
    BootConfig::new(0x4000_0000, 256 * PAGE_SIZE, Vec::new(), args, image, None, false)
        .expect("configuration should build")
}

#[test]
fn boots_kernel_and_one_resident_process() {
    // one kernel, one resident process of one writable section
    let krn = rec(b"XKrn", &xkrn_payload(0x1000, 0x100, 0x20, 0x10, 0x2_0000));
    let ini = rec(b"IniE", &ini_payload(0x2000, 0x1_0000, &[(0x1_0000, 0x100, 1)]));
    let args = build_stream(&[krn, ini]);
    let mut image = vec![0u8; 0x2100];
    for i in 0..0x100 {
        image[0x1000 + i] = 0x11;  // kernel text
    }
    for i in 0..0x20 {
        image[0x1100 + i] = 0x22;  // kernel data
    }
    for i in 0..0x100 {
        image[0x2000 + i] = (i % 251) as u8;  // process data
    }
    let mut cfg = fresh_cfg(args, image);
    let hal = phase_1(&mut cfg).expect("boot should succeed");
    assert!(hal.is_none());
    // one kernel and one user process
    assert_eq!(cfg.processes.len(), 2);
    assert_eq!(cfg.processes[0].entrypoint, 0x2_0000);
    assert_eq!(cfg.processes[1].entrypoint, 0x1_0000);
    // three pages were taken: kernel text, kernel data, the process page
    assert_eq!(cfg.extra_pages, 3);
    let t0 = cfg.sram_size - cfg.init_size;
    // the kernel text page holds the text bytes, zero-filled to the page
    let text = t0 - PAGE_SIZE;
    assert!(cfg.ram[text..text + 0x100].iter().all(|b| *b == 0x11));
    assert!(cfg.ram[text + 0x100..text + PAGE_SIZE].iter().all(|b| *b == 0));
    // the kernel data page holds the data bytes, zero-filled
    let data = t0 - 2 * PAGE_SIZE;
    assert!(cfg.ram[data..data + 0x20].iter().all(|b| *b == 0x22));
    assert!(cfg.ram[data + 0x20..data + PAGE_SIZE].iter().all(|b| *b == 0));
    // the process page holds its section followed by zeros
    let page = t0 - 3 * PAGE_SIZE;
    for i in 0..0x100 {
        assert_eq!(cfg.ram[page + i], (i % 251) as u8);
    }
    assert!(cfg.ram[page + 0x100..page + PAGE_SIZE].iter().all(|b| *b == 0));
    // the pages the loader consumed are owned by the kernel, the four guard
    // pages are not
    let s = cfg.sram_size / PAGE_SIZE;
    let k = cfg.init_size / PAGE_SIZE;
    assert!(k > 4);
    assert_eq!(cfg.runtime_page_tracker[s - 4], 1);
    assert_eq!(cfg.runtime_page_tracker[s - k + 1], 1);
    assert_eq!(cfg.runtime_page_tracker[s - 3], 0);
    assert_eq!(cfg.runtime_page_tracker[s - 1], 0);
}

#[test]
fn xip_process_leaves_read_only_sections_in_flash() {
    // an execute-in-place process: a read-only executable section stays in
    // FLASH, the writable section is copied into a fresh zeroed page
    let krn = rec(b"XKrn", &xkrn_payload(0x1000, 0x100, 0x20, 0x10, 0x2_0000));
    let fin = rec(
        b"IniF",
        &ini_payload(0x3000, 0x2_0000, &[(0x2_0000, 0x800, 4), (0x2_1000, 0x40, 1)]),
    );
    let args = build_stream(&[krn, fin]);
    let mut image = vec![0u8; 0x4000];
    for i in 0..0x100 {
        image[0x1000 + i] = 0x11;
    }
    for i in 0..0x800 {
        image[0x3000 + i] = 0x33;  // stays in FLASH
    }
    for i in 0..0x40 {
        image[0x3800 + i] = 0x44;  // copied to RAM
    }
    let mut cfg = fresh_cfg(args, image);
    phase_1(&mut cfg).expect("boot should succeed");
    // two kernel pages plus exactly one page for the writable section
    assert_eq!(cfg.extra_pages, 3);
    let t0 = cfg.sram_size - cfg.init_size;
    let page = t0 - 3 * PAGE_SIZE;
    assert!(cfg.ram[page..page + 0x40].iter().all(|b| *b == 0x44));
    assert!(cfg.ram[page + 0x40..page + PAGE_SIZE].iter().all(|b| *b == 0));
}

#[test]
fn non_monotonic_sections_fail_layout() {
    let ini = rec(
        b"IniE",
        &ini_payload(0x2000, 0x2_0000, &[(0x2_0000, 0x10, 1), (0x1_0000, 0x10, 1)]),
    );
    let args = build_stream(&[ini]);
    let image = vec![0u8; 0x3000];
    let mut cfg = fresh_cfg(args, image);
    assert!(matches!(phase_1(&mut cfg), Err(LoaderError::NonMonotonicSections)));
}

#[test]
fn corrupted_argument_stream_stops_before_any_allocation() {
    let krn = rec(b"XKrn", &xkrn_payload(0x1000, 0x100, 0x20, 0x10, 0x2_0000));
    let mut args = build_stream(&[krn]);
    args[20] = args[20].wrapping_add(1);  // corrupt one manifest payload byte
    let image = vec![0u8; 0x2000];
    let mut cfg = fresh_cfg(args, image);
    assert!(matches!(phase_1(&mut cfg), Err(LoaderError::BadCrc)));
    // nothing was allocated
    assert_eq!(cfg.init_size, 0);
    assert_eq!(cfg.extra_pages, 0);
    assert_eq!(cfg.processes.len(), 0);
}

#[test]
fn reservations_descend_and_stay_disjoint() {
    let mut cfg = fresh_cfg(Vec::new(), Vec::new());
    let a = cfg.try_reserve(100).expect("fits");
    let b = cfg.try_reserve(50).expect("fits");
    let c = cfg.try_reserve(4096).expect("fits");
    // each range sits wholly below the one before it
    assert_eq!(a, cfg.sram_size - 100);
    assert_eq!(b + 50, a);
    assert_eq!(c + 4096, b);
    // exhausting RAM fails and leaves the watermark alone
    let before = cfg.init_size;
    assert_eq!(cfg.try_reserve(usize::MAX), Err(LoaderError::OutOfRam));
    assert_eq!(cfg.init_size, before);
}

#[test]
fn out_of_ram_is_reported() {
    // a process bigger than all of RAM
    let ini = rec(b"IniE", &ini_payload(0x2000, 0x1_0000, &[(0x1_0000, 0xFF_F000, 3)]));
    let args = build_stream(&[ini]);
    let image = vec![0u8; 0x2000];
    let mut cfg = fresh_cfg(args, image);
    assert!(matches!(phase_1(&mut cfg), Err(LoaderError::OutOfRam)));
}

#[test]
fn bss_sections_are_zero_filled_without_image_bytes() {
    // a no-copy section consumes no image bytes and lands as zeros
    let ini = rec(
        b"IniE",
        &ini_payload(0x2000, 0x1_0000, &[(0x1_0000, 0x20, 1), (0x1_0020, 0x30, 3)]),
    );
    let args = build_stream(&[ini]);
    let mut image = vec![0u8; 0x2020];
    for i in 0..0x20 {
        image[0x2000 + i] = 0x5A;
    }
    let mut cfg = fresh_cfg(args, image);
    phase_1(&mut cfg).expect("boot should succeed");
    assert_eq!(cfg.extra_pages, 1);
    let t0 = cfg.sram_size - cfg.init_size;
    let page = t0 - PAGE_SIZE;
    assert!(cfg.ram[page..page + 0x20].iter().all(|b| *b == 0x5A));
    assert!(cfg.ram[page + 0x20..page + PAGE_SIZE].iter().all(|b| *b == 0));
}

#[test]
fn kernel_storage_crossing_a_page_is_reserved_and_zeroed() {
    // the kernel's zero-filled storage runs past the page its data ends in:
    // the data block must be rounded from data plus that storage
    let krn = rec(b"XKrn", &xkrn_payload(0x1000, 0x100, 0x20, 0x1000, 0x2_0000));
    let args = build_stream(&[krn]);
    let mut image = vec![0u8; 0x1200];
    for i in 0..0x100 {
        image[0x1000 + i] = 0x11;
    }
    for i in 0..0x20 {
        image[0x1100 + i] = 0x22;
    }
    let mut cfg = fresh_cfg(args, image);
    phase_1(&mut cfg).expect("boot should succeed");
    // one text page, two pages for data plus its zero fill
    assert_eq!(cfg.extra_pages, 3);
    let t0 = cfg.sram_size - cfg.init_size;
    let data = t0 - 3 * PAGE_SIZE;
    assert!(cfg.ram[data..data + 0x20].iter().all(|b| *b == 0x22));
    assert!(cfg.ram[data + 0x20..data + 2 * PAGE_SIZE].iter().all(|b| *b == 0));
}

#[test]
fn no_copy_leaves_the_image_in_flash() {
    // with the no-copy flag, the tables are still built but nothing is
    // copied: no pages are taken and RAM stays untouched
    let krn = rec(b"XKrn", &xkrn_payload(0x1000, 0x100, 0x20, 0x10, 0x2_0000));
    let ini = rec(b"IniE", &ini_payload(0x2000, 0x1_0000, &[(0x1_0000, 0x100, 1)]));
    let args = build_stream(&[krn, ini]);
    let mut image = vec![0u8; 0x2100];
    for i in 0..0x100 {
        image[0x2000 + i] = 0x77;
    }
    let mut cfg =
        BootConfig::new(0x4000_0000, 256 * PAGE_SIZE, Vec::new(), args, image, None, true)
            .expect("configuration should build");
    phase_1(&mut cfg).expect("boot should succeed");
    assert_eq!(cfg.extra_pages, 0);
    assert!(cfg.ram.iter().all(|b| *b == 0));
    // the table still has one entry per process plus the kernel, unfilled
    assert_eq!(cfg.processes.len(), 2);
    assert_eq!(cfg.processes[1].entrypoint, 0);
}
