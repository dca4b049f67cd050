use aes_gcm_siv::{AeadInOut, Aes256GcmSiv, KeyInit};
use loader::bootconfig::BootConfig;
use loader::errors::LoaderError;
use loader::phase1::phase_1;
use loader::swap::{SwapCfg, SwapHal};
use loader::PAGE_SIZE;

fn rec(tag: &[u8; 4], payload: &[u8]) -> Vec<u8> {
    assert!(payload.len() % 4 == 0);
    let mut v = Vec::new();
    v.extend_from_slice(tag);
    let words = (payload.len() / 4) as u16;
    v.extend_from_slice(&words.to_le_bytes());
    v.extend_from_slice(&[0, 0]);
    v.extend_from_slice(payload);
    v
}

fn build_stream(records: &[Vec<u8>]) -> Vec<u8> {
    let mut stream = rec(b"XArg", &[0u8; 24]);
    for r in records {
        stream.extend_from_slice(r);
    }
    let total = stream.len() as u32;
    stream[8..12].copy_from_slice(&total.to_le_bytes());
    let mut input = stream[8..32].to_vec();
    input[8] = 0;
    input[9] = 0;
    let crc = crc::Crc::<u16>::new(&crc::CRC_16_IBM_SDLC).checksum(&input);
    stream[16..18].copy_from_slice(&crc.to_le_bytes());
    stream
}

fn ini_payload(load_offset: u32, entrypoint: u32, sections: &[(u32, u32, u8)]) -> Vec<u8> {
    let mut p = Vec::new();
    p.extend_from_slice(&load_offset.to_le_bytes());
    p.extend_from_slice(&entrypoint.to_le_bytes());
    for (virt, len, flags) in sections {
        p.extend_from_slice(&virt.to_le_bytes());
        let word2 = len | ((*flags as u32) << 24);
        p.extend_from_slice(&word2.to_le_bytes());
    }
    p
}

/// Builds a swap source image the way an image builder does: a header page,
/// the encrypted plaintext pages, and the MAC table.
fn build_swap_flash(
    src_key: &[u8; 32],
    partial: &[u8; 8],
    aad: &[u8],
    plain_pages: &[Vec<u8>],
) -> Vec<u8> {
    let mac_offset = (plain_pages.len() * PAGE_SIZE) as u32;
    let mut flash = Vec::new();
    flash.push(aad.len() as u8);
    flash.extend_from_slice(aad);
    flash.extend_from_slice(partial);
    flash.extend_from_slice(&mac_offset.to_le_bytes());
    flash.resize(PAGE_SIZE, 0);
    let cipher = Aes256GcmSiv::new(aes_gcm_siv::Key::<Aes256GcmSiv>::from_slice(src_key));
    let mut macs = Vec::new();
    for (p, page) in plain_pages.iter().enumerate() {
        assert_eq!(page.len(), PAGE_SIZE);
        let mut ct = page.clone();
        let mut nonce = [0u8; 12];
        nonce[..4].copy_from_slice(&((p * PAGE_SIZE) as u32).to_be_bytes());
        nonce[4..].copy_from_slice(partial);
        let tag = cipher
            .encrypt_inout_detached(
                aes_gcm_siv::Nonce::from_slice(&nonce),
                aad,
                (&mut ct[..]).into(),
            )
            .unwrap();
        flash.extend_from_slice(&ct);
        macs.extend_from_slice(&tag);
    }
    flash.extend_from_slice(&macs);
    flash
}

fn fresh_hal() -> SwapHal {
    let src_key = [1u8; 32];
    let partial = [9u8; 8];
    let aad = b"swap-img";
    let flash = build_swap_flash(&src_key, &partial, aad, &[vec![0u8; PAGE_SIZE]]);
    let cfg = SwapCfg {
        flash,
        ram_size: 16 * PAGE_SIZE,
        src_key: src_key.to_vec(),
        dst_key: [2u8; 32].to_vec(),
    };
    SwapHal::new(&cfg).expect("backend should come up")
}

#[test]
fn mac_table_covers_ciphertext_area() {
    let hal = fresh_hal();
    assert_eq!(hal.dst_mac_area.len() / 16, hal.dst_data_area.len() / PAGE_SIZE);
    assert_eq!(hal.dst_data_area.len() % PAGE_SIZE, 0);
}

#[test]
fn swap_page_round_trips() {
    let mut hal = fresh_hal();
    let plain: Vec<u8> = (0..PAGE_SIZE).map(|i| (i % 256) as u8).collect();
    let mut buf = plain.clone();
    hal.encrypt_swap_to(&mut buf, 0x2000, 0x5000, 3);
    // something was actually encrypted: the stored page differs from the
    // plaintext
    assert_ne!(&hal.dst_data_area[0x2000..0x3000], &plain[..]);
    let mut out = vec![0u8; PAGE_SIZE];
    hal.decrypt_swap_from(&mut out, 0x2000, 0x5000, 3).expect("round trip");
    assert_eq!(out, plain);
}

#[test]
fn swap_page_bindings_are_enforced() {
    let mut hal = fresh_hal();
    let plain: Vec<u8> = (0..PAGE_SIZE).map(|i| (i % 256) as u8).collect();
    let mut buf = plain.clone();
    hal.encrypt_swap_to(&mut buf, 0x2000, 0x5000, 3);
    let mut out = vec![0u8; PAGE_SIZE];
    // a wrong virtual page fails
    assert_eq!(hal.decrypt_swap_from(&mut out, 0x2000, 0x6000, 3), Err(LoaderError::SwapCrypto));
    // a wrong process id fails
    assert_eq!(hal.decrypt_swap_from(&mut out, 0x2000, 0x5000, 4), Err(LoaderError::SwapCrypto));
    // the page replayed into another slot fails
    let ct: Vec<u8> = hal.dst_data_area[0x2000..0x3000].to_vec();
    let tg: Vec<u8> = hal.dst_mac_area[2 * 16..3 * 16].to_vec();
    hal.dst_data_area[0x3000..0x4000].copy_from_slice(&ct);
    hal.dst_mac_area[3 * 16..4 * 16].copy_from_slice(&tg);
    assert_eq!(hal.decrypt_swap_from(&mut out, 0x3000, 0x5000, 3), Err(LoaderError::SwapCrypto));
    // a flipped ciphertext byte fails
    hal.dst_data_area[0x2004] = hal.dst_data_area[0x2004].wrapping_add(1);
    assert_eq!(hal.decrypt_swap_from(&mut out, 0x2000, 0x5000, 3), Err(LoaderError::SwapCrypto));
}

#[test]
fn source_page_tampering_is_fatal() {
    let src_key = [1u8; 32];
    let partial = [9u8; 8];
    let aad = b"swap-img";
    let mut flash = build_swap_flash(&src_key, &partial, aad, &[vec![7u8; PAGE_SIZE]]);
    // corrupt one ciphertext byte of the source image
    flash[PAGE_SIZE + 10] = flash[PAGE_SIZE + 10].wrapping_add(1);
    let cfg = SwapCfg {
        flash,
        ram_size: 16 * PAGE_SIZE,
        src_key: src_key.to_vec(),
        dst_key: [2u8; 32].to_vec(),
    };
    let mut hal = SwapHal::new(&cfg).expect("backend should come up");
    assert_eq!(hal.decrypt_src_page_at(0), Err(LoaderError::SrcCrypto));
}

fn swap_boot_image() -> (Vec<u8>, Vec<u8>, SwapCfg) {
    // the swap-resident process: two sections crossing a page boundary
    let inis = rec(
        b"IniS",
        &ini_payload(0x1000, 0x1_0FF0, &[(0x1_0FF0, 0x20, 0), (0x1_1010, 0x20, 0)]),
    );
    let secondary = build_stream(&[inis]);
    let mut page0 = secondary;
    page0.resize(PAGE_SIZE, 0);
    // the packed section bytes live at offset 0x1000 of the source image
    let mut page1 = vec![0u8; PAGE_SIZE];
    for i in 0..0x20 {
        page1[i] = 0xA0 + (i % 16) as u8;  // section A
    }
    for i in 0..0x20 {
        page1[0x20 + i] = 0xC0 + (i % 16) as u8;  // section B
    }
    let src_key = [1u8; 32];
    let partial = [9u8; 8];
    let aad = b"swap-img";
    let flash = build_swap_flash(&src_key, &partial, aad, &[page0, page1.clone()]);
    let swap = SwapCfg {
        flash,
        ram_size: 16 * PAGE_SIZE,
        src_key: src_key.to_vec(),
        dst_key: [2u8; 32].to_vec(),
    };
    let primary = build_stream(&[]);
    (primary, page1, swap)
}

#[test]
fn transcode_packs_sections_across_page_boundary() {
    let (primary, src_bytes, swap) = swap_boot_image();
    let mut cfg = BootConfig::new(
        0x4000_0000,
        256 * PAGE_SIZE,
        Vec::new(),
        primary,
        Vec::new(),
        Some(swap),
        false,
    )
    .expect("configuration should build");
    let hal = phase_1(&mut cfg).expect("boot should succeed");
    let hal = hal.expect("swap backend comes back");
    // one swap process, pid 2
    assert_eq!(cfg.processes.len(), 2);
    assert_eq!(cfg.processes[1].entrypoint, 0x1_0FF0);
    // two swap pages were written and mapped
    assert_eq!(cfg.swap_free_page, 2);
    assert_eq!(cfg.swap_mappings.len(), 2);
    // each installed page is recorded under the virtual page it holds
    assert_eq!(cfg.swap_mappings[0].swap_offset, 0);
    assert_eq!(cfg.swap_mappings[0].vaddr, 0x1_0000);
    assert_eq!(cfg.swap_mappings[0].pid, 2);
    assert_eq!(cfg.swap_mappings[1].swap_offset, PAGE_SIZE);
    assert_eq!(cfg.swap_mappings[1].vaddr, 0x1_1000);
    assert_eq!(cfg.swap_mappings[1].pid, 2);
    // first page: zeros up to 0xFF0, then the head of section A
    let mut out = vec![0u8; PAGE_SIZE];
    hal.decrypt_swap_from(&mut out, 0, cfg.swap_mappings[0].vaddr, 2).expect("page decrypts");
    assert!(out[..0xFF0].iter().all(|b| *b == 0));
    assert_eq!(&out[0xFF0..0x1000], &src_bytes[0..0x10]);
    // second page: the tail of section A, then section B, then zeros
    hal.decrypt_swap_from(&mut out, PAGE_SIZE, cfg.swap_mappings[1].vaddr, 2).expect(
        "page decrypts",
    );
    assert_eq!(&out[0..0x10], &src_bytes[0x10..0x20]);
    assert_eq!(&out[0x10..0x30], &src_bytes[0x20..0x40]);
    assert!(out[0x30..].iter().all(|b| *b == 0));
}

#[test]
fn tampered_mac_table_fails_without_touching_the_buffer() {
    let (primary, _src_bytes, swap) = swap_boot_image();
    let mut cfg = BootConfig::new(
        0x4000_0000,
        256 * PAGE_SIZE,
        Vec::new(),
        primary,
        Vec::new(),
        Some(swap),
        false,
    )
    .expect("configuration should build");
    let hal = phase_1(&mut cfg).expect("boot should succeed");
    let mut hal = hal.expect("swap backend comes back");
    // flip one byte of the MAC table entry of the first page
    hal.dst_mac_area[3] = hal.dst_mac_area[3].wrapping_add(1);
    let mut out = vec![0x5Au8; PAGE_SIZE];
    assert_eq!(
        hal.decrypt_swap_from(&mut out, 0, cfg.swap_mappings[0].vaddr, 2),
        Err(LoaderError::SwapCrypto)
    );
    // the caller's buffer was not touched
    assert!(out.iter().all(|b| *b == 0x5A));
}
