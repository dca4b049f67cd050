use loader::args::validate_args;
use loader::errors::LoaderError;
use loader::merge::merge_args;

fn rec(tag: &[u8; 4], payload: &[u8]) -> Vec<u8> {
    assert!(payload.len() % 4 == 0);
    let mut v = Vec::new();
    v.extend_from_slice(tag);
    let words = (payload.len() / 4) as u16;
    v.extend_from_slice(&words.to_le_bytes());
    v.extend_from_slice(&[0, 0]);
    v.extend_from_slice(payload);
    v
}

fn build_stream(records: &[Vec<u8>]) -> Vec<u8> {
    let mut stream = rec(b"XArg", &[0u8; 24]);
    for r in records {
        stream.extend_from_slice(r);
    }
    let total = stream.len() as u32;
    stream[8..12].copy_from_slice(&total.to_le_bytes());
    let mut input = stream[8..32].to_vec();
    input[8] = 0;
    input[9] = 0;
    let crc = crc::Crc::<u16>::new(&crc::CRC_16_IBM_SDLC).checksum(&input);
    stream[16..18].copy_from_slice(&crc.to_le_bytes());
    stream
}

#[test]
fn valid_stream_passes() {
    let stream = build_stream(&[rec(b"Blah", &[1, 2, 3, 4])]);
    assert_eq!(validate_args(&stream), Ok(()));
}

#[test]
fn short_stream_is_bad_framing() {
    let stream = vec![0u8; 8];
    assert_eq!(validate_args(&stream), Err(LoaderError::BadFraming));
}

#[test]
fn wrong_first_tag_is_bad_framing() {
    let mut stream = build_stream(&[]);
    stream[0] = b'Y';
    assert_eq!(validate_args(&stream), Err(LoaderError::BadFraming));
}

#[test]
fn wrong_total_length_is_bad_framing() {
    let mut stream = build_stream(&[]);
    stream[8] = stream[8].wrapping_add(1);
    assert_eq!(validate_args(&stream), Err(LoaderError::BadFraming));
}

#[test]
fn truncated_record_is_bad_framing() {
    let mut stream = build_stream(&[]);
    // a record header that promises a payload running past the stream
    stream.extend_from_slice(b"Junk");
    stream.extend_from_slice(&100u16.to_le_bytes());
    stream.extend_from_slice(&[0, 0]);
    let total = stream.len() as u32;
    stream[8..12].copy_from_slice(&total.to_le_bytes());
    let mut input = stream[8..32].to_vec();
    input[8] = 0;
    input[9] = 0;
    let crc = crc::Crc::<u16>::new(&crc::CRC_16_IBM_SDLC).checksum(&input);
    stream[16..18].copy_from_slice(&crc.to_le_bytes());
    assert_eq!(validate_args(&stream), Err(LoaderError::BadFraming));
}

#[test]
fn corrupted_payload_is_bad_crc() {
    let mut stream = build_stream(&[]);
    stream[20] = stream[20].wrapping_add(1);
    assert_eq!(validate_args(&stream), Err(LoaderError::BadCrc));
}

#[test]
fn corrupted_crc_field_is_bad_crc() {
    let mut stream = build_stream(&[]);
    stream[16] = stream[16].wrapping_add(1);
    assert_eq!(validate_args(&stream), Err(LoaderError::BadCrc));
}

#[test]
fn merge_appends_swap_records_and_validates() {
    let primary = build_stream(&[rec(b"XKrn", &[0u8; 20])]);
    // the secondary stream carries one swap process record and one record
    // of another kind, which the merger must drop
    let inis = rec(b"IniS", &[7u8; 16]);
    let other = rec(b"PNam", &[1u8; 8]);
    let secondary = build_stream(&[inis.clone(), other]);
    let mut page0 = secondary.clone();
    page0.resize(4096, 0);
    let merged = merge_args(&primary, &page0).expect("merge should succeed");
    // the merged stream passes the same validation as a fresh one
    assert_eq!(validate_args(&merged), Ok(()));
    // it is the primary plus exactly the swap record
    assert_eq!(merged.len(), primary.len() + inis.len());
    assert_eq!(&merged[primary.len()..], &inis[..]);
    // the length field was patched
    assert_eq!(
        u32::from_le_bytes([merged[8], merged[9], merged[10], merged[11]]),
        merged.len() as u32
    );
}

#[test]
fn merge_rejects_malformed_secondary() {
    let primary = build_stream(&[]);
    let page0 = vec![0u8; 4096];
    assert_eq!(merge_args(&primary, &page0), Err(LoaderError::BadFraming));
}

#[test]
fn le_round_trips() {
    let mut v = vec![0u8; 8];
    loader::bytes::write_le32(&mut v, 0, 0xDEAD_BEEF);
    loader::bytes::write_le16(&mut v, 4, 0xA55A);
    assert_eq!(loader::bytes::read_le32(&v, 0), 0xDEAD_BEEF);
    assert_eq!(loader::bytes::read_le16(&v, 4), 0xA55A);
    assert_eq!(v[0], 0xEF);
    assert_eq!(v[3], 0xDE);
}

#[test]
fn network_key_round_trip() {
    let key = loader::ifaces::network_pddb_key(String::from("libera"));
    assert_eq!(key, "user_networkslibera");
    assert!(loader::ifaces::is_valid_network_key(&key));
    assert!(!loader::ifaces::is_valid_network_key(&String::from("canary")));
    assert!(!loader::ifaces::is_valid_network_key(&String::from("user_network")));
}

#[test]
fn drive_capacity_check() {
    assert_eq!(loader::ifaces::check_drive_capacity(4096), Ok(()));
    assert_eq!(
        loader::ifaces::check_drive_capacity(4097),
        Err(loader::ifaces::FlashDriveError::CapacityNotPageAligned)
    );
}

#[test]
fn app_index_check() {
    assert_eq!(loader::ifaces::app_index_in_range(2, 3), Ok(()));
    assert_eq!(
        loader::ifaces::app_index_in_range(3, 3),
        Err(loader::ifaces::AppDispatchError::IndexNotFound(3))
    );
}

#[test]
fn join_tokens_single_spaces() {
    let mut buf = String::from("> ");
    let tokens = vec![String::from("lock"), String::from("the"), String::from("port")];
    loader::ifaces::join_tokens(&mut buf, &tokens);
    assert_eq!(buf, "> lock the port");
}

#[test]
fn tag_names() {
    assert_eq!(loader::phase1::TagType::IniE.to_str(), "IniE");
    assert_eq!(loader::phase1::TagType::XKrn.to_str(), "XKrn");
    assert_eq!(loader::phase1::TagType::classify(u32::from_le_bytes(*b"IniS")).to_str(), "IniS");
    assert_eq!(loader::phase1::TagType::classify(u32::from_le_bytes(*b"PNam")).to_str(), "Other");
}

#[test]
fn page_arithmetic() {
    assert_eq!(loader::page_round_up(0), 0);
    assert_eq!(loader::page_round_up(1), 4096);
    assert_eq!(loader::page_round_up(4096), 4096);
    assert_eq!(loader::page_round_down(4095), 0);
    assert_eq!(loader::page_round_down(8192), 8192);
    assert_eq!(loader::remaining_in_page(0x10FF0), 0x10);
    assert_eq!(loader::remaining_in_page(0x11000), 4096);
}
