use october::book::{load, load_or_default, SkipReason};
use october::codec::{parse, HardwareAddress};
use october::packet::{create_packet_bytes, encode, extend_mac};
use october::wake::{listing_rows, wake_packet};

#[test]
fn format_is_canonical() {
    let addr = HardwareAddress { bytes: [0xAA, 0xBB, 0xCC, 0xDD, 0xEE, 0xFF] };
    let text = october::codec::format(&addr);
    assert_eq!(text, "aa:bb:cc:dd:ee:ff");
    assert_eq!(text.chars().count(), 17);
}

#[test]
fn format_parse_round_trip() {
    let addr = HardwareAddress { bytes: [0x00, 0x1B, 0x44, 0x11, 0x3A, 0xB7] };
    let text = october::codec::format(&addr);
    assert_eq!(text, "00:1b:44:11:3a:b7");
    let back = parse(&text).unwrap();
    assert_eq!(back, addr);
}

#[test]
fn parse_accepts_upper_case_and_hyphens() {
    let a = parse("AA-BB-CC-DD-EE-FF").unwrap();
    assert_eq!(a.bytes, [0xAA, 0xBB, 0xCC, 0xDD, 0xEE, 0xFF]);
    let b = parse("aA:bB-cC:dD-eE:fF").unwrap();
    assert_eq!(b.bytes, [0xAA, 0xBB, 0xCC, 0xDD, 0xEE, 0xFF]);
}

#[test]
fn parse_rejects_wrong_octet_counts() {
    assert!(parse("").is_err());
    assert!(parse("AA:BB:CC:DD:EE").is_err());
    assert!(parse("AA:BB:CC:DD:EE:FF:11").is_err());
    assert!(parse("AABBCCDDEEFF").is_err());
    assert!(parse("a:b:c:d:e:f").is_err());
    assert!(parse("aa:bb:cc:dd:ee:f").is_err());
}

#[test]
fn parse_rejects_non_hex_content() {
    assert!(parse("GG:BB:CC:DD:EE:FF").is_err());
    assert!(parse("aa:bb:cc:dd:ee:fg").is_err());
    assert!(parse("aa.bb.cc.dd.ee.ff").is_err());
    assert!(parse("not-a-mac").is_err());
}

#[test]
fn encode_layout() {
    let addr = HardwareAddress { bytes: [0xAA, 0xBB, 0xCC, 0xDD, 0xEE, 0xFF] };
    let packet = encode(&addr);
    assert_eq!(packet.len(), 102);
    for i in 0..6 {
        assert_eq!(packet[i], 0xFF);
    }
    for k in 0..16 {
        for i in 0..6 {
            assert_eq!(packet[6 + 6 * k + i], addr.bytes[i]);
        }
    }
}

#[test]
fn create_packet_bytes_matches_encode() {
    let bytes = [0x01u8, 0x02, 0x03, 0x04, 0x05, 0x06];
    let packet = create_packet_bytes(&bytes);
    assert_eq!(packet, encode(&HardwareAddress { bytes }));
}

#[test]
fn extend_mac_repeats_sixteen_times() {
    let bytes = [0x10u8, 0x20, 0x30, 0x40, 0x50, 0x60];
    let body = extend_mac(&bytes);
    assert_eq!(body.len(), 96);
    for k in 0..16 {
        assert_eq!(&body[6 * k..6 * k + 6], &bytes);
    }
}

#[test]
fn wake_packet_for_valid_address() {
    let packet = wake_packet("AA:BB:CC:DD:EE:FF").unwrap();
    assert_eq!(packet.len(), 102);
    let target = [0xAAu8, 0xBB, 0xCC, 0xDD, 0xEE, 0xFF];
    for k in 0..16 {
        assert_eq!(&packet[6 + 6 * k..12 + 6 * k], &target);
    }
}

#[test]
fn wake_packet_for_malformed_address() {
    assert!(wake_packet("not-a-mac").is_err());
    assert!(wake_packet("").is_err());
}

#[test]
fn load_skips_malformed_rows() {
    let source = "lab,AA:BB:CC:DD:EE:FF\nshortrow\ndesk,nothex\n";
    let (book, skips) = load(source);
    assert_eq!(book.len(), 1);
    let entry = book.entry(0);
    assert_eq!(entry.name, "lab");
    assert_eq!(entry.address.bytes, [0xAA, 0xBB, 0xCC, 0xDD, 0xEE, 0xFF]);
    assert_eq!(skips.len(), 2);
    assert_eq!(skips[0], (1, SkipReason::Unreadable));
    assert_eq!(skips[1], (2, SkipReason::BadAddress));
}

#[test]
fn load_reports_wrong_column_count() {
    let source = "justaname\n";
    let (book, skips) = load(source);
    assert_eq!(book.len(), 0);
    assert_eq!(skips, vec![(0, SkipReason::WrongColumnCount)]);
}

#[test]
fn load_collapses_identical_rows() {
    let source = "pc,AA:BB:CC:DD:EE:FF\npc,AA:BB:CC:DD:EE:FF\n";
    let (book, _) = load(source);
    assert_eq!(book.len(), 1);
}

#[test]
fn load_keeps_same_address_under_different_names() {
    let source = "pc,AA:BB:CC:DD:EE:FF\nlaptop,AA:BB:CC:DD:EE:FF\n";
    let (book, _) = load(source);
    assert_eq!(book.len(), 2);
}

#[test]
fn load_of_empty_source() {
    let (book, skips) = load("");
    assert_eq!(book.len(), 0);
    assert_eq!(skips.len(), 0);
}

#[test]
fn load_handles_quoted_names() {
    let source = "\"den, attic\",AA:BB:CC:DD:EE:FF\n";
    let (book, skips) = load(source);
    assert_eq!(book.len(), 1);
    assert_eq!(book.entry(0).name, "den, attic");
    assert_eq!(skips.len(), 0);
}

#[test]
fn unavailable_source_falls_back_to_empty_book() {
    let (book, skips) = load_or_default(None);
    assert_eq!(book.len(), 0);
    assert_eq!(skips.len(), 0);
}

#[test]
fn listing_rows_render_each_entry() {
    let source = "lab,00:1B:44:11:3A:B7\ndesk,AA-BB-CC-DD-EE-FF\n";
    let (book, _) = load(source);
    let rows = listing_rows(&book);
    assert_eq!(rows.len(), 2);
    assert_eq!(rows[0], ("lab".to_string(), "00:1b:44:11:3a:b7".to_string()));
    assert_eq!(rows[1], ("desk".to_string(), "aa:bb:cc:dd:ee:ff".to_string()));
}
