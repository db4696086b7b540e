use serial_tool::display::{decimal, hex_byte};
use serial_tool::protocol::{compute_checksum, FrameError, Step, HEADER, PACKET, STX};

fn feed_all(parser: &mut PACKET, bytes: &[u8]) -> Vec<PACKET> {
    let mut out = Vec::new();
    for b in bytes {
        let (done, p) = parser.parse(*b);
        if done {
            out.push(p);
        }
    }
    out
}

fn payload_of(p: &PACKET) -> Vec<u8> {
    p.data[..(p.header.length as usize - 6)].to_vec()
}

#[test]
fn checksum_of_worked_example() {
    assert_eq!(compute_checksum(&[0xC1, 0x08, 0x12, 0x00, 0x04, 0x78]), 0x9F);
}

#[test]
fn checksum_of_empty_body_is_marker() {
    assert_eq!(compute_checksum(&[]), STX);
}

#[test]
fn checksum_wraps_on_overflow() {
    // 0x02 ^ 0xFD = 0xFF, plus one wraps to 0x00
    assert_eq!(compute_checksum(&[0xFD]), 0x00);
}

#[test]
fn empty_payload_frame_is_emitted() {
    let cs = compute_checksum(&[0xC1, 0x06, 0x12, 0x00]);
    assert_eq!(cs, 0xD3);
    let mut parser = PACKET::new();
    let out = feed_all(&mut parser, &[0x02, 0xC1, 0x06, 0x12, 0x00, cs]);
    assert_eq!(out.len(), 1);
    assert_eq!(out[0].header.length, 6);
    assert_eq!(payload_of(&out[0]).len(), 0);
    assert_eq!(out[0].checksum, 0xD3);
}

#[test]
fn worked_example_frame_is_emitted_once() {
    let mut parser = PACKET::new();
    let bytes = [0x02, 0xC1, 0x08, 0x12, 0x00, 0x04, 0x78, 0x9F];
    let out = parser.parse_all(&bytes);
    assert_eq!(out.len(), 1);
    let p = &out[0];
    assert_eq!(
        p.header,
        HEADER { stx: 0x02, id: 0xC1, length: 0x08, command: 0x12, sequence: 0x00 }
    );
    assert_eq!(payload_of(p), vec![0x04, 0x78]);
    assert_eq!(p.checksum, 0x9F);
    assert_eq!(parser.step, Step::Stx);
}

#[test]
fn parse_reports_nothing_before_the_last_byte() {
    let mut parser = PACKET::new();
    let bytes = [0x02, 0xC1, 0x08, 0x12, 0x00, 0x04, 0x78];
    for b in bytes {
        let (done, p) = parser.parse(b);
        assert!(!done);
        assert_eq!(p.header, PACKET::new().header);
    }
    let (done, p) = parser.parse(0x9F);
    assert!(done);
    assert_eq!(p.header.id, 0xC1);
}

#[test]
fn round_trip_through_the_wire() {
    let f = PACKET::build(0x11, 0x22, 0x33, &[1, 2, 3, 4, 5]).unwrap();
    assert_eq!(f.header.length, 11);
    let wire = f.serialize().unwrap();
    assert_eq!(wire.len(), 11);
    assert_eq!(&wire[..5], &[0x02, 0x11, 11, 0x22, 0x33]);
    assert_eq!(&wire[5..10], &[1, 2, 3, 4, 5]);
    let mut parser = PACKET::new();
    let out = parser.parse_all(&wire);
    assert_eq!(out.len(), 1);
    assert_eq!(out[0].header, f.header);
    assert_eq!(payload_of(&out[0]), vec![1, 2, 3, 4, 5]);
    assert_eq!(out[0].checksum, f.checksum);
}

#[test]
fn round_trip_of_the_longest_frame() {
    let payload: Vec<u8> = (0..249u32).map(|i| (i * 7) as u8).collect();
    let f = PACKET::build(0x01, 0x02, 0x03, &payload).unwrap();
    assert_eq!(f.header.length, 255);
    let wire = f.serialize().unwrap();
    assert_eq!(wire.len(), 255);
    let mut parser = PACKET::new();
    let out = parser.parse_all(&wire);
    assert_eq!(out.len(), 1);
    assert_eq!(payload_of(&out[0]), payload);
}

#[test]
fn payload_too_long_is_refused() {
    let payload = vec![0u8; 250];
    assert!(matches!(PACKET::build(0, 0, 0, &payload), Err(FrameError::InvalidFrame)));
}

#[test]
fn bad_checksum_is_dropped_and_next_frame_parses() {
    let mut parser = PACKET::new();
    let mut bytes = vec![0x02, 0xC1, 0x08, 0x12, 0x00, 0x04, 0x78, 0x9E];
    assert!(parser.parse_all(&bytes).is_empty());
    assert_eq!(parser.step, Step::Stx);
    bytes.extend_from_slice(&[0x02, 0xC1, 0x08, 0x12, 0x00, 0x04, 0x78, 0x9F]);
    let mut fresh = PACKET::new();
    let out = fresh.parse_all(&bytes);
    assert_eq!(out.len(), 1);
    assert_eq!(payload_of(&out[0]), vec![0x04, 0x78]);
    assert_eq!(out[0].checksum, 0x9F);
}

#[test]
fn every_wrong_checksum_is_dropped() {
    for c in 0..=255u8 {
        let mut parser = PACKET::new();
        let out = parser.parse_all(&[0x02, 0xC1, 0x06, 0x12, 0x00, c]);
        assert_eq!(out.len(), usize::from(c == 0xD3));
        assert_eq!(parser.step, Step::Stx);
    }
}

#[test]
fn stream_without_marker_stays_at_rest() {
    let bytes: Vec<u8> = (0..=255u8).filter(|b| *b != STX).collect();
    let mut parser = PACKET::new();
    for b in &bytes {
        let (done, _) = parser.parse(*b);
        assert!(!done);
        assert_eq!(parser.step, Step::Stx);
        assert_eq!(parser.header, PACKET::new().header);
    }
}

#[test]
fn short_length_is_invalid_frame() {
    for len in 0..6u8 {
        let mut parser = PACKET::new();
        assert!(matches!(parser.feed(0x02), Ok(None)));
        assert!(matches!(parser.feed(0xC1), Ok(None)));
        assert!(matches!(parser.feed(len), Err(FrameError::InvalidFrame)));
        assert_eq!(parser.step, Step::Stx);
        // the stream goes on; the next frame is parsed
        let out = parser.parse_all(&[0x02, 0xC1, 0x08, 0x12, 0x00, 0x04, 0x78, 0x9F]);
        assert_eq!(out.len(), 1);
    }
}

#[test]
fn serialize_refuses_short_length() {
    for len in 0..6u8 {
        let mut p = PACKET::new();
        p.header.length = len;
        assert_eq!(p.serialize(), Err(FrameError::InvalidFrame));
    }
}

#[test]
fn feed_hands_out_the_completed_packet() {
    let mut parser = PACKET::new();
    let bytes = [0x02, 0xC1, 0x08, 0x12, 0x00, 0x04, 0x78];
    for b in bytes {
        assert!(matches!(parser.feed(b), Ok(None)));
    }
    match parser.feed(0x9F) {
        Ok(Some(p)) => {
            assert_eq!(p.header.command, 0x12);
            assert_eq!(payload_of(&p), vec![0x04, 0x78]);
        }
        other => panic!("expected a packet, got {:?}", other.map(|o| o.is_some())),
    }
}

#[test]
fn hex_and_decimal_cells() {
    assert_eq!(hex_byte(0x9F), "9F");
    assert_eq!(hex_byte(0x02), "02");
    assert_eq!(hex_byte(0xFF), "FF");
    assert_eq!(decimal(0), "0");
    assert_eq!(decimal(7), "7");
    assert_eq!(decimal(42), "42");
    assert_eq!(decimal(249), "249");
}

#[test]
fn packet_table_shows_fields_and_bytes() {
    let mut parser = PACKET::new();
    let out = parser.parse_all(&[0x02, 0xC1, 0x08, 0x12, 0x00, 0x04, 0x78, 0x9F]);
    let text = out[0].to_string();
    for cell in ["STX", "ID", "LEN", "CMD", "SEQ", "D1", "D2", "CS", "C1", "08", "12", "04", "78", "9F"] {
        assert!(text.contains(cell), "missing {} in {}", cell, text);
    }
    assert!(text.contains('|'));
    assert!(text.contains('+'));
    assert_eq!(text.lines().filter(|l| l.starts_with('|')).count(), 2);
}

#[test]
fn awaits_checksum_only_before_the_last_byte() {
    let mut parser = PACKET::new();
    let bytes = [0x02, 0xC1, 0x08, 0x12, 0x00, 0x04, 0x78];
    for b in bytes {
        assert!(!parser.awaits_checksum());
        parser.parse(b);
    }
    assert!(parser.awaits_checksum());
    let (done, _) = parser.parse(0x9E);
    assert!(!done);
    assert!(!parser.awaits_checksum());
}

#[test]
fn short_length_frame_in_a_stream_yields_nothing() {
    let mut parser = PACKET::new();
    let out = parser.parse_all(&[0x02, 0xC1, 0x03, 0x12, 0x00, 0x04, 0x78, 0x9F]);
    assert!(out.is_empty());
    assert_eq!(parser.step, Step::Stx);
}
