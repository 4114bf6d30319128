use tacit::packet::{
    encode_varint, read_packet, read_varint, serialize_packet, CHeader, FHeader, Packet,
    TraceError, TrapType,
};

#[test]
fn test_compressed_inferable_jump_byte() {
    // A compressed inferable jump with timestamp 51: the low two bits
    // 0b11 pick the form, the high six bits carry the delta.
    let bytes = vec![0b1100_1111u8];
    let mut pos = 0usize;
    let p = read_packet(&bytes, &mut pos).unwrap();
    assert!(p.is_compressed);
    assert_eq!(p.c_header, CHeader::CIj);
    assert_eq!(p.f_header, FHeader::FIj);
    assert_eq!(p.timestamp, 51);
    assert_eq!(pos, 1);
}

#[test]
fn test_compressed_taken_branch_byte() {
    // The same six timestamp bits under the taken-branch form 0b00.
    let bytes = vec![0b1100_1100u8];
    let mut pos = 0usize;
    let p = read_packet(&bytes, &mut pos).unwrap();
    assert!(p.is_compressed);
    assert_eq!(p.c_header, CHeader::CTb);
    assert_eq!(p.f_header, FHeader::FTb);
    assert_eq!(p.timestamp, 51);
}

#[test]
fn test_varint_two_bytes() {
    // [0x01, 0x82]: MSB-first fold with the stop bit on the last byte.
    let bytes = vec![0x01u8, 0x82u8];
    let mut pos = 0usize;
    let v = read_varint(&bytes, &mut pos).unwrap();
    assert_eq!(v, (2 << 7) | 1);
    assert_eq!(v, 257);
    assert_eq!(pos, 2);
}

#[test]
fn test_varint_unterminated_is_end_of_stream() {
    let bytes = vec![0x01u8, 0x02u8];
    let mut pos = 0usize;
    assert_eq!(read_varint(&bytes, &mut pos), Err(TraceError::EndOfStream));
}

#[test]
fn test_trap_packet() {
    // 0b010_100_10: uncompressed, full header FTrap, trap kind interrupt,
    // then three varints: trap address 0, target 0, timestamp 1.
    let bytes = vec![0b0101_0010u8, 0x80, 0x80, 0x81];
    let mut pos = 0usize;
    let p = read_packet(&bytes, &mut pos).unwrap();
    assert_eq!(p.f_header, FHeader::FTrap);
    assert_eq!(p.trap_type, TrapType::TInterrupt);
    assert_eq!(p.trap_address, 0);
    assert_eq!(p.target_address, 0);
    assert_eq!(p.timestamp, 1);
    assert_eq!(pos, 4);
}

#[test]
fn test_reserved_header_is_format_error() {
    // Full header bits 110 pick the reserved form.
    let bytes = vec![0b0001_1010u8];
    let mut pos = 0usize;
    assert_eq!(read_packet(&bytes, &mut pos), Err(TraceError::Format));
}

#[test]
fn test_varint_round_trip_values() {
    for v in [0u64, 1, 63, 64, 127, 128, 129, 257, 0xffff, 1 << 40, u64::MAX] {
        let bytes = encode_varint(v);
        let mut pos = 0usize;
        assert_eq!(read_varint(&bytes, &mut pos), Ok(v));
        assert_eq!(pos, bytes.len());
        // Decode-then-encode is a fixed point on encoded bytes.
        assert_eq!(encode_varint(v), bytes);
    }
}

#[test]
fn test_packet_round_trip() {
    let mut p = Packet::new();
    p.is_compressed = false;
    p.c_header = CHeader::CNa;
    p.f_header = FHeader::FUj;
    p.target_address = 0x1234;
    p.timestamp = 99;
    let bytes = serialize_packet(&p);
    let mut pos = 0usize;
    let q = read_packet(&bytes, &mut pos).unwrap();
    assert_eq!(q, p);
    assert_eq!(pos, bytes.len());

    let mut c = Packet::new();
    c.is_compressed = true;
    c.c_header = CHeader::CTb;
    c.f_header = FHeader::FTb;
    c.timestamp = 63;
    let cb = serialize_packet(&c);
    let mut cpos = 0usize;
    assert_eq!(read_packet(&cb, &mut cpos), Ok(c));

    let mut t = Packet::new();
    t.f_header = FHeader::FTrap;
    t.trap_type = TrapType::TReturn;
    t.trap_address = 0x40;
    t.target_address = 0x88;
    t.timestamp = 7;
    let tb = serialize_packet(&t);
    let mut tpos = 0usize;
    assert_eq!(read_packet(&tb, &mut tpos), Ok(t));
}

#[test]
fn test_empty_stream_is_end_of_stream() {
    let bytes: Vec<u8> = Vec::new();
    let mut pos = 0usize;
    assert_eq!(read_packet(&bytes, &mut pos), Err(TraceError::EndOfStream));
}
