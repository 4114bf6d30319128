use tacit::decoder::{compute_offset, refund_addr, trace_decoder};
use tacit::event::Event;
use tacit::insn::{InsnInfo, InsnMap};
use tacit::packet::encode_varint;

fn insn(addr: u64, len: usize, mnemonic: &str, op: &str) -> InsnInfo {
    InsnInfo {
        address: addr,
        len,
        bytes: vec![0; len],
        mnemonic: String::from(mnemonic),
        op_str: String::from(op),
    }
}

#[test]
fn test_compute_offset_forms() {
    assert_eq!(compute_offset(&String::from("a0, a1, -0x10")), Some(-0x10));
    assert_eq!(compute_offset(&String::from("a0, 0x20")), Some(0x20));
    assert_eq!(compute_offset(&String::from("-12")), Some(-12));
    assert_eq!(compute_offset(&String::from("34")), Some(34));
    assert_eq!(compute_offset(&String::from("ra, 0xabC")), Some(0xabc));
    assert_eq!(compute_offset(&String::from("a0, a1")), None);
    assert_eq!(compute_offset(&String::from("")), None);
    assert_eq!(compute_offset(&String::from("a0, 0x")), None);
}

#[test]
fn test_refund_addr() {
    assert_eq!(refund_addr(0x80), 0x100);
    assert_eq!(refund_addr(0), 0);
}

#[test]
fn test_reconstruct_taken_branch() {
    // A two-instruction basic block ending in `beq`, then a taken-branch
    // packet whose offset comes from the operand string.
    let insns = vec![
        insn(0x100, 4, "addi", "a0, a0, 1"),
        insn(0x104, 4, "beq", "a0, a1, -0x10"),
    ];
    let map = InsnMap::from_insns(insns).unwrap();
    let mut trace: Vec<u8> = Vec::new();
    // First packet seeds the program counter: an uninferable-jump form
    // carrying target 0x80 (refunded to 0x100) and timestamp 5.
    trace.push(0b0000_1010);
    trace.extend_from_slice(&encode_varint(0x80));
    trace.extend_from_slice(&encode_varint(5));
    // A compressed taken branch with timestamp delta 3.
    trace.push(0b0000_1100);
    let events = trace_decoder(&trace, &map).unwrap();
    assert_eq!(events.len(), 4);
    assert_eq!(events[0].event, Event::Start);
    assert_eq!(events[0].timestamp, Some(5));
    assert_eq!(events[0].arc.0, 0x100);
    assert_eq!(events[1].event, Event::NoneEv);
    assert_eq!(events[1].arc.0, 0x100);
    assert_eq!(events[1].insn_mnemonic.as_deref(), Some("addi"));
    assert_eq!(events[2].event, Event::NoneEv);
    assert_eq!(events[2].arc.0, 0x104);
    assert_eq!(events[3].event, Event::TakenBranch);
    assert_eq!(events[3].arc, (0x104, 0x104 - 0x10));
    assert_eq!(events[3].timestamp, Some(8));
}

#[test]
fn test_reconstruct_sync_ends_trace() {
    let insns = vec![
        insn(0x100, 4, "addi", "a0, a0, 1"),
        insn(0x104, 4, "addi", "a0, a0, 2"),
        insn(0x108, 2, "c.jr", "ra"),
    ];
    let map = InsnMap::from_insns(insns).unwrap();
    let mut trace: Vec<u8> = Vec::new();
    trace.push(0b0000_1010); // uninferable-jump form seeds pc
    trace.extend_from_slice(&encode_varint(0x80));
    trace.extend_from_slice(&encode_varint(1));
    trace.push(0b0001_0110); // sync form
    trace.extend_from_slice(&encode_varint(0x84)); // stop at 0x108
    trace.extend_from_slice(&encode_varint(9));
    let events = trace_decoder(&trace, &map).unwrap();
    let kinds: Vec<Event> = events.iter().map(|e| e.event).collect();
    assert_eq!(
        kinds,
        vec![Event::Start, Event::NoneEv, Event::NoneEv, Event::End]
    );
    assert_eq!(events[3].timestamp, Some(9));
    assert_eq!(events[3].arc.0, 0x108);
}

#[test]
fn test_reconstruct_monotonic_timestamps() {
    let insns = vec![
        insn(0x100, 4, "beq", "a0, a1, 0x8"),
        insn(0x108, 4, "beq", "a0, a1, -0x8"),
    ];
    let map = InsnMap::from_insns(insns).unwrap();
    let mut trace: Vec<u8> = Vec::new();
    trace.push(0b0000_1010);
    trace.extend_from_slice(&encode_varint(0x80));
    trace.extend_from_slice(&encode_varint(2));
    trace.push(0b0000_0100); // compressed taken branch, delta 1
    trace.push(0b0000_1000); // compressed taken branch, delta 2
    let events = trace_decoder(&trace, &map).unwrap();
    let stamps: Vec<u64> = events
        .iter()
        .filter(|e| e.timestamp.is_some() && e.event != Event::End)
        .map(|e| e.timestamp.unwrap())
        .collect();
    let mut sorted = stamps.clone();
    sorted.sort();
    assert_eq!(stamps, sorted);
    assert_eq!(stamps, vec![2, 3, 5]);
}

#[test]
fn test_reconstruct_missing_pc_is_error() {
    let map = InsnMap::from_insns(vec![]).unwrap();
    let mut trace: Vec<u8> = Vec::new();
    trace.push(0b0000_1010);
    trace.extend_from_slice(&encode_varint(0x80));
    trace.extend_from_slice(&encode_varint(1));
    trace.push(0b0000_0100);
    assert!(trace_decoder(&trace, &map).is_err());
}
