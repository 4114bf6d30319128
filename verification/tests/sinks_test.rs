use tacit::afdo_receiver::AfdoReceiver;
use tacit::event::{Entry, Event};
use tacit::insn::{InsnInfo, InsnMap};
use tacit::json_receiver::JsonReceiver;
use tacit::packet::TrapType;
use tacit::speedscope_receiver::SpeedscopeReceiver;
use tacit::txt_receiver::TxtReceiver;
use tacit::unwind::{FuncSym, StackUnwinder, SymbolInfo};
use tacit::vpp_receiver::VPPReceiver;

fn insn(addr: u64, len: usize, mnemonic: &str, op: &str) -> InsnInfo {
    InsnInfo {
        address: addr,
        len,
        bytes: vec![0; len],
        mnemonic: String::from(mnemonic),
        op_str: String::from(op),
    }
}

/// Two functions: f at [0x100, 0x200), g at [0x200, wrapping back to
/// 0x100); a return instruction sits at 0x208.
fn sample_unwinder() -> StackUnwinder {
    let insn_map = InsnMap::from_insns(vec![
        insn(0x108, 4, "jal", "ra, 0xf8"),
        insn(0x208, 2, "c.jr", "ra"),
        insn(0x20a, 4, "jalr", "ra, 0(a5)"),
    ])
    .unwrap();
    let sym = |name: &str, index: u32, line: u32| SymbolInfo {
        name: String::from(name),
        index,
        line,
        file: String::from("main.c"),
    };
    StackUnwinder {
        func_symbols: vec![
            FuncSym { addr: 0x100, info: sym("f", 0, 3) },
            FuncSym { addr: 0x200, info: sym("g", 1, 12) },
        ],
        ranges: vec![(0x100, 0x200), (0x200, 0x100)],
        insn_map,
        frame_stack: Vec::new(),
    }
}

fn ij(to: u64, ts: u64) -> Entry {
    Entry::new_timed_event(Event::InferrableJump, ts, 0x108, to)
}

fn uj(from: u64, to: u64, ts: u64) -> Entry {
    Entry::new_timed_event(Event::UninferableJump, ts, from, to)
}

#[test]
fn test_unwinder_push_and_pop() {
    let mut u = sample_unwinder();
    let (ok1, depth1, info1) = u.step_ij(ij(0x100, 1));
    assert!(ok1);
    assert_eq!(depth1, 1);
    assert_eq!(info1.unwrap().name, "f");
    let (ok2, depth2, info2) = u.step_ij(ij(0x200, 2));
    assert!(ok2);
    assert_eq!(depth2, 2);
    assert_eq!(info2.unwrap().index, 1);
    // A jump to a non-function address opens nothing.
    let (ok3, depth3, info3) = u.step_ij(ij(0x123, 3));
    assert!(!ok3);
    assert_eq!(depth3, 2);
    assert!(info3.is_none());
    // A return from g back into f pops one frame; the top frame's range
    // then contains the target.
    let (ok4, depth4, closed) = u.step_uj(uj(0x208, 0x10c, 4)).unwrap();
    assert!(ok4);
    assert_eq!(depth4, 1);
    assert_eq!(closed.len(), 1);
    assert_eq!(closed[0].name, "g");
    // A jump whose source is not a return pops nothing.
    let (ok5, depth5, closed5) = u.step_uj(uj(0x20a, 0x500, 5)).unwrap();
    assert!(!ok5);
    assert_eq!(depth5, 1);
    assert!(closed5.is_empty());
    // The flush closes whatever is left; the stack ends empty.
    let left = u.flush();
    assert_eq!(left.len(), 1);
    assert_eq!(left[0].name, "f");
    assert_eq!(u.frame_stack.len(), 0);
}

#[test]
fn test_txt_lines() {
    let mut sink = TxtReceiver::new();
    sink._receive_entry(&Entry::new_insn(&insn(0x104, 4, "addi", "a0, a0, 1")));
    sink._receive_entry(&Entry::new_timed_event(Event::TakenBranch, 8, 0x104, 0xf4));
    sink._receive_entry(&Entry::new_timed_trap(TrapType::TException, 2, 0x104, 0x40));
    sink._flush();
    let text = String::from_utf8(sink.output().clone()).unwrap();
    assert_eq!(
        text,
        "0x104: addi a0, a0, 1\n[timestamp: 8] TakenBranch\n[timestamp: 2] TrapException\n"
    );
}

#[test]
fn test_json_objects() {
    let mut sink = JsonReceiver::new();
    sink._receive_entry(&Entry::new_insn(&insn(0x104, 4, "addi", "a0, a0, 1")));
    sink._receive_entry(&Entry::new_timed_event(Event::Start, 5, 0x100, 0));
    sink._flush();
    let text = String::from_utf8(sink.output().clone()).unwrap();
    assert_eq!(
        text,
        "{\"event\":\"Start\",\"arc\":[256,0],\"insn_bytes\":[],\"insn_mnemonic\":null,\"insn_op_str\":null,\"insn_len\":0,\"timestamp\":5}"
    );
}

#[test]
fn test_afdo_histogram() {
    let mut sink = AfdoReceiver::new(0x100);
    sink._receive_entry(&Entry::new_timed_event(Event::Start, 0, 0x100, 0));
    sink._receive_entry(&Entry::new_timed_event(Event::TakenBranch, 1, 0x110, 0x120));
    sink._receive_entry(&Entry::new_timed_event(Event::TakenBranch, 2, 0x130, 0x110));
    sink._receive_entry(&Entry::new_timed_event(Event::TakenBranch, 3, 0x110, 0x120));
    let text = String::from_utf8(sink._flush()).unwrap();
    assert_eq!(
        text,
        "3\n0-10:1\n20-30:1\n10-10:1\n0\n2\n10->20:2\n30->10:1\n"
    );
}

#[test]
fn test_speedscope_balance() {
    let mut sink = SpeedscopeReceiver::new(sample_unwinder());
    sink._receive_entry(&Entry::new_timed_event(Event::Start, 1, 0x100, 0)).unwrap();
    sink._receive_entry(&ij(0x100, 2)).unwrap();
    sink._receive_entry(&ij(0x200, 3)).unwrap();
    sink._receive_entry(&uj(0x208, 0x10c, 4)).unwrap();
    sink._receive_entry(&Entry::new_timed_event(Event::End, 9, 0x10c, 0)).unwrap();
    let text = String::from_utf8(sink._flush()).unwrap();
    let opens = text.matches("\"type\": \"O\"").count();
    let closes = text.matches("\"type\": \"C\"").count();
    assert_eq!(opens, 2);
    assert_eq!(opens, closes);
    assert!(text.contains("\"name\": \"tacit\""));
    assert!(text.contains("\"startValue\": 1"));
    assert!(text.contains("\"endValue\": 9"));
    assert!(text.contains("\"name\": \"f\""));
    assert!(text.contains("\"name\": \"g\""));
}

#[test]
fn test_vpp_paths() {
    let mut sink = VPPReceiver::new(sample_unwinder());
    sink._receive_entry(&ij(0x100, 10)).unwrap();
    sink._receive_entry(&Entry::new_timed_event(Event::TakenBranch, 11, 0x110, 0x120)).unwrap();
    sink._receive_entry(&Entry::new_timed_event(Event::NonTakenBranch, 12, 0x120, 0x124)).unwrap();
    sink._receive_entry(&uj(0x208, 0x500, 17)).unwrap();
    // A second run of the same path adds another interval.
    sink._receive_entry(&ij(0x100, 20)).unwrap();
    sink._receive_entry(&Entry::new_timed_event(Event::TakenBranch, 21, 0x110, 0x120)).unwrap();
    sink._receive_entry(&Entry::new_timed_event(Event::NonTakenBranch, 22, 0x120, 0x124)).unwrap();
    sink._receive_entry(&uj(0x208, 0x500, 23)).unwrap();
    let text = String::from_utf8(sink._flush()).unwrap();
    assert_eq!(
        text,
        "PATH:0x100-[true, false]\nINFO: f: main.c, line: 3\nINTERVALS: [7, 3]\n\n"
    );
}
