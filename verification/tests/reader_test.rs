use tacit::gcno::{str_term, str_trim, Arc, Arcs, Blocks, Function, Gcno};
use tacit::reader::GCNOReader;

#[test]
fn test_cut_string() {
    let s = String::from("hello\0");
    let cut = str_trim(s);
    assert_eq!(cut, "hello");
}

#[test]
fn test_term_then_trim() {
    let s = str_term(String::from("sort.c"));
    assert_eq!(s, "sort.c\0");
    assert_eq!(str_trim(s), "sort.c");
}

fn push_u32(out: &mut Vec<u8>, v: u32) {
    out.extend_from_slice(&v.to_le_bytes());
}

fn push_record_string(out: &mut Vec<u8>, s: &str) {
    push_u32(out, s.len() as u32);
    out.extend_from_slice(s.as_bytes());
}

/// A small notes buffer: header, one function, its blocks, arcs, lines.
fn sample_gcno_bytes() -> Vec<u8> {
    let mut out = Vec::new();
    push_u32(&mut out, 0x67636e6f); // magic
    push_u32(&mut out, 0x42); // version
    push_u32(&mut out, 0x1234); // stamp
    // The cwd string sits between a zero word and one extra word.
    push_u32(&mut out, 0);
    push_record_string(&mut out, "/src");
    push_u32(&mut out, 0);
    // FUNCTION record.
    let mut payload = Vec::new();
    push_u32(&mut payload, 7); // identifier
    push_u32(&mut payload, 0xA); // lineno checksum
    push_u32(&mut payload, 0xB); // cfg checksum
    push_record_string(&mut payload, "main");
    push_u32(&mut payload, 0); // skipped word
    push_record_string(&mut payload, "main.c");
    push_u32(&mut payload, 3); // start line
    push_u32(&mut payload, 1); // start column
    push_u32(&mut payload, 9); // end line
    push_u32(&mut payload, 2); // end column
    push_u32(&mut out, 0x01000000);
    push_u32(&mut out, payload.len() as u32);
    out.extend_from_slice(&payload);
    // BLOCKS record.
    push_u32(&mut out, 0x01410000);
    push_u32(&mut out, 4);
    push_u32(&mut out, 4);
    // ARCS record: block 0 -> 2 and 0 -> 3.
    push_u32(&mut out, 0x01430000);
    push_u32(&mut out, 4 + 16);
    push_u32(&mut out, 0);
    push_u32(&mut out, 2);
    push_u32(&mut out, 0);
    push_u32(&mut out, 3);
    push_u32(&mut out, 0);
    // LINES record for block 2: file main.c, lines 4 and 5.
    let mut lines = Vec::new();
    push_u32(&mut lines, 2);
    push_u32(&mut lines, 0);
    push_record_string(&mut lines, "main.c");
    push_u32(&mut lines, 4);
    push_u32(&mut lines, 5);
    push_u32(&mut lines, 0);
    push_record_string(&mut lines, "");
    push_u32(&mut out, 0x01450000);
    push_u32(&mut out, lines.len() as u32);
    out.extend_from_slice(&lines);
    out
}

#[test]
fn test_gcno_header_and_records() {
    let mut reader = GCNOReader::new(sample_gcno_bytes()).unwrap();
    assert_eq!(reader.version(), 0x42);
    assert_eq!(reader.stamp(), 0x1234);
    assert_eq!(reader.cwd(), "/src");
    let gcno = reader.parse().unwrap();
    assert_eq!(gcno.functions.len(), 1);
    let f = &gcno.functions[0];
    assert_eq!(f.identifier, 7);
    assert_eq!(f.lineno_checksum, 0xA);
    assert_eq!(f.cfg_checksum, 0xB);
    assert_eq!(f.name, "main");
    assert_eq!(f.source, "main.c");
    assert_eq!(f.start_lineno, 3);
    assert_eq!(f.end_lineno, 9);
    let blocks = f.blocks.as_ref().unwrap();
    assert_eq!(blocks.num_blocks, 4);
    assert_eq!(blocks.arcs.len(), 1);
    assert_eq!(blocks.arcs[0].src_block, 0);
    assert_eq!(blocks.arcs[0].arcs.len(), 2);
    assert_eq!(blocks.arcs[0].arcs[1], Arc { src_block: 0, dst_block: 3, flags: 0 });
    assert_eq!(blocks.lines.len(), 1);
    assert_eq!(blocks.lines[0].block_id, 2);
    assert_eq!(blocks.lines[0].sources.len(), 1);
    assert_eq!(blocks.lines[0].sources[0].file_name, "main.c");
    assert_eq!(blocks.lines[0].sources[0].lineno, vec![4, 5]);
}

#[test]
fn test_gcno_bad_magic() {
    let mut bytes = sample_gcno_bytes();
    bytes[0] = 0;
    assert!(GCNOReader::new(bytes).is_err());
}

#[test]
fn test_gcno_unknown_tag_is_error() {
    let mut bytes = sample_gcno_bytes();
    let mut reader = {
        push_u32(&mut bytes, 0xdeadbeef);
        push_u32(&mut bytes, 0);
        GCNOReader::new(bytes).unwrap()
    };
    assert!(reader.parse().is_err());
}

/// A parsed-by-hand Gcno, for tests that start past the byte format.
fn sample_gcno() -> Gcno {
    let mut gcno = Gcno::new(0x42, 0x1234, String::from("/src"));
    let mut f = Function::new(
        7,
        0xA,
        0xB,
        String::from("main"),
        String::from("main.c"),
        3,
        1,
        9,
        2,
    );
    let mut blocks = Blocks::new(4);
    blocks.add_arcs(Arcs::new(
        2,
        0,
        vec![
            Arc { src_block: 0, dst_block: 2, flags: 0 },
            Arc { src_block: 0, dst_block: 3, flags: 0 },
        ],
    ));
    f.set_blocks(blocks);
    gcno.add_function(f);
    gcno
}

#[test]
fn test_gcno_struct_round() {
    let g = sample_gcno();
    assert_eq!(g.functions.len(), 1);
    assert!(g.functions[0].blocks.is_some());
}
