use tacit::cfg::ControlFlowGraph;
use tacit::gcno::{Arc, Arcs, Blocks, Function, Gcno, Lines, Source};

fn sample_gcno() -> Gcno {
    let mut gcno = Gcno::new(0x42, 0x1234, String::from("/src"));
    let mut f = Function::new(
        1,
        0xA,
        0xB,
        String::from("main"),
        String::from("main.c"),
        3,
        1,
        9,
        2,
    );
    let mut blocks = Blocks::new(4);
    blocks.add_arcs(Arcs::new(
        2,
        0,
        vec![
            Arc { src_block: 0, dst_block: 2, flags: 0 },
            Arc { src_block: 0, dst_block: 3, flags: 0 },
        ],
    ));
    blocks.add_arcs(Arcs::new(
        1,
        2,
        vec![Arc { src_block: 2, dst_block: 1, flags: 1 }],
    ));
    blocks.add_arcs(Arcs::new(
        1,
        3,
        vec![Arc { src_block: 3, dst_block: 1, flags: 1 }],
    ));
    blocks.add_line(Lines {
        block_id: 2,
        sources: vec![Source { file_name: String::from("main.c"), lineno: vec![4, 5] }],
    });
    f.set_blocks(blocks);
    gcno.add_function(f);
    gcno
}

#[test]
fn test_cfg_lift_blocks_and_edges() {
    let cfg = ControlFlowGraph::from(sample_gcno()).unwrap();
    assert_eq!(cfg.version, 0x42);
    assert_eq!(cfg.stamp, 0x1234);
    assert_eq!(cfg.cwd, "/src");
    assert_eq!(cfg.functions.len(), 1);
    let f = &cfg.functions[0];
    assert_eq!(f.name, "main");
    assert_eq!(f.edges.len(), 4);
    assert_eq!(f.edges[0].from, 0);
    assert_eq!(f.edges[0].to, 2);
    assert_eq!(f.edges[2].edge_flags, 1);
    // Every function has the synthetic exit block 1; block 0's location
    // is the function start, block 1's is the function end.
    let b0 = f.basic_blocks.iter().find(|b| b.id == 0).unwrap();
    let b1 = f.basic_blocks.iter().find(|b| b.id == 1).unwrap();
    assert_eq!(b0.locations.last().unwrap().file, "main.c");
    assert_eq!(b0.locations.last().unwrap().lines, 3);
    assert_eq!(b1.locations.last().unwrap().file, "main.c");
    assert_eq!(b1.locations.last().unwrap().lines, 9);
    // Lines attach to their block.
    let b2 = f.basic_blocks.iter().find(|b| b.id == 2).unwrap();
    assert_eq!(b2.locations.len(), 2);
    assert_eq!(b2.locations[0].lines, 4);
    assert_eq!(b2.locations[1].lines, 5);
}

#[test]
fn test_cfg_lift_rejects_missing_entry_block() {
    let mut gcno = Gcno::new(1, 2, String::new());
    let mut f = Function::new(1, 0, 0, String::from("f"), String::from("f.c"), 1, 0, 2, 0);
    let mut blocks = Blocks::new(3);
    // No arcs out of block 0: the synthetic entry location has nowhere
    // to go.
    blocks.add_arcs(Arcs::new(1, 2, vec![Arc { src_block: 2, dst_block: 1, flags: 0 }]));
    f.set_blocks(blocks);
    gcno.add_function(f);
    assert!(ControlFlowGraph::from(gcno).is_err());
}

#[test]
fn test_entry_edge_detection() {
    let cfg = ControlFlowGraph::from(sample_gcno()).unwrap();
    let reports = cfg.functions[0].report_instrumented_edges().unwrap();
    // The tree edge 2 -> 1 is skipped; the two non-tree edges remain.
    assert_eq!(reports.len(), 2);
    assert!(reports[0].entry); // 0 -> 2
    assert!(!reports[1].entry); // 0 -> 3
    assert_eq!(reports[0].count, 0);
    assert_eq!(reports[0].func_name, "main");
}

#[test]
fn test_gcda_bytes() {
    let cfg = ControlFlowGraph::from(sample_gcno()).unwrap();
    let mut edge_map = cfg.report_instrumented_edges().unwrap();
    edge_map[0].edges[0].count = 3;
    edge_map[0].edges[1].count = 5;
    let bytes = cfg.write_gcda(&edge_map);
    let mut expected: Vec<u8> = Vec::new();
    for w in [0x67636461u32, 0x42, 0x1234, 0, 0x01000000, 12, 1, 0xA, 0xB, 0x01a10000, 16] {
        expected.extend_from_slice(&w.to_le_bytes());
    }
    expected.extend_from_slice(&3u64.to_le_bytes());
    expected.extend_from_slice(&5u64.to_le_bytes());
    assert_eq!(bytes, expected);
}

#[test]
fn test_increment_count() {
    let cfg = ControlFlowGraph::from(sample_gcno()).unwrap();
    let mut reports = cfg.functions[0].report_instrumented_edges().unwrap();
    reports[0].increment_count();
    reports[0].increment_count();
    assert_eq!(reports[0].count, 2);
    assert_eq!(reports[1].count, 0);
}
