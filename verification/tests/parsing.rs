//! Splitting files into chunks.

use context_engine::parsing::chunker::{chunk_file, Chunk};
use context_engine::parsing::relations::{EdgeKind, EdgeTarget, RawEdge};
use context_engine::parsing::symbols::{QualifiedSymbol, Symbol, SymbolKind};

fn symbol(name: &str, line_start: u32, line_end: u32) -> Symbol {
    Symbol {
        qualified: QualifiedSymbol {
            file: "/a.rs".to_owned(),
            scope_path: Vec::new(),
            name: name.to_owned(),
        },
        kind: SymbolKind::Function,
        line_start,
        line_end,
        signature: None,
        parent_fqn: None,
    }
}

fn source(lines: usize) -> String {
    (1..=lines).map(|i| format!("line {i}\n")).collect()
}

/// The lines of each chunk and the symbol that it names.
fn told(chunks: &[Chunk]) -> Vec<(u32, u32, Option<&str>)> {
    chunks.iter().map(|c| (c.line_start, c.line_end, c.symbol_ref.as_deref())).collect()
}

#[test]
fn an_empty_file_has_no_chunks() {
    assert!(chunk_file("/a.rs", "", &[symbol("f", 1, 1)]).is_empty());
}

#[test]
fn a_short_file_is_one_chunk() {
    let chunks = chunk_file("/a.rs", "x\r\ny\n\nz", &[]);
    assert_eq!(told(&chunks), vec![(1, 4, None)]);
    assert_eq!(chunks[0].file, "/a.rs");
    assert_eq!(chunks[0].content, "x\ny\n\nz");
}

#[test]
fn windows_overlap_by_half() {
    let chunks = chunk_file("/a.rs", &source(120), &[]);
    assert_eq!(
        told(&chunks),
        vec![
            (1, 50, None),
            (26, 75, None),
            (51, 100, None),
            (76, 120, None),
            (101, 120, None),
        ]
    );
    assert!(chunks[1].content.starts_with("line 26\nline 27\n"));
    assert!(chunks[1].content.ends_with("\nline 75"));
}

#[test]
fn symbols_come_first_and_spare_windows() {
    let chunks = chunk_file("/a.rs", &source(60), &[symbol("f", 2, 3), symbol("g", 20, 60)]);
    assert_eq!(
        told(&chunks),
        vec![
            (2, 3, Some("/a.rs::f")),
            (20, 60, Some("/a.rs::g")),
            (1, 50, None),
        ]
    );
    assert_eq!(chunks[0].content, "line 2\nline 3");
}

#[test]
fn a_file_within_symbols_needs_no_window() {
    let chunks = chunk_file("/a.rs", &source(30), &[symbol("f", 1, 10), symbol("g", 5, 30)]);
    assert_eq!(told(&chunks), vec![(1, 10, Some("/a.rs::f")), (5, 30, Some("/a.rs::g"))]);
}

#[test]
fn symbols_are_cut_to_the_file() {
    let symbols = [
        symbol("zero", 0, 2),
        symbol("past_end", 2, 99),
        symbol("backwards", 3, 1),
        symbol("outside", 4, 9),
        symbol("nowhere", 0, 0),
    ];
    let chunks = chunk_file("/a.rs", &source(3), &symbols);
    assert_eq!(
        told(&chunks),
        vec![
            (1, 2, Some("/a.rs::zero")),
            (2, 3, Some("/a.rs::past_end")),
            (1, 1, Some("/a.rs::nowhere")),
        ]
    );
}

#[test]
fn every_line_is_in_a_chunk() {
    let chunks = chunk_file("/a.rs", &source(203), &[symbol("f", 40, 160)]);
    for line in 1..=203u32 {
        assert!(
            chunks.iter().any(|c| c.line_start <= line && line <= c.line_end),
            "line {line} is in no chunk"
        );
    }
}

#[test]
fn edges_name_their_ends() {
    let edge = RawEdge {
        from: symbol("f", 1, 1).qualified,
        to: EdgeTarget::Unresolved {
            name: "g".to_owned(),
            import_path: None,
            qualifier: Some("m".to_owned()),
        },
        kind: EdgeKind::Uses,
        line: 4,
    };
    assert_eq!(edge.from.fqn(), "/a.rs::f");
    assert_eq!(edge.kind, EdgeKind::Uses);
    assert!(matches!(edge.to, EdgeTarget::Unresolved { .. }));
}
