//! Where data is kept, and the statements that keep it.

use context_engine::parsing::chunker::Chunk;
use context_engine::parsing::relations::EdgeKind;
use context_engine::parsing::symbols::{record_id_for, QualifiedSymbol, Symbol, SymbolKind};
use context_engine::store::ops::{
    count_indexed_files, delete_all_data, delete_file_data, edge_table, find_symbol_by_name,
    first_count, first_value, get_all_file_meta, get_meta, get_symbols_for_file, insert_chunk,
    insert_edge, kind_to_str, qualified_symbols, set_meta, upsert_file_meta, upsert_symbol,
    BindValue, FileMeta, IndexMeta, Statement, SymbolRow,
};
use context_engine::store::schema::SCHEMA_DDL;
use context_engine::store::{db_path, open_db, sanitize_repo_name};

#[test]
fn repo_names_are_plain() {
    assert_eq!(sanitize_repo_name("/home/me/my-repo"), "home_me_my_repo");
    assert_eq!(sanitize_repo_name("C:\\code\\é1"), "C__code_é1");
    assert_eq!(sanitize_repo_name("__a_b__"), "a_b");
    assert_eq!(sanitize_repo_name("///"), "");
    assert_eq!(sanitize_repo_name(""), "");
}

#[test]
fn long_repo_names_keep_their_end() {
    let path = format!("/{}/{}", "a".repeat(40), "b".repeat(63));
    assert_eq!(sanitize_repo_name(&path), format!("_{}", "b".repeat(63)));
    let exact = "c".repeat(64);
    assert_eq!(sanitize_repo_name(&exact), exact);
    let long = format!("{}{}", "d".repeat(100), "e".repeat(64));
    assert_eq!(sanitize_repo_name(&long), "e".repeat(64));
}

#[test]
fn names_are_cut_between_characters_only() {
    let whole = "é".repeat(40);
    assert_eq!(sanitize_repo_name(&whole), "é".repeat(32));
    let split = format!("{}a", "é".repeat(32));
    assert_eq!(sanitize_repo_name(&split), format!("{}a", "é".repeat(31)));
    assert_eq!(open_db("/home/me", &split).database, sanitize_repo_name(&split));
    let wide = format!("{}ab", "語".repeat(30));
    assert_eq!(sanitize_repo_name(&wide), format!("{}ab", "語".repeat(20)));
    let wider = format!("{}abc", "𝐀".repeat(20));
    assert_eq!(sanitize_repo_name(&wider), format!("{}abc", "𝐀".repeat(15)));
}

#[test]
fn separators_around_a_path_change_nothing() {
    for path in ["srv/repo", "./srv/repo", "/srv/repo/", "\\srv\\repo\\.", " srv-repo\u{2026}"] {
        assert_eq!(sanitize_repo_name(path), "srv_repo");
    }
}

#[test]
fn a_database_is_kept_under_the_home_directory() {
    assert_eq!(
        db_path("/home/me", "/srv/repo"),
        vec!["/home/me", ".vibervn", "context-engine", "surreal", "srv_repo"]
    );
    let plan = open_db("/home/me", "/srv/repo");
    assert_eq!(plan.path, db_path("/home/me", "/srv/repo"));
    assert_eq!(plan.namespace, "context_engine");
    assert_eq!(plan.database, "srv_repo");
    assert_eq!(plan.ddl, SCHEMA_DDL);
}

#[test]
fn the_schema_defines_every_table() {
    for table in [
        "symbol", "chunk", "file_meta", "index_meta", "calls", "uses", "imports", "contains",
        "implements",
    ] {
        assert!(
            SCHEMA_DDL.contains(&format!("DEFINE TABLE {table} ")),
            "table {table} is missing"
        );
    }
}

/// A statement in one line: its text, its parameters and its context.
fn told(s: &Statement) -> String {
    let mut res = s.sql.clone();
    for bind in &s.binds {
        let value = match &bind.value {
            BindValue::Text(t) => format!("{t:?}"),
            BindValue::OptText(t) => format!("{t:?}"),
            BindValue::Int(i) => format!("{i}"),
            BindValue::Embedding => "<embedding>".to_owned(),
        };
        res.push_str(&format!(" | {}={}", bind.name, value));
    }
    res.push_str(&format!(" | {}", s.context));
    res
}

fn qualified(name: &str, file: &str) -> QualifiedSymbol {
    QualifiedSymbol { file: file.to_owned(), scope_path: Vec::new(), name: name.to_owned() }
}

#[test]
fn file_data_goes_edges_first() {
    let all: Vec<String> = delete_file_data("/a.rs").iter().map(told).collect();
    assert_eq!(
        all,
        vec![
            "DELETE FROM calls WHERE in_file = $path OR out_file = $path | path=\"/a.rs\" | delete calls",
            "DELETE FROM uses WHERE in_file = $path OR out_file = $path | path=\"/a.rs\" | delete uses",
            "DELETE FROM imports WHERE in_file = $path OR out_file = $path | path=\"/a.rs\" | delete imports",
            "DELETE FROM contains WHERE in_file = $path OR out_file = $path | path=\"/a.rs\" | delete contains",
            "DELETE FROM implements WHERE in_file = $path OR out_file = $path | path=\"/a.rs\" | delete implements",
            "DELETE FROM symbol WHERE file = $path | path=\"/a.rs\" | delete symbols",
            "DELETE FROM chunk WHERE file = $path | path=\"/a.rs\" | delete chunks",
            "DELETE FROM file_meta WHERE path = $path | path=\"/a.rs\" | delete file_meta",
        ]
    );
}

#[test]
fn all_data_goes_edges_first() {
    let all: Vec<String> = delete_all_data().iter().map(told).collect();
    assert_eq!(
        all,
        vec![
            "DELETE FROM calls | delete all calls",
            "DELETE FROM uses | delete all uses",
            "DELETE FROM imports | delete all imports",
            "DELETE FROM contains | delete all contains",
            "DELETE FROM implements | delete all implements",
            "DELETE FROM symbol | delete all symbols",
            "DELETE FROM chunk | delete all chunks",
            "DELETE FROM file_meta | delete all file_meta",
            "DELETE FROM index_meta | delete all index_meta",
        ]
    );
}

#[test]
fn symbols_are_written_under_their_record_id() {
    let sym = Symbol {
        qualified: QualifiedSymbol {
            file: "/a.rs".to_owned(),
            scope_path: vec!["m".to_owned(), "S".to_owned()],
            name: "f".to_owned(),
        },
        kind: SymbolKind::Method,
        line_start: 3,
        line_end: u32::MAX,
        signature: Some("fn f()".to_owned()),
        parent_fqn: Some("/a.rs::m::S".to_owned()),
    };
    assert_eq!(sym.qualified.fqn(), "/a.rs::m::S::f");
    assert_eq!(sym.qualified.record_id(), "symbol:⟨/a.rs::m::S::f⟩");
    assert_eq!(record_id_for("x"), "symbol:⟨x⟩");
    assert_eq!(
        told(&upsert_symbol(&sym)),
        "UPSERT type::thing($id) SET name = $name, kind = $kind, file = $file, \
         line_start = $line_start, line_end = $line_end, signature = $signature, \
         parent = $parent | id=\"symbol:⟨/a.rs::m::S::f⟩\" | name=\"f\" | kind=\"method\" | \
         file=\"/a.rs\" | line_start=3 | line_end=4294967295 | signature=Some(\"fn f()\") | \
         parent=Some(\"symbol:⟨/a.rs::m::S⟩\") | upsert symbol"
    );
}

#[test]
fn kinds_have_their_names() {
    let names: Vec<&str> = [
        SymbolKind::Function,
        SymbolKind::Method,
        SymbolKind::Struct,
        SymbolKind::Trait,
        SymbolKind::Impl,
        SymbolKind::Class,
        SymbolKind::Module,
        SymbolKind::Interface,
    ]
    .iter()
    .map(kind_to_str)
    .collect();
    assert_eq!(
        names,
        vec!["function", "method", "struct", "trait", "impl", "class", "module", "interface"]
    );
}

#[test]
fn only_calls_keep_their_line() {
    let from = qualified("f", "/a.rs");
    let to = qualified("g", "/b.rs");
    assert_eq!(
        told(&insert_edge(&from, &to, &EdgeKind::Calls, 7)),
        "RELATE type::thing($from)->calls->type::thing($to) SET line = $line, in_file = $in_file, \
         out_file = $out_file | from=\"symbol:⟨/a.rs::f⟩\" | to=\"symbol:⟨/b.rs::g⟩\" | line=7 | \
         in_file=\"/a.rs\" | out_file=\"/b.rs\" | insert calls edge"
    );
    for (kind, table) in [
        (EdgeKind::Uses, "uses"),
        (EdgeKind::Imports, "imports"),
        (EdgeKind::Contains, "contains"),
        (EdgeKind::Implements, "implements"),
    ] {
        assert_eq!(edge_table(&kind), table);
        assert_eq!(
            told(&insert_edge(&from, &to, &kind, 7)),
            format!(
                "RELATE type::thing($from)->{table}->type::thing($to) SET in_file = $in_file, \
                 out_file = $out_file | from=\"symbol:⟨/a.rs::f⟩\" | to=\"symbol:⟨/b.rs::g⟩\" | \
                 in_file=\"/a.rs\" | out_file=\"/b.rs\" | insert {table} edge"
            )
        );
    }
}

#[test]
fn chunks_refer_to_their_symbol() {
    let mut chunk = Chunk {
        file: "/a.rs".to_owned(),
        line_start: 1,
        line_end: 2,
        content: "x\ny".to_owned(),
        symbol_ref: Some("/a.rs::f".to_owned()),
    };
    assert_eq!(
        told(&insert_chunk(&chunk)),
        "CREATE chunk SET file = $file, line_start = $line_start, line_end = $line_end, \
         content = $content, embedding = $embedding, symbol_ref = $symbol_ref | file=\"/a.rs\" | \
         line_start=1 | line_end=2 | content=\"x\\ny\" | embedding=<embedding> | \
         symbol_ref=Some(\"symbol:⟨/a.rs::f⟩\") | insert chunk"
    );
    chunk.symbol_ref = None;
    assert!(told(&insert_chunk(&chunk)).contains(" | symbol_ref=None | "));
}

#[test]
fn metadata_is_written_and_read() {
    let meta = FileMeta {
        path: "/a.rs".to_owned(),
        mtime: -1,
        size: 12,
        repo: "/r".to_owned(),
    };
    assert_eq!(
        told(&upsert_file_meta(&meta)),
        "UPSERT file_meta SET path = $path, mtime = $mtime, size = $size, repo = $repo \
         WHERE path = $path | path=\"/a.rs\" | mtime=-1 | size=12 | repo=\"/r\" | upsert file_meta"
    );
    assert_eq!(
        told(&get_all_file_meta("/r")),
        "SELECT path, mtime, size, repo FROM file_meta WHERE repo = $repo | repo=\"/r\" | \
         get all file_meta"
    );
    assert_eq!(
        told(&set_meta("k", "v")),
        "UPSERT index_meta SET key = $key, value = $value WHERE key = $key | key=\"k\" | \
         value=\"v\" | set index_meta"
    );
    assert_eq!(
        told(&get_meta("k")),
        "SELECT key, value FROM index_meta WHERE key = $key | key=\"k\" | get index_meta"
    );
    let row = |value: &str| IndexMeta { key: "k".to_owned(), value: value.to_owned() };
    assert_eq!(first_value(vec![row("a"), row("b")]), Some("a".to_owned()));
    assert_eq!(first_value(Vec::new()), None);
}

#[test]
fn symbols_are_looked_up() {
    assert_eq!(
        told(&get_symbols_for_file("/a.rs")),
        "SELECT file, name FROM symbol WHERE file = $file | file=\"/a.rs\" | get symbols for file"
    );
    assert_eq!(
        told(&find_symbol_by_name("f")),
        "SELECT file, name FROM symbol WHERE name = $name | name=\"f\" | find symbol by name"
    );
    let rows = vec![
        SymbolRow { file: "/a.rs".to_owned(), name: "f".to_owned() },
        SymbolRow { file: "/b.rs".to_owned(), name: "g".to_owned() },
    ];
    let found = qualified_symbols(&rows);
    assert_eq!(found.len(), 2);
    assert_eq!(found[1].file, "/b.rs");
    assert_eq!(found[1].name, "g");
    assert!(found[1].scope_path.is_empty());
    assert!(qualified_symbols(&Vec::new()).is_empty());
}

#[test]
fn files_are_counted() {
    assert_eq!(
        told(&count_indexed_files("/r")),
        "SELECT count() AS count FROM file_meta WHERE repo = $repo GROUP ALL | repo=\"/r\" | \
         count indexed files"
    );
    assert_eq!(first_count(&[5, 6]), 5);
    assert_eq!(first_count(&[]), 0);
    assert_eq!(first_count(&[-1]), u64::MAX);
}
