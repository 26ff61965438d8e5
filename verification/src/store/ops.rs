//! The statements that keep a repository's data, and what their rows mean.

use vstd::prelude::*;

use crate::parsing::chunker::{Chunk, ChunkView};
use crate::parsing::relations::EdgeKind;
use crate::parsing::symbols::{
    record_id_for, record_id_of, QualifiedSymbol, QualifiedSymbolView, Symbol, SymbolKind,
    SymbolView,
};
use crate::text::{opt_text, texts};

verus! {

/// What is stored of a file.
#[derive(Debug, Clone)]
pub struct FileMeta {
    pub path: String,
    pub mtime: i64,
    pub size: i64,
    pub repo: String,
}

/// What a [`FileMeta`] says.
#[verifier::ext_equal]
pub struct FileMetaView {
    pub path: Seq<char>,
    pub mtime: i64,
    pub size: i64,
    pub repo: Seq<char>,
}

impl View for FileMeta {
    type V = FileMetaView;

    open spec fn view(&self) -> FileMetaView {
        FileMetaView { path: self.path@, mtime: self.mtime, size: self.size, repo: self.repo@ }
    }
}

/// A key and its value, stored with the index.
#[derive(Debug, Clone)]
pub struct IndexMeta {
    pub key: String,
    pub value: String,
}

/// A symbol as a query returns it.
#[derive(Debug, Clone)]
pub struct SymbolRow {
    pub file: String,
    pub name: String,
}

/// A value that is bound to a parameter of a statement.
#[derive(Debug, Clone)]
pub enum BindValue {
    Text(String),
    OptText(Option<String>),
    Int(i64),
    /// The embedding of the chunk that the statement inserts.
    Embedding,
}

/// What a [`BindValue`] says.
#[verifier::ext_equal]
pub enum BindValueView {
    Text(Seq<char>),
    OptText(Option<Seq<char>>),
    Int(i64),
    Embedding,
}

impl View for BindValue {
    type V = BindValueView;

    open spec fn view(&self) -> BindValueView {
        match *self {
            BindValue::Text(t) => BindValueView::Text(t@),
            BindValue::OptText(t) => BindValueView::OptText(opt_text(t)),
            BindValue::Int(i) => BindValueView::Int(i),
            BindValue::Embedding => BindValueView::Embedding,
        }
    }
}

/// A parameter of a statement and its value.
#[derive(Debug, Clone)]
pub struct Bind {
    pub name: String,
    pub value: BindValue,
}

/// What a [`Bind`] says.
#[verifier::ext_equal]
pub struct BindView {
    pub name: Seq<char>,
    pub value: BindValueView,
}

impl View for Bind {
    type V = BindView;

    open spec fn view(&self) -> BindView {
        BindView { name: self.name@, value: self.value@ }
    }
}

/// A statement to execute, with what to call it when it fails.
#[derive(Debug, Clone)]
pub struct Statement {
    pub sql: String,
    pub binds: Vec<Bind>,
    pub context: String,
}

/// What a [`Statement`] says.
#[verifier::ext_equal]
pub struct StatementView {
    pub sql: Seq<char>,
    pub binds: Seq<BindView>,
    pub context: Seq<char>,
}

/// What a sequence of binds says.
pub open spec fn bind_views(binds: Seq<Bind>) -> Seq<BindView> {
    Seq::new(binds.len(), |i: int| binds[i]@)
}

impl View for Statement {
    type V = StatementView;

    open spec fn view(&self) -> StatementView {
        StatementView { sql: self.sql@, binds: bind_views(self.binds@), context: self.context@ }
    }
}

/// What a sequence of statements says.
pub open spec fn statement_views(statements: Seq<Statement>) -> Seq<StatementView> {
    Seq::new(statements.len(), |i: int| statements[i]@)
}

/// A parameter with a text.
pub open spec fn text_bind(name: Seq<char>, value: Seq<char>) -> BindView {
    BindView { name, value: BindValueView::Text(value) }
}

/// A parameter with an optional text.
pub open spec fn opt_text_bind(name: Seq<char>, value: Option<Seq<char>>) -> BindView {
    BindView { name, value: BindValueView::OptText(value) }
}

/// A parameter with a number.
pub open spec fn int_bind(name: Seq<char>, value: i64) -> BindView {
    BindView { name, value: BindValueView::Int(value) }
}

fn bind_text(name: &str, value: &str) -> (res: Bind)
    ensures
        res@ == text_bind(name@, value@),
{
    Bind { name: name.to_owned(), value: BindValue::Text(value.to_owned()) }
}

fn bind_opt_text(name: &str, value: Option<String>) -> (res: Bind)
    ensures
        res@ == opt_text_bind(name@, opt_text(value)),
{
    Bind { name: name.to_owned(), value: BindValue::OptText(value) }
}

fn bind_int(name: &str, value: i64) -> (res: Bind)
    ensures
        res@ == int_bind(name@, value),
{
    Bind { name: name.to_owned(), value: BindValue::Int(value) }
}

/// The name of a symbol kind in the database.
pub open spec fn kind_name(k: SymbolKind) -> Seq<char> {
    match k {
        SymbolKind::Function => "function"@,
        SymbolKind::Method => "method"@,
        SymbolKind::Struct => "struct"@,
        SymbolKind::Trait => "trait"@,
        SymbolKind::Impl => "impl"@,
        SymbolKind::Class => "class"@,
        SymbolKind::Module => "module"@,
        SymbolKind::Interface => "interface"@,
    }
}

/// The name of a symbol kind in the database.
pub fn kind_to_str(k: &SymbolKind) -> (res: &'static str)
    ensures
        res@ == kind_name(*k),
{
    match k {
        SymbolKind::Function => "function",
        SymbolKind::Method => "method",
        SymbolKind::Struct => "struct",
        SymbolKind::Trait => "trait",
        SymbolKind::Impl => "impl",
        SymbolKind::Class => "class",
        SymbolKind::Module => "module",
        SymbolKind::Interface => "interface",
    }
}

/// The table that holds the edges of a kind.
pub open spec fn edge_table_spec(kind: EdgeKind) -> Seq<char> {
    match kind {
        EdgeKind::Calls => "calls"@,
        EdgeKind::Uses => "uses"@,
        EdgeKind::Imports => "imports"@,
        EdgeKind::Contains => "contains"@,
        EdgeKind::Implements => "implements"@,
    }
}

/// The table that holds the edges of a kind.
pub fn edge_table(kind: &EdgeKind) -> (res: &'static str)
    ensures
        res@ == edge_table_spec(*kind),
{
    match kind {
        EdgeKind::Calls => "calls",
        EdgeKind::Uses => "uses",
        EdgeKind::Imports => "imports",
        EdgeKind::Contains => "contains",
        EdgeKind::Implements => "implements",
    }
}

/// Deletes from `table` what satisfies `condition` for the file `path`.
pub open spec fn delete_of_file(
    table: Seq<char>,
    condition: Seq<char>,
    what: Seq<char>,
    path: Seq<char>,
) -> StatementView {
    StatementView {
        sql: "DELETE FROM "@ + table + condition,
        binds: seq![text_bind("path"@, path)],
        context: "delete "@ + what,
    }
}

/// Deletes the edges of a kind that start or end in the file `path`.
pub open spec fn delete_edges_of_file(kind: EdgeKind, path: Seq<char>) -> StatementView {
    delete_of_file(
        edge_table_spec(kind),
        " WHERE in_file = $path OR out_file = $path"@,
        edge_table_spec(kind),
        path,
    )
}

/// Deletes everything of one file: its edges first, then symbols, chunks and the
/// stored metadata.
pub open spec fn delete_file_data_spec(path: Seq<char>) -> Seq<StatementView> {
    seq![
        delete_edges_of_file(EdgeKind::Calls, path),
        delete_edges_of_file(EdgeKind::Uses, path),
        delete_edges_of_file(EdgeKind::Imports, path),
        delete_edges_of_file(EdgeKind::Contains, path),
        delete_edges_of_file(EdgeKind::Implements, path),
        delete_of_file("symbol"@, " WHERE file = $path"@, "symbols"@, path),
        delete_of_file("chunk"@, " WHERE file = $path"@, "chunks"@, path),
        delete_of_file("file_meta"@, " WHERE path = $path"@, "file_meta"@, path),
    ]
}

/// Deletes all of `table`.
pub open spec fn delete_table(table: Seq<char>, what: Seq<char>) -> StatementView {
    StatementView {
        sql: "DELETE FROM "@ + table,
        binds: Seq::empty(),
        context: "delete all "@ + what,
    }
}

/// Deletes everything, edges first.
pub open spec fn delete_all_data_spec() -> Seq<StatementView> {
    seq![
        delete_table("calls"@, "calls"@),
        delete_table("uses"@, "uses"@),
        delete_table("imports"@, "imports"@),
        delete_table("contains"@, "contains"@),
        delete_table("implements"@, "implements"@),
        delete_table("symbol"@, "symbols"@),
        delete_table("chunk"@, "chunks"@),
        delete_table("file_meta"@, "file_meta"@),
        delete_table("index_meta"@, "index_meta"@),
    ]
}

fn delete_for_file(table: &str, condition: &str, what: &str, path: &str) -> (res: Statement)
    ensures
        res@ == delete_of_file(table@, condition@, what@, path@),
{
    let mut sql = "DELETE FROM ".to_owned();
    sql.append(table);
    sql.append(condition);
    let mut context = "delete ".to_owned();
    context.append(what);
    let res = Statement { sql, binds: vec![bind_text("path", path)], context };
    assert(res@ =~~= delete_of_file(table@, condition@, what@, path@));
    res
}

fn delete_edges_for_file(kind: EdgeKind, path: &str) -> (res: Statement)
    ensures
        res@ == delete_edges_of_file(kind, path@),
{
    let table = edge_table(&kind);
    delete_for_file(table, " WHERE in_file = $path OR out_file = $path", table, path)
}

/// Delete all edges, symbols, chunks, and file_meta for a given file path.
/// Edge deletion happens first (while symbol ids still exist for traversal).
pub fn delete_file_data(file_path: &str) -> (res: Vec<Statement>)
    ensures
        statement_views(res@) == delete_file_data_spec(file_path@),
{
    let res = vec![
        delete_edges_for_file(EdgeKind::Calls, file_path),
        delete_edges_for_file(EdgeKind::Uses, file_path),
        delete_edges_for_file(EdgeKind::Imports, file_path),
        delete_edges_for_file(EdgeKind::Contains, file_path),
        delete_edges_for_file(EdgeKind::Implements, file_path),
        delete_for_file("symbol", " WHERE file = $path", "symbols", file_path),
        delete_for_file("chunk", " WHERE file = $path", "chunks", file_path),
        delete_for_file("file_meta", " WHERE path = $path", "file_meta", file_path),
    ];
    assert(statement_views(res@) =~= delete_file_data_spec(file_path@));
    res
}

fn delete_whole(table: &str, what: &str) -> (res: Statement)
    ensures
        res@ == delete_table(table@, what@),
{
    let mut sql = "DELETE FROM ".to_owned();
    sql.append(table);
    let mut context = "delete all ".to_owned();
    context.append(what);
    let res = Statement { sql, binds: Vec::new(), context };
    assert(res@ =~~= delete_table(table@, what@));
    res
}

/// Delete ALL data, used for full rebuild.
pub fn delete_all_data() -> (res: Vec<Statement>)
    ensures
        statement_views(res@) == delete_all_data_spec(),
{
    let res = vec![
        delete_whole("calls", "calls"),
        delete_whole("uses", "uses"),
        delete_whole("imports", "imports"),
        delete_whole("contains", "contains"),
        delete_whole("implements", "implements"),
        delete_whole("symbol", "symbols"),
        delete_whole("chunk", "chunks"),
        delete_whole("file_meta", "file_meta"),
        delete_whole("index_meta", "index_meta"),
    ];
    assert(statement_views(res@) =~= delete_all_data_spec());
    res
}

/// The record id that an optional fully qualified name stands for.
pub open spec fn record_ref(fqn: Option<Seq<char>>) -> Option<Seq<char>> {
    match fqn {
        Some(f) => Some(record_id_of(f)),
        None => None,
    }
}

fn record_ref_for(fqn: &Option<String>) -> (res: Option<String>)
    ensures
        opt_text(res) == record_ref(opt_text(*fqn)),
{
    match fqn {
        Some(f) => Some(record_id_for(f.as_str())),
        None => None,
    }
}

fn clone_opt(s: &Option<String>) -> (res: Option<String>)
    ensures
        opt_text(res) == opt_text(*s),
{
    match s {
        Some(t) => Some(t.clone()),
        None => None,
    }
}

pub const UPSERT_SYMBOL: &'static str =
    "UPSERT type::thing($id) SET \
         name = $name, kind = $kind, file = $file, \
         line_start = $line_start, line_end = $line_end, \
         signature = $signature, parent = $parent";

/// Writes a symbol under its record id.
pub open spec fn upsert_symbol_spec(sym: SymbolView) -> StatementView {
    StatementView {
        sql: UPSERT_SYMBOL@,
        binds: seq![
            text_bind("id"@, sym.qualified.record_id()),
            text_bind("name"@, sym.qualified.name),
            text_bind("kind"@, kind_name(sym.kind)),
            text_bind("file"@, sym.qualified.file),
            int_bind("line_start"@, sym.line_start as i64),
            int_bind("line_end"@, sym.line_end as i64),
            opt_text_bind("signature"@, sym.signature),
            opt_text_bind("parent"@, record_ref(sym.parent_fqn)),
        ],
        context: "upsert symbol"@,
    }
}

/// Upsert a symbol using its deterministic record id.
pub fn upsert_symbol(sym: &Symbol) -> (res: Statement)
    ensures
        res@ == upsert_symbol_spec(sym@),
{
    let res = Statement {
        sql: UPSERT_SYMBOL.to_owned(),
        binds: vec![
            bind_text("id", sym.qualified.record_id().as_str()),
            bind_text("name", sym.qualified.name.as_str()),
            bind_text("kind", kind_to_str(&sym.kind)),
            bind_text("file", sym.qualified.file.as_str()),
            bind_int("line_start", sym.line_start as i64),
            bind_int("line_end", sym.line_end as i64),
            bind_opt_text("signature", clone_opt(&sym.signature)),
            bind_opt_text("parent", record_ref_for(&sym.parent_fqn)),
        ],
        context: "upsert symbol".to_owned(),
    };
    assert(res@ =~~= upsert_symbol_spec(sym@));
    res
}

/// Relates two symbols in the table of the edge's kind. Only a call keeps its line.
pub open spec fn insert_edge_spec(
    from: QualifiedSymbolView,
    to: QualifiedSymbolView,
    kind: EdgeKind,
    line: u32,
) -> StatementView {
    let table = edge_table_spec(kind);
    let ends = seq![text_bind("from"@, from.record_id()), text_bind("to"@, to.record_id())];
    let files = seq![text_bind("in_file"@, from.file), text_bind("out_file"@, to.file)];
    StatementView {
        sql: "RELATE type::thing($from)->"@ + table + "->type::thing($to) SET "@ + if kind
            == EdgeKind::Calls {
            "line = $line, in_file = $in_file, out_file = $out_file"@
        } else {
            "in_file = $in_file, out_file = $out_file"@
        },
        binds: if kind == EdgeKind::Calls {
            ends.push(int_bind("line"@, line as i64)) + files
        } else {
            ends + files
        },
        context: "insert "@ + table + " edge"@,
    }
}

/// Insert a resolved edge using RELATE.
pub fn insert_edge(
    from: &QualifiedSymbol,
    to: &QualifiedSymbol,
    kind: &EdgeKind,
    line: u32,
) -> (res: Statement)
    ensures
        res@ == insert_edge_spec(from@, to@, *kind, line),
{
    let table = edge_table(kind);
    let is_call = match kind {
        EdgeKind::Calls => true,
        _ => false,
    };
    let mut sql = "RELATE type::thing($from)->".to_owned();
    sql.append(table);
    sql.append("->type::thing($to) SET ");
    let mut binds = vec![
        bind_text("from", from.record_id().as_str()),
        bind_text("to", to.record_id().as_str()),
    ];
    if is_call {
        sql.append("line = $line, in_file = $in_file, out_file = $out_file");
        binds.push(bind_int("line", line as i64));
    } else {
        sql.append("in_file = $in_file, out_file = $out_file");
    }
    binds.push(bind_text("in_file", from.file.as_str()));
    binds.push(bind_text("out_file", to.file.as_str()));
    let mut context = "insert ".to_owned();
    context.append(table);
    context.append(" edge");
    let res = Statement { sql, binds, context };
    assert(res@ =~~= insert_edge_spec(from@, to@, *kind, line));
    res
}

pub const CREATE_CHUNK: &'static str =
    "CREATE chunk SET \
         file = $file, line_start = $line_start, line_end = $line_end, \
         content = $content, embedding = $embedding, symbol_ref = $symbol_ref";

/// Writes a chunk.
pub open spec fn insert_chunk_spec(chunk: ChunkView) -> StatementView {
    StatementView {
        sql: CREATE_CHUNK@,
        binds: seq![
            text_bind("file"@, chunk.file),
            int_bind("line_start"@, chunk.line_start as i64),
            int_bind("line_end"@, chunk.line_end as i64),
            text_bind("content"@, chunk.content),
            BindView { name: "embedding"@, value: BindValueView::Embedding },
            opt_text_bind("symbol_ref"@, record_ref(chunk.symbol_ref)),
        ],
        context: "insert chunk"@,
    }
}

/// Insert a chunk with its embedding, which the executor supplies.
pub fn insert_chunk(chunk: &Chunk) -> (res: Statement)
    ensures
        res@ == insert_chunk_spec(chunk@),
{
    let res = Statement {
        sql: CREATE_CHUNK.to_owned(),
        binds: vec![
            bind_text("file", chunk.file.as_str()),
            bind_int("line_start", chunk.line_start as i64),
            bind_int("line_end", chunk.line_end as i64),
            bind_text("content", chunk.content.as_str()),
            Bind { name: "embedding".to_owned(), value: BindValue::Embedding },
            bind_opt_text("symbol_ref", record_ref_for(&chunk.symbol_ref)),
        ],
        context: "insert chunk".to_owned(),
    };
    assert(res@ =~~= insert_chunk_spec(chunk@));
    res
}

pub const UPSERT_FILE_META: &'static str =
    "UPSERT file_meta SET path = $path, mtime = $mtime, size = $size, repo = $repo \
         WHERE path = $path";

/// Writes the metadata of a file.
pub open spec fn upsert_file_meta_spec(meta: FileMetaView) -> StatementView {
    StatementView {
        sql: UPSERT_FILE_META@,
        binds: seq![
            text_bind("path"@, meta.path),
            int_bind("mtime"@, meta.mtime),
            int_bind("size"@, meta.size),
            text_bind("repo"@, meta.repo),
        ],
        context: "upsert file_meta"@,
    }
}

/// Upsert file metadata.
pub fn upsert_file_meta(meta: &FileMeta) -> (res: Statement)
    ensures
        res@ == upsert_file_meta_spec(meta@),
{
    let res = Statement {
        sql: UPSERT_FILE_META.to_owned(),
        binds: vec![
            bind_text("path", meta.path.as_str()),
            bind_int("mtime", meta.mtime),
            bind_int("size", meta.size),
            bind_text("repo", meta.repo.as_str()),
        ],
        context: "upsert file_meta".to_owned(),
    };
    assert(res@ =~~= upsert_file_meta_spec(meta@));
    res
}

/// A query with one text parameter.
pub open spec fn lookup(
    sql: Seq<char>,
    name: Seq<char>,
    value: Seq<char>,
    context: Seq<char>,
) -> StatementView {
    StatementView { sql, binds: seq![text_bind(name, value)], context }
}

fn lookup_by(sql: &str, name: &str, value: &str, context: &str) -> (res: Statement)
    ensures
        res@ == lookup(sql@, name@, value@, context@),
{
    let res = Statement {
        sql: sql.to_owned(),
        binds: vec![bind_text(name, value)],
        context: context.to_owned(),
    };
    assert(res@ =~~= lookup(sql@, name@, value@, context@));
    res
}

/// A query without parameters.
pub(crate) fn lookup_all(sql: &str, context: &str) -> (res: Statement)
    ensures
        res@ == (StatementView { sql: sql@, binds: Seq::empty(), context: context@ }),
{
    let res = Statement { sql: sql.to_owned(), binds: Vec::new(), context: context.to_owned() };
    assert(bind_views(res.binds@) =~= Seq::<BindView>::empty());
    res
}

/// Fetch all file_meta rows for a given repo.
pub fn get_all_file_meta(repo: &str) -> (res: Statement)
    ensures
        res@ == lookup(
            "SELECT path, mtime, size, repo FROM file_meta WHERE repo = $repo"@,
            "repo"@,
            repo@,
            "get all file_meta"@,
        ),
{
    lookup_by(
        "SELECT path, mtime, size, repo FROM file_meta WHERE repo = $repo",
        "repo",
        repo,
        "get all file_meta",
    )
}

/// Get a single index_meta value by key; [`first_value`] reads the rows.
pub fn get_meta(key: &str) -> (res: Statement)
    ensures
        res@ == lookup(
            "SELECT key, value FROM index_meta WHERE key = $key"@,
            "key"@,
            key@,
            "get index_meta"@,
        ),
{
    lookup_by(
        "SELECT key, value FROM index_meta WHERE key = $key",
        "key",
        key,
        "get index_meta",
    )
}

/// The value of the first row, if there is one.
pub fn first_value(rows: Vec<IndexMeta>) -> (res: Option<String>)
    ensures
        opt_text(res) == if rows@.len() > 0 {
            Some(rows@[0].value@)
        } else {
            None
        },
{
    if rows.len() > 0 {
        Some(rows[0].value.clone())
    } else {
        None
    }
}

/// Set an index_meta key/value.
pub fn set_meta(key: &str, value: &str) -> (res: Statement)
    ensures
        res@ == (StatementView {
            sql: "UPSERT index_meta SET key = $key, value = $value WHERE key = $key"@,
            binds: seq![text_bind("key"@, key@), text_bind("value"@, value@)],
            context: "set index_meta"@,
        }),
{
    let res = Statement {
        sql: "UPSERT index_meta SET key = $key, value = $value WHERE key = $key".to_owned(),
        binds: vec![bind_text("key", key), bind_text("value", value)],
        context: "set index_meta".to_owned(),
    };
    assert(bind_views(res.binds@) =~= seq![text_bind("key"@, key@), text_bind("value"@, value@)]);
    res
}

/// Get all symbols from a given file (used for edge resolution);
/// [`qualified_symbols`] reads the rows.
pub fn get_symbols_for_file(file: &str) -> (res: Statement)
    ensures
        res@ == lookup(
            "SELECT file, name FROM symbol WHERE file = $file"@,
            "file"@,
            file@,
            "get symbols for file"@,
        ),
{
    lookup_by(
        "SELECT file, name FROM symbol WHERE file = $file",
        "file",
        file,
        "get symbols for file",
    )
}

/// Find a symbol by name across all files (for cross-file edge resolution);
/// [`qualified_symbols`] reads the rows.
pub fn find_symbol_by_name(name: &str) -> (res: Statement)
    ensures
        res@ == lookup(
            "SELECT file, name FROM symbol WHERE name = $name"@,
            "name"@,
            name@,
            "find symbol by name"@,
        ),
{
    lookup_by(
        "SELECT file, name FROM symbol WHERE name = $name",
        "name",
        name,
        "find symbol by name",
    )
}

/// The symbols that rows stand for, in order. The scopes are not stored.
pub fn qualified_symbols(rows: &Vec<SymbolRow>) -> (res: Vec<QualifiedSymbol>)
    ensures
        res@.len() == rows@.len(),
        forall|i: int|
            0 <= i < rows@.len() ==> #[trigger] res@[i]@ == (QualifiedSymbolView {
                file: rows@[i].file@,
                scope_path: Seq::empty(),
                name: rows@[i].name@,
            }),
{
    let mut res: Vec<QualifiedSymbol> = Vec::new();
    let mut i: usize = 0;
    while i < rows.len()
        invariant
            i <= rows@.len(),
            res@.len() == i,
            forall|k: int|
                0 <= k < i ==> #[trigger] res@[k]@ == (QualifiedSymbolView {
                    file: rows@[k].file@,
                    scope_path: Seq::empty(),
                    name: rows@[k].name@,
                }),
        decreases rows@.len() - i,
    {
        let sym = QualifiedSymbol {
            file: rows[i].file.clone(),
            scope_path: Vec::new(),
            name: rows[i].name.clone(),
        };
        assert(texts(sym.scope_path@) =~= Seq::<Seq<char>>::empty());
        res.push(sym);
        i += 1;
    }
    res
}

/// Count indexed files for a repo; [`first_count`] reads the rows.
pub fn count_indexed_files(repo: &str) -> (res: Statement)
    ensures
        res@ == lookup(
            "SELECT count() AS count FROM file_meta WHERE repo = $repo GROUP ALL"@,
            "repo"@,
            repo@,
            "count indexed files"@,
        ),
{
    lookup_by(
        "SELECT count() AS count FROM file_meta WHERE repo = $repo GROUP ALL",
        "repo",
        repo,
        "count indexed files",
    )
}

/// The count of the first row, as an unsigned number of the same bits; zero where
/// there is no row.
pub fn first_count(rows: &[i64]) -> (res: u64)
    ensures
        res == if rows@.len() > 0 {
            rows@[0] as u64
        } else {
            0
        },
{
    if rows.len() > 0 {
        #[verifier::truncate] (rows[0] as u64)
    } else {
        0
    }
}

/// Deleting a file's data leaves no edge table out: for every kind of edge that
/// can be inserted, the table that takes it is cleared of the edges that start or
/// end in the file, and that happens before the symbols go.
pub proof fn law_file_edges_go_before_symbols(path: Seq<char>, kind: EdgeKind)
    ensures
        exists|i: int|
            0 <= i < 5 && #[trigger] delete_file_data_spec(path)[i] == delete_edges_of_file(
                kind,
                path,
            ),
        delete_file_data_spec(path)[5].sql == "DELETE FROM symbol WHERE file = $path"@,
        delete_file_data_spec(path)[6].sql == "DELETE FROM chunk WHERE file = $path"@,
        delete_file_data_spec(path)[7].sql == "DELETE FROM file_meta WHERE path = $path"@,
        delete_file_data_spec(path).len() == 8,
{
    let all = delete_file_data_spec(path);
    let i: int = match kind {
        EdgeKind::Calls => 0,
        EdgeKind::Uses => 1,
        EdgeKind::Imports => 2,
        EdgeKind::Contains => 3,
        EdgeKind::Implements => 4,
    };
    assert(all[i] == delete_edges_of_file(kind, path));
    reveal_strlit("DELETE FROM ");
    reveal_strlit("symbol");
    reveal_strlit("chunk");
    reveal_strlit("file_meta");
    reveal_strlit(" WHERE file = $path");
    reveal_strlit(" WHERE path = $path");
    reveal_strlit("DELETE FROM symbol WHERE file = $path");
    reveal_strlit("DELETE FROM chunk WHERE file = $path");
    reveal_strlit("DELETE FROM file_meta WHERE path = $path");
    assert(all[5].sql =~= "DELETE FROM symbol WHERE file = $path"@);
    assert(all[6].sql =~= "DELETE FROM chunk WHERE file = $path"@);
    assert(all[7].sql =~= "DELETE FROM file_meta WHERE path = $path"@);
}

/// Every statement that deletes a file's data is bound to that file and to
/// nothing else.
pub proof fn law_file_deletion_is_bound_to_the_file(path: Seq<char>, i: int)
    requires
        0 <= i < delete_file_data_spec(path).len(),
    ensures
        delete_file_data_spec(path)[i].binds == seq![text_bind("path"@, path)],
{
}

/// A full rebuild clears every table that the data of a file is deleted from, in
/// the same order, and then what is stored with the index.
pub proof fn law_rebuild_clears_every_table(path: Seq<char>)
    ensures
        delete_all_data_spec().len() == delete_file_data_spec(path).len() + 1,
        forall|i: int|
            0 <= i < delete_file_data_spec(path).len() ==> (
            #[trigger] delete_all_data_spec()[i]).sql.is_prefix_of(
                delete_file_data_spec(path)[i].sql,
            ),
        delete_all_data_spec().last().sql == "DELETE FROM index_meta"@,
        forall|i: int|
            0 <= i < delete_all_data_spec().len() ==> (
            #[trigger] delete_all_data_spec()[i]).binds.len() == 0,
{
    assert forall|i: int| 0 <= i < delete_file_data_spec(path).len() implies (
    #[trigger] delete_all_data_spec()[i]).sql.is_prefix_of(delete_file_data_spec(path)[i].sql) by {
        let all = delete_all_data_spec()[i].sql;
        let one = delete_file_data_spec(path)[i].sql;
        assert(one.subrange(0, all.len() as int) =~= all);
    }
    reveal_strlit("DELETE FROM ");
    reveal_strlit("index_meta");
    reveal_strlit("DELETE FROM index_meta");
    assert(delete_all_data_spec().last().sql =~= "DELETE FROM index_meta"@);
}

/// References agree with record ids: the parent that a symbol is written with,
/// the symbol that a chunk refers to and the ends of an edge are the ids under
/// which those symbols are written.
pub proof fn law_references_are_record_ids(
    sym: SymbolView,
    child: SymbolView,
    chunk: ChunkView,
    other: QualifiedSymbolView,
    kind: EdgeKind,
    line: u32,
)
    requires
        child.parent_fqn == Some(sym.qualified.fqn()),
        chunk.symbol_ref == Some(sym.qualified.fqn()),
    ensures
        ({
            let id = sym.qualified.record_id();
            &&& upsert_symbol_spec(sym).binds[0] == text_bind("id"@, id)
            &&& upsert_symbol_spec(child).binds[7] == opt_text_bind("parent"@, Some(id))
            &&& insert_chunk_spec(chunk).binds[5] == opt_text_bind("symbol_ref"@, Some(id))
            &&& insert_edge_spec(sym.qualified, other, kind, line).binds[0] == text_bind(
                "from"@,
                id,
            )
            &&& insert_edge_spec(other, sym.qualified, kind, line).binds[1] == text_bind("to"@, id)
        }),
{
}

/// Different kinds of symbols go by different names.
pub proof fn law_kind_names_differ(a: SymbolKind, b: SymbolKind)
    requires
        a != b,
    ensures
        kind_name(a) != kind_name(b),
{
    reveal_strlit("function");
    reveal_strlit("method");
    reveal_strlit("struct");
    reveal_strlit("trait");
    reveal_strlit("impl");
    reveal_strlit("class");
    reveal_strlit("module");
    reveal_strlit("interface");
    assert("function"@.len() == 8 && "impl"@.len() == 4 && "interface"@.len() == 9);
    assert("method"@.len() == 6 && "module"@.len() == 6 && "struct"@.len() == 6);
    assert("trait"@.len() == 5 && "class"@.len() == 5);
    assert("method"@[1] == 'e' && "module"@[1] == 'o' && "struct"@[1] == 't');
    assert("trait"@[0] == 't' && "class"@[0] == 'c');
}

/// Edges of different kinds go to different tables.
pub proof fn law_edge_tables_differ(a: EdgeKind, b: EdgeKind)
    requires
        a != b,
    ensures
        edge_table_spec(a) != edge_table_spec(b),
{
    reveal_strlit("calls");
    reveal_strlit("uses");
    reveal_strlit("imports");
    reveal_strlit("contains");
    reveal_strlit("implements");
    assert("calls"@.len() == 5 && "uses"@.len() == 4 && "imports"@.len() == 7);
    assert("contains"@.len() == 8 && "implements"@.len() == 10);
}

/// Whether `st` binds the parameter `name` to `value`, and to nothing else.
pub open spec fn has_bind(st: StatementView, name: Seq<char>, value: BindValueView) -> bool {
    &&& exists|i: int|
        0 <= i < st.binds.len() && (#[trigger] st.binds[i]).name == name && st.binds[i].value
            == value
    &&& forall|i: int|
        0 <= i < st.binds.len() && (#[trigger] st.binds[i]).name == name ==> st.binds[i].value
            == value
}

/// A symbol is written with each of its fields, as they are, under its own record id; its
/// parent is written as the record id of the parent's name.
pub proof fn law_symbol_is_written_whole(sym: SymbolView)
    ensures
        ({
            let st = upsert_symbol_spec(sym);
            &&& st.binds.len() == 8
            &&& has_bind(st, "id"@, BindValueView::Text("symbol:⟨"@ + sym.qualified.fqn() + "⟩"@))
            &&& has_bind(st, "name"@, BindValueView::Text(sym.qualified.name))
            &&& has_bind(st, "kind"@, BindValueView::Text(kind_name(sym.kind)))
            &&& has_bind(st, "file"@, BindValueView::Text(sym.qualified.file))
            &&& has_bind(st, "line_start"@, BindValueView::Int(sym.line_start as i64))
            &&& has_bind(st, "line_end"@, BindValueView::Int(sym.line_end as i64))
            &&& has_bind(st, "signature"@, BindValueView::OptText(sym.signature))
            &&& has_bind(
                st,
                "parent"@,
                BindValueView::OptText(
                    match sym.parent_fqn {
                        Some(fqn) => Some("symbol:⟨"@ + fqn + "⟩"@),
                        None => None,
                    },
                ),
            )
        }),
{
    reveal_strlit("id");
    reveal_strlit("name");
    reveal_strlit("kind");
    reveal_strlit("file");
    reveal_strlit("line_start");
    reveal_strlit("line_end");
    reveal_strlit("signature");
    reveal_strlit("parent");
    assert("id"@.len() == 2 && "line_start"@.len() == 10 && "line_end"@.len() == 8);
    assert("signature"@.len() == 9 && "parent"@.len() == 6);
    assert("name"@.len() == 4 && "kind"@.len() == 4 && "file"@.len() == 4);
    assert("name"@[0] == 'n' && "kind"@[0] == 'k' && "file"@[0] == 'f');
    let b = upsert_symbol_spec(sym).binds;
    assert(b[0].name == "id"@ && b[1].name == "name"@ && b[2].name == "kind"@);
    assert(b[3].name == "file"@ && b[4].name == "line_start"@ && b[5].name == "line_end"@);
    assert(b[6].name == "signature"@ && b[7].name == "parent"@);
}

/// An edge is written from the record id of the one symbol to that of the other, with the
/// files of both, whatever its kind; the line is written for a call and for nothing else.
pub proof fn law_edge_is_written_whole(
    from: QualifiedSymbolView,
    to: QualifiedSymbolView,
    kind: EdgeKind,
    line: u32,
)
    ensures
        ({
            let st = insert_edge_spec(from, to, kind, line);
            &&& has_bind(st, "from"@, BindValueView::Text("symbol:⟨"@ + from.fqn() + "⟩"@))
            &&& has_bind(st, "to"@, BindValueView::Text("symbol:⟨"@ + to.fqn() + "⟩"@))
            &&& has_bind(st, "in_file"@, BindValueView::Text(from.file))
            &&& has_bind(st, "out_file"@, BindValueView::Text(to.file))
            &&& kind == EdgeKind::Calls ==> has_bind(st, "line"@, BindValueView::Int(line as i64))
                && st.binds.len() == 5
            &&& kind != EdgeKind::Calls ==> st.binds.len() == 4
            &&& st.sql == insert_edge_spec(to, from, kind, 0).sql
        }),
{
    reveal_strlit("from");
    reveal_strlit("to");
    reveal_strlit("line");
    reveal_strlit("in_file");
    reveal_strlit("out_file");
    assert("to"@.len() == 2 && "in_file"@.len() == 7 && "out_file"@.len() == 8);
    assert("from"@.len() == 4 && "line"@.len() == 4 && "from"@[0] == 'f' && "line"@[0] == 'l');
    let b = insert_edge_spec(from, to, kind, line).binds;
    assert(b[0].name == "from"@ && b[1].name == "to"@);
    if kind == EdgeKind::Calls {
        assert(b[2].name == "line"@ && b[3].name == "in_file"@ && b[4].name == "out_file"@);
    } else {
        assert(b[2].name == "in_file"@ && b[3].name == "out_file"@);
    }
}

/// A chunk is written with each of its fields, as they are, and with its embedding; its
/// symbol is written as the record id of the symbol's name.
pub proof fn law_chunk_is_written_whole(chunk: ChunkView)
    ensures
        ({
            let st = insert_chunk_spec(chunk);
            &&& st.binds.len() == 6
            &&& has_bind(st, "file"@, BindValueView::Text(chunk.file))
            &&& has_bind(st, "line_start"@, BindValueView::Int(chunk.line_start as i64))
            &&& has_bind(st, "line_end"@, BindValueView::Int(chunk.line_end as i64))
            &&& has_bind(st, "content"@, BindValueView::Text(chunk.content))
            &&& has_bind(st, "embedding"@, BindValueView::Embedding)
            &&& has_bind(
                st,
                "symbol_ref"@,
                BindValueView::OptText(
                    match chunk.symbol_ref {
                        Some(fqn) => Some("symbol:⟨"@ + fqn + "⟩"@),
                        None => None,
                    },
                ),
            )
        }),
{
    reveal_strlit("file");
    reveal_strlit("line_start");
    reveal_strlit("line_end");
    reveal_strlit("content");
    reveal_strlit("embedding");
    reveal_strlit("symbol_ref");
    assert("file"@.len() == 4 && "line_end"@.len() == 8 && "content"@.len() == 7);
    assert("embedding"@.len() == 9 && "line_start"@.len() == 10 && "symbol_ref"@.len() == 10);
    assert("line_start"@[0] == 'l' && "symbol_ref"@[0] == 's');
    let b = insert_chunk_spec(chunk).binds;
    assert(b[0].name == "file"@ && b[1].name == "line_start"@ && b[2].name == "line_end"@);
    assert(b[3].name == "content"@ && b[4].name == "embedding"@ && b[5].name == "symbol_ref"@);
}

/// The metadata of a file is written with each of its fields, as they are.
pub proof fn law_file_meta_is_written_whole(meta: FileMetaView)
    ensures
        ({
            let st = upsert_file_meta_spec(meta);
            &&& st.binds.len() == 4
            &&& has_bind(st, "path"@, BindValueView::Text(meta.path))
            &&& has_bind(st, "mtime"@, BindValueView::Int(meta.mtime))
            &&& has_bind(st, "size"@, BindValueView::Int(meta.size))
            &&& has_bind(st, "repo"@, BindValueView::Text(meta.repo))
        }),
{
    reveal_strlit("path");
    reveal_strlit("mtime");
    reveal_strlit("size");
    reveal_strlit("repo");
    assert("mtime"@.len() == 5 && "path"@.len() == 4 && "size"@.len() == 4 && "repo"@.len() == 4);
    assert("path"@[0] == 'p' && "size"@[0] == 's' && "repo"@[0] == 'r');
    let b = upsert_file_meta_spec(meta).binds;
    assert(b[0].name == "path"@ && b[1].name == "mtime"@ && b[2].name == "size"@ && b[3].name
        == "repo"@);
}

/// A lookup asks for just the value that it is given.
pub proof fn law_lookup_asks_for_the_value(
    sql: Seq<char>,
    name: Seq<char>,
    value: Seq<char>,
    context: Seq<char>,
)
    ensures
        lookup(sql, name, value, context).sql == sql,
        lookup(sql, name, value, context).context == context,
        lookup(sql, name, value, context).binds.len() == 1,
        lookup(sql, name, value, context).binds[0].name == name,
        lookup(sql, name, value, context).binds[0].value == BindValueView::Text(value),
{
}

/// Every statement that deletes the data of a file takes the whole path of that file.
pub proof fn law_file_deletion_takes_the_path(path: Seq<char>, i: int)
    requires
        0 <= i < 8,
    ensures
        delete_file_data_spec(path).len() == 8,
        delete_file_data_spec(path)[i].binds.len() == 1,
        delete_file_data_spec(path)[i].binds[0].name == "path"@,
        delete_file_data_spec(path)[i].binds[0].value == BindValueView::Text(path),
        delete_file_data_spec(path)[i].sql == delete_file_data_spec(Seq::empty())[i].sql,
{
}

/// Statements say what their fields hold, in order.
pub proof fn law_statements_say_what_they_hold(
    statements: Seq<Statement>,
    st: Statement,
    value: BindValue,
    meta: FileMeta,
)
    ensures
        statement_views(statements).len() == statements.len(),
        forall|i: int|
            0 <= i < statements.len() ==> #[trigger] statement_views(statements)[i]
                == statements[i]@,
        st@.sql == st.sql@,
        st@.context == st.context@,
        st@.binds.len() == st.binds@.len(),
        forall|i: int|
            0 <= i < st.binds@.len() ==> (#[trigger] st@.binds[i]).name == st.binds@[i].name@
                && st@.binds[i].value == st.binds@[i].value@,
        value matches BindValue::Text(t) ==> value@ == BindValueView::Text(t@),
        value matches BindValue::OptText(Some(t)) ==> value@ == BindValueView::OptText(Some(t@)),
        value matches BindValue::OptText(None) ==> value@ == BindValueView::OptText(None),
        value matches BindValue::Int(i) ==> value@ == BindValueView::Int(i),
        value is Embedding ==> value@ is Embedding,
        meta@.path == meta.path@,
        meta@.mtime == meta.mtime,
        meta@.size == meta.size,
        meta@.repo == meta.repo@,
{
}

} // verus!
