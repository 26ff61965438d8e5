//! Splitting a source file into the chunks that are embedded.

use vstd::prelude::*;

use crate::parsing::symbols::{Symbol, SymbolView};
use crate::text::{join, join_spec, lines_spec, opt_text, split_lines, texts};

verus! {

/// A text chunk ready for embedding.
#[derive(Debug, Clone)]
pub struct Chunk {
    /// Absolute path of the source file.
    pub file: String,
    pub line_start: u32,
    pub line_end: u32,
    pub content: String,
    /// FQN of the containing symbol, if this chunk came from a symbol body.
    pub symbol_ref: Option<String>,
}

/// What a [`Chunk`] says.
#[verifier::ext_equal]
pub struct ChunkView {
    pub file: Seq<char>,
    pub line_start: u32,
    pub line_end: u32,
    pub content: Seq<char>,
    pub symbol_ref: Option<Seq<char>>,
}

impl View for Chunk {
    type V = ChunkView;

    open spec fn view(&self) -> ChunkView {
        ChunkView {
            file: self.file@,
            line_start: self.line_start,
            line_end: self.line_end,
            content: self.content@,
            symbol_ref: opt_text(self.symbol_ref),
        }
    }
}

/// Lines in a coverage chunk.
pub const WINDOW: u32 = 50;

/// Lines from the start of one coverage window to the start of the next.
pub const STRIDE: u32 = 25;

/// What a sequence of chunks says.
pub open spec fn chunk_views(chunks: Seq<Chunk>) -> Seq<ChunkView> {
    Seq::new(chunks.len(), |i: int| chunks[i]@)
}

/// What a sequence of symbols says.
pub open spec fn symbol_views(symbols: Seq<Symbol>) -> Seq<SymbolView> {
    Seq::new(symbols.len(), |i: int| symbols[i]@)
}

/// The lines of a file of `total` lines that the body of `sym` takes up, as the
/// 0-indexed first and last of them; `None` when it lies outside the file.
pub open spec fn symbol_span(sym: SymbolView, total: u32) -> Option<(int, int)> {
    let start = if sym.line_start == 0 {
        0
    } else {
        sym.line_start - 1
    };
    let last = if sym.line_end < total {
        sym.line_end as int
    } else {
        total as int
    };
    let end = if last == 0 {
        0
    } else {
        last - 1
    };
    if start > end || start >= total {
        None
    } else {
        Some((start, end))
    }
}

/// The chunk that holds lines `start..=end` (0-indexed).
pub open spec fn chunk_of(
    file: Seq<char>,
    lines: Seq<Seq<char>>,
    start: int,
    end: int,
    symbol_ref: Option<Seq<char>>,
) -> ChunkView {
    ChunkView {
        file,
        line_start: (start + 1) as u32,
        line_end: (end + 1) as u32,
        content: join_spec(lines.subrange(start, end + 1), "\n"@),
        symbol_ref,
    }
}

/// One chunk for each of `symbols` that has lines in the file, in order.
pub open spec fn symbol_chunks(
    file: Seq<char>,
    lines: Seq<Seq<char>>,
    symbols: Seq<SymbolView>,
    total: u32,
) -> Seq<ChunkView>
    decreases symbols.len(),
{
    if symbols.len() == 0 {
        Seq::empty()
    } else {
        let before = symbol_chunks(file, lines, symbols.drop_last(), total);
        match symbol_span(symbols.last(), total) {
            Some((start, end)) => before.push(
                chunk_of(file, lines, start, end, Some(symbols.last().qualified.fqn())),
            ),
            None => before,
        }
    }
}

/// Whether line `i` (0-indexed) belongs to the body of `sym`.
pub open spec fn spans(sym: SymbolView, total: u32, i: int) -> bool {
    symbol_span(sym, total) matches Some((start, end)) && start <= i <= end
}

/// Whether line `i` (0-indexed) belongs to the body of some symbol.
pub open spec fn covered(symbols: Seq<SymbolView>, total: u32, i: int) -> bool {
    exists|s: int| 0 <= s < symbols.len() && #[trigger] spans(symbols[s], total, i)
}

/// The last line of the window that starts at `start` (both 0-indexed).
pub open spec fn window_end(total: u32, start: int) -> int {
    if start + WINDOW - 1 < total - 1 {
        start + WINDOW - 1
    } else {
        total - 1
    }
}

/// Whether a line of the window that starts at `start` is in no symbol body.
pub open spec fn window_open(symbols: Seq<SymbolView>, total: u32, start: int) -> bool {
    exists|i: int|
        start <= i <= window_end(total, start) && !(#[trigger] covered(symbols, total, i))
}

/// One chunk for each window, from `start` on in steps of the stride, in which a
/// line is in no symbol body.
pub open spec fn window_chunks(
    file: Seq<char>,
    lines: Seq<Seq<char>>,
    symbols: Seq<SymbolView>,
    total: u32,
    start: int,
) -> Seq<ChunkView>
    decreases total + STRIDE - start,
{
    if start >= total {
        Seq::empty()
    } else {
        let after = window_chunks(file, lines, symbols, total, start + STRIDE);
        if window_open(symbols, total, start) {
            seq![chunk_of(file, lines, start, window_end(total, start), None)] + after
        } else {
            after
        }
    }
}

/// The chunks of a file: those of its symbols, then the windows that cover the
/// lines outside of them.
pub open spec fn file_chunks(
    file: Seq<char>,
    source: Seq<char>,
    symbols: Seq<SymbolView>,
) -> Seq<ChunkView> {
    let lines = lines_spec(source);
    let total = lines.len() as u32;
    symbol_chunks(file, lines, symbols, total) + window_chunks(file, lines, symbols, total, 0)
}

/// Produce chunks for a source file.
///
/// 1. **Symbol chunks**: each symbol body becomes one chunk (linked via `symbol_ref`).
/// 2. **Coverage chunks**: a sliding window (50 lines, 25-line stride) for lines
///    not already covered by a symbol chunk. `symbol_ref` is `None`.
///
/// Lines are 1-indexed, and counted in 32 bits.
pub fn chunk_file(file: &str, source: &str, symbols: &[Symbol]) -> (res: Vec<Chunk>)
    ensures
        chunk_views(res@) == file_chunks(file@, source@, symbol_views(symbols@)),
{
    let lines = split_lines(source);
    let ghost text = lines_spec(source@);
    let ghost syms = symbol_views(symbols@);
    let count: usize = lines.len();
    let total: u32 = #[verifier::truncate] (count as u32);
    assert((#[verifier::truncate] (count as u32)) as usize <= count) by (bit_vector);
    let mut chunks: Vec<Chunk> = Vec::new();
    let mut in_symbol: Vec<bool> = vec![false; total as usize];
    let mut s: usize = 0;
    assert(syms.take(0) =~= Seq::<SymbolView>::empty());
    assert(chunk_views(chunks@) =~= symbol_chunks(file@, text, syms.take(0), total));
    while s < symbols.len()
        invariant
            s <= symbols@.len(),
            syms == symbol_views(symbols@),
            text == texts(lines@),
            total <= lines@.len(),
            in_symbol@.len() == total,
            forall|i: int|
                0 <= i < total ==> #[trigger] in_symbol@[i] == covered(
                    syms.take(s as int),
                    total,
                    i,
                ),
            chunk_views(chunks@) == symbol_chunks(file@, text, syms.take(s as int), total),
        decreases symbols@.len() - s,
    {
        let sym = &symbols[s];
        let ghost done = syms.take(s as int);
        let ghost now = syms.take(s + 1);
        proof {
            assert(now.drop_last() =~= done);
            assert(now.last() == sym@);
            assert(now =~= done.push(sym@));
        }
        let start: u32 = sym.line_start.saturating_sub(1);
        let last: u32 = if sym.line_end < total {
            sym.line_end
        } else {
            total
        };
        let end: u32 = last.saturating_sub(1);
        if !(start > end || start >= total) {
            assert(symbol_span(sym@, total) == Some((start as int, end as int)));
            let chunk = Chunk {
                file: file.to_owned(),
                line_start: start + 1,
                line_end: end + 1,
                content: join(&lines, start as usize, end as usize + 1, "\n"),
                symbol_ref: Some(sym.qualified.fqn()),
            };
            let ghost before = chunks@;
            chunks.push(chunk);
            assert(chunk_views(chunks@) =~= chunk_views(before).push(chunk@));
            let ghost flags = in_symbol@;
            let mut i: u32 = start;
            while i <= end
                invariant
                    start <= i <= end + 1,
                    end < total,
                    in_symbol@.len() == total,
                    flags.len() == total,
                    forall|k: int|
                        0 <= k < total ==> #[trigger] in_symbol@[k] == (flags[k] || start <= k < i),
                decreases end + 1 - i,
            {
                in_symbol.set(i as usize, true);
                i += 1;
            }
            proof {
                assert forall|k: int| 0 <= k < total implies #[trigger] in_symbol@[k] == covered(
                    now,
                    total,
                    k,
                ) by {
                    lemma_covered_push(done, sym@, total, k);
                    assert(flags[k] == covered(done, total, k));
                }
            }
        } else {
            assert(symbol_span(sym@, total) is None);
            proof {
                assert forall|k: int| 0 <= k < total implies #[trigger] in_symbol@[k] == covered(
                    now,
                    total,
                    k,
                ) by {
                    lemma_covered_push(done, sym@, total, k);
                }
            }
        }
        s += 1;
    }
    assert(syms.take(s as int) =~= syms);
    let ghost bodies = symbol_chunks(file@, text, syms, total);
    let mut start: u64 = 0;
    assert(chunk_views(chunks@) =~= bodies);
    assert(bodies + window_chunks(file@, text, syms, total, 0) =~= chunk_views(chunks@)
        + window_chunks(file@, text, syms, total, 0));
    while start < total as u64
        invariant
            start <= total + STRIDE,
            text == texts(lines@),
            total <= lines@.len(),
            in_symbol@.len() == total,
            forall|i: int|
                0 <= i < total ==> #[trigger] in_symbol@[i] == covered(syms, total, i),
            bodies + window_chunks(file@, text, syms, total, 0) == chunk_views(chunks@)
                + window_chunks(file@, text, syms, total, start as int),
        decreases total + STRIDE - start,
    {
        let last: u64 = if start + (WINDOW as u64 - 1) < total as u64 - 1 {
            start + (WINDOW as u64 - 1)
        } else {
            total as u64 - 1
        };
        let mut open = false;
        let mut i: u64 = start;
        while i <= last && !open
            invariant
                start <= i <= last + 1,
                last < total,
                last == window_end(total, start as int),
                in_symbol@.len() == total,
                forall|k: int|
                    0 <= k < total ==> #[trigger] in_symbol@[k] == covered(syms, total, k),
                open ==> window_open(syms, total, start as int),
                !open ==> forall|k: int| start <= k < i ==> #[trigger] covered(syms, total, k),
            decreases last + 1 - i + (if open { 0int } else { 1int }),
        {
            assert(in_symbol@[i as int] == covered(syms, total, i as int));
            if !in_symbol[i as usize] {
                open = true;
            } else {
                i += 1;
            }
        }
        let ghost after = window_chunks(file@, text, syms, total, start + STRIDE);
        let ghost before = chunks@;
        if open {
            let chunk = Chunk {
                file: file.to_owned(),
                line_start: (start + 1) as u32,
                line_end: (last + 1) as u32,
                content: join(&lines, start as usize, last as usize + 1, "\n"),
                symbol_ref: None,
            };
            chunks.push(chunk);
            assert(chunk_views(chunks@) + after =~= chunk_views(before) + window_chunks(
                file@,
                text,
                syms,
                total,
                start as int,
            ));
        } else {
            assert(!window_open(syms, total, start as int));
        }
        start += STRIDE as u64;
    }
    assert(chunk_views(chunks@) =~= file_chunks(file@, source@, syms));
    chunks
}

proof fn lemma_covered_push(symbols: Seq<SymbolView>, sym: SymbolView, total: u32, i: int)
    ensures
        covered(symbols.push(sym), total, i) == (covered(symbols, total, i) || spans(
            sym,
            total,
            i,
        )),
{
    let now = symbols.push(sym);
    if covered(symbols, total, i) {
        let s = choose|s: int| 0 <= s < symbols.len() && #[trigger] spans(symbols[s], total, i);
        assert(spans(now[s], total, i));
    }
    if spans(sym, total, i) {
        assert(spans(now[symbols.len() as int], total, i));
    }
}

/// Whether `chunk` holds whole lines of the file, with the text that stands there.
pub open spec fn holds_lines(
    chunk: ChunkView,
    file: Seq<char>,
    lines: Seq<Seq<char>>,
    total: u32,
) -> bool {
    &&& chunk.file == file
    &&& 1 <= chunk.line_start <= chunk.line_end <= total
    &&& chunk.content == join_spec(
        lines.subrange(chunk.line_start - 1, chunk.line_end as int),
        "\n"@,
    )
}

/// Whether line `i` (0-indexed) is one of the lines of `chunk`.
pub open spec fn has_line(chunk: ChunkView, i: int) -> bool {
    chunk.line_start <= i + 1 <= chunk.line_end
}

proof fn lemma_symbol_chunks(
    file: Seq<char>,
    lines: Seq<Seq<char>>,
    symbols: Seq<SymbolView>,
    total: u32,
)
    ensures
        forall|c: int|
            0 <= c < symbol_chunks(file, lines, symbols, total).len() ==> holds_lines(
                #[trigger] symbol_chunks(file, lines, symbols, total)[c],
                file,
                lines,
                total,
            ) && symbol_chunks(file, lines, symbols, total)[c].symbol_ref is Some,
        forall|s: int, start: int, end: int|
            0 <= s < symbols.len() && #[trigger] symbol_span(symbols[s], total) == Some(
                (start, end),
            ) ==> symbol_chunks(file, lines, symbols, total).contains(
                #[trigger] chunk_of(file, lines, start, end, Some(symbols[s].qualified.fqn())),
            ),
    decreases symbols.len(),
{
    if symbols.len() > 0 {
        let rest = symbols.drop_last();
        let all = symbol_chunks(file, lines, symbols, total);
        let before = symbol_chunks(file, lines, rest, total);
        lemma_symbol_chunks(file, lines, rest, total);
        assert forall|s: int, start: int, end: int|
            0 <= s < symbols.len() && #[trigger] symbol_span(symbols[s], total) == Some(
                (start, end),
            ) implies all.contains(
            #[trigger] chunk_of(file, lines, start, end, Some(symbols[s].qualified.fqn())),
        ) by {
            let chunk = chunk_of(file, lines, start, end, Some(symbols[s].qualified.fqn()));
            if s < rest.len() {
                assert(rest[s] == symbols[s]);
                assert(symbol_span(rest[s], total) == Some((start, end)));
                assert(before.contains(chunk));
                let c = choose|c: int| 0 <= c < before.len() && before[c] == chunk;
                assert(all[c] == chunk);
            } else {
                assert(all.last() == chunk);
            }
        }
    }
}

proof fn lemma_window_chunks(
    file: Seq<char>,
    lines: Seq<Seq<char>>,
    symbols: Seq<SymbolView>,
    total: u32,
    start: int,
)
    requires
        start >= 0,
        total <= lines.len(),
    ensures
        forall|c: int|
            0 <= c < window_chunks(file, lines, symbols, total, start).len() ==> {
                let chunk = #[trigger] window_chunks(file, lines, symbols, total, start)[c];
                &&& holds_lines(chunk, file, lines, total)
                &&& chunk.symbol_ref is None
                &&& chunk.line_end - chunk.line_start < WINDOW
                &&& exists|i: int| has_line(chunk, i) && !(#[trigger] covered(symbols, total, i))
            },
    decreases total + STRIDE - start,
{
    if start < total {
        let after = window_chunks(file, lines, symbols, total, start + STRIDE);
        let all = window_chunks(file, lines, symbols, total, start);
        lemma_window_chunks(file, lines, symbols, total, start + STRIDE);
        assert forall|c: int| 0 <= c < all.len() implies {
            let chunk = #[trigger] all[c];
            &&& holds_lines(chunk, file, lines, total)
            &&& chunk.symbol_ref is None
            &&& chunk.line_end - chunk.line_start < WINDOW
            &&& exists|i: int| has_line(chunk, i) && !(#[trigger] covered(symbols, total, i))
        } by {
            if window_open(symbols, total, start) {
                if c == 0 {
                    let i = choose|i: int|
                        start <= i <= window_end(total, start) && !(#[trigger] covered(
                            symbols,
                            total,
                            i,
                        ));
                    assert(has_line(all[0], i));
                } else {
                    assert(all[c] == after[c - 1]);
                }
            } else {
                assert(all[c] == after[c]);
            }
        }
    }
}

proof fn lemma_window_reaches(
    file: Seq<char>,
    lines: Seq<Seq<char>>,
    symbols: Seq<SymbolView>,
    total: u32,
    start: int,
    i: int,
)
    requires
        0 <= start <= i < total,
        !covered(symbols, total, i),
    ensures
        exists|c: int|
            0 <= c < window_chunks(file, lines, symbols, total, start).len() && has_line(
                #[trigger] window_chunks(file, lines, symbols, total, start)[c],
                i,
            ),
    decreases total + STRIDE - start,
{
    let all = window_chunks(file, lines, symbols, total, start);
    if i <= window_end(total, start) {
        assert(window_open(symbols, total, start));
        assert(has_line(all[0], i));
    } else {
        let after = window_chunks(file, lines, symbols, total, start + STRIDE);
        lemma_window_reaches(file, lines, symbols, total, start + STRIDE, i);
        let c = choose|c: int| 0 <= c < after.len() && has_line(#[trigger] after[c], i);
        if window_open(symbols, total, start) {
            assert(all[c + 1] == after[c]);
        } else {
            assert(all[c] == after[c]);
        }
    }
}

/// Every chunk of a file holds whole lines of it, and its text is what stands on
/// those lines.
pub proof fn law_chunks_hold_lines(file: Seq<char>, source: Seq<char>, symbols: Seq<SymbolView>)
    requires
        lines_spec(source).len() <= u32::MAX,
    ensures
        forall|c: int|
            0 <= c < file_chunks(file, source, symbols).len() ==> holds_lines(
                #[trigger] file_chunks(file, source, symbols)[c],
                file,
                lines_spec(source),
                lines_spec(source).len() as u32,
            ),
{
    let lines = lines_spec(source);
    let total = lines.len() as u32;
    lemma_symbol_chunks(file, lines, symbols, total);
    lemma_window_chunks(file, lines, symbols, total, 0);
    let bodies = symbol_chunks(file, lines, symbols, total);
    let windows = window_chunks(file, lines, symbols, total, 0);
    assert forall|c: int| 0 <= c < file_chunks(file, source, symbols).len() implies holds_lines(
        #[trigger] file_chunks(file, source, symbols)[c],
        file,
        lines,
        total,
    ) by {
        if c < bodies.len() {
            assert(file_chunks(file, source, symbols)[c] == bodies[c]);
        } else {
            assert(file_chunks(file, source, symbols)[c] == windows[c - bodies.len()]);
        }
    }
}

/// Every line of a file is in at least one of its chunks.
pub proof fn law_every_line_is_in_a_chunk(
    file: Seq<char>,
    source: Seq<char>,
    symbols: Seq<SymbolView>,
    i: int,
)
    requires
        lines_spec(source).len() <= u32::MAX,
        0 <= i < lines_spec(source).len(),
    ensures
        exists|c: int|
            0 <= c < file_chunks(file, source, symbols).len() && has_line(
                #[trigger] file_chunks(file, source, symbols)[c],
                i,
            ),
{
    let lines = lines_spec(source);
    let total = lines.len() as u32;
    let all = file_chunks(file, source, symbols);
    let bodies = symbol_chunks(file, lines, symbols, total);
    let windows = window_chunks(file, lines, symbols, total, 0);
    if covered(symbols, total, i) {
        let s = choose|s: int| 0 <= s < symbols.len() && #[trigger] spans(symbols[s], total, i);
        lemma_symbol_chunks(file, lines, symbols, total);
        let (start, end) = symbol_span(symbols[s], total)->0;
        let chunk = chunk_of(file, lines, start, end, Some(symbols[s].qualified.fqn()));
        assert(bodies.contains(chunk));
        let c = choose|c: int| 0 <= c < bodies.len() && bodies[c] == chunk;
        assert(all[c] == chunk);
        assert(has_line(all[c], i));
    } else {
        lemma_window_reaches(file, lines, symbols, total, 0, i);
        let c = choose|c: int| 0 <= c < windows.len() && has_line(#[trigger] windows[c], i);
        assert(all[bodies.len() + c] == windows[c]);
    }
}

/// Every symbol with lines in the file has a chunk of exactly those lines that
/// names it.
pub proof fn law_symbol_bodies_are_chunks(
    file: Seq<char>,
    source: Seq<char>,
    symbols: Seq<SymbolView>,
    s: int,
)
    requires
        lines_spec(source).len() <= u32::MAX,
        0 <= s < symbols.len(),
        symbol_span(symbols[s], lines_spec(source).len() as u32) is Some,
    ensures
        ({
            let (start, end) = symbol_span(symbols[s], lines_spec(source).len() as u32)->0;
            file_chunks(file, source, symbols).contains(
                chunk_of(
                    file,
                    lines_spec(source),
                    start,
                    end,
                    Some(symbols[s].qualified.fqn()),
                ),
            )
        }),
{
    let lines = lines_spec(source);
    let total = lines.len() as u32;
    let bodies = symbol_chunks(file, lines, symbols, total);
    lemma_symbol_chunks(file, lines, symbols, total);
    let (start, end) = symbol_span(symbols[s], total)->0;
    let chunk = chunk_of(file, lines, start, end, Some(symbols[s].qualified.fqn()));
    assert(bodies.contains(chunk));
    let c = choose|c: int| 0 <= c < bodies.len() && bodies[c] == chunk;
    assert(file_chunks(file, source, symbols)[c] == chunk);
}

/// A coverage chunk, one without a symbol, has at most a window of lines and
/// holds a line that is in no symbol body.
pub proof fn law_coverage_chunks_are_needed(
    file: Seq<char>,
    source: Seq<char>,
    symbols: Seq<SymbolView>,
    c: int,
)
    requires
        lines_spec(source).len() <= u32::MAX,
        0 <= c < file_chunks(file, source, symbols).len(),
        file_chunks(file, source, symbols)[c].symbol_ref is None,
    ensures
        file_chunks(file, source, symbols)[c].line_end - file_chunks(
            file,
            source,
            symbols,
        )[c].line_start < WINDOW,
        exists|i: int|
            has_line(file_chunks(file, source, symbols)[c], i) && !(#[trigger] covered(
                symbols,
                lines_spec(source).len() as u32,
                i,
            )),
{
    let lines = lines_spec(source);
    let total = lines.len() as u32;
    lemma_symbol_chunks(file, lines, symbols, total);
    lemma_window_chunks(file, lines, symbols, total, 0);
    let bodies = symbol_chunks(file, lines, symbols, total);
    let windows = window_chunks(file, lines, symbols, total, 0);
    if c < bodies.len() {
        assert(file_chunks(file, source, symbols)[c] == bodies[c]);
    } else {
        assert(file_chunks(file, source, symbols)[c] == windows[c - bodies.len()]);
    }
}

/// Every symbol whose lines lie in the file, of whatever kind, has a chunk of just those
/// lines that names it and holds their text.
pub proof fn law_every_symbol_has_its_chunk(
    file: Seq<char>,
    source: Seq<char>,
    symbols: Seq<SymbolView>,
    s: int,
)
    requires
        lines_spec(source).len() <= u32::MAX,
        0 <= s < symbols.len(),
        1 <= symbols[s].line_start <= symbols[s].line_end <= lines_spec(source).len(),
    ensures
        exists|c: int|
            {
                &&& 0 <= c < file_chunks(file, source, symbols).len()
                &&& (#[trigger] file_chunks(file, source, symbols)[c]).line_start
                    == symbols[s].line_start
                &&& file_chunks(file, source, symbols)[c].line_end == symbols[s].line_end
                &&& file_chunks(file, source, symbols)[c].symbol_ref == Some(
                    symbols[s].qualified.fqn(),
                )
                &&& file_chunks(file, source, symbols)[c].file == file
                &&& file_chunks(file, source, symbols)[c].content == join_spec(
                    lines_spec(source).subrange(
                        symbols[s].line_start - 1,
                        symbols[s].line_end as int,
                    ),
                    "\n"@,
                )
            },
{
    law_symbol_bodies_are_chunks(file, source, symbols, s);
    let all = file_chunks(file, source, symbols);
    let chunk = chunk_of(
        file,
        lines_spec(source),
        symbols[s].line_start - 1,
        symbols[s].line_end - 1,
        Some(symbols[s].qualified.fqn()),
    );
    assert(all.contains(chunk));
    let c = choose|c: int| 0 <= c < all.len() && all[c] == chunk;
    assert(all[c].line_start == symbols[s].line_start);
}

/// The first line of a symbol. Line zero counts as the first.
pub open spec fn first_line(sym: SymbolView) -> int {
    if sym.line_start >= 1 {
        sym.line_start as int
    } else {
        1
    }
}

/// The last line of a symbol in a file of `total` lines. A symbol ends with the file at
/// the latest, and on the first line at the earliest.
pub open spec fn last_line(sym: SymbolView, total: nat) -> int {
    if sym.line_end > total {
        total as int
    } else if sym.line_end >= 1 {
        sym.line_end as int
    } else {
        1
    }
}

/// Whether a symbol has lines in a file of `total` lines.
pub open spec fn in_file(sym: SymbolView, total: nat) -> bool {
    first_line(sym) <= last_line(sym, total) && first_line(sym) <= total
}

proof fn lemma_symbol_chunks_in_order(
    file: Seq<char>,
    lines: Seq<Seq<char>>,
    symbols: Seq<SymbolView>,
    total: u32,
)
    ensures
        ({
            let kept = symbols.filter(|sym: SymbolView| in_file(sym, total as nat));
            let chunks = symbol_chunks(file, lines, symbols, total);
            &&& chunks.len() == kept.len()
            &&& forall|i: int|
                0 <= i < kept.len() ==> {
                    &&& (#[trigger] chunks[i]).line_start == first_line(kept[i])
                    &&& chunks[i].line_end == last_line(kept[i], total as nat)
                    &&& chunks[i].symbol_ref == Some(kept[i].qualified.fqn())
                }
        }),
    decreases symbols.len(),
{
    reveal(Seq::filter);
    if symbols.len() > 0 {
        lemma_symbol_chunks_in_order(file, lines, symbols.drop_last(), total);
        let sym = symbols.last();
        assert(in_file(sym, total as nat) <==> symbol_span(sym, total) is Some);
    }
}

/// The chunks of the symbols come first, one for each symbol with lines in the file, in
/// the order of the symbols and with its lines and name; after them come coverage chunks
/// only.
pub proof fn law_symbol_chunks_come_in_order(
    file: Seq<char>,
    source: Seq<char>,
    symbols: Seq<SymbolView>,
)
    requires
        lines_spec(source).len() <= u32::MAX,
    ensures
        ({
            let total = lines_spec(source).len();
            let kept = symbols.filter(|sym: SymbolView| in_file(sym, total));
            let chunks = file_chunks(file, source, symbols);
            &&& kept.len() <= chunks.len()
            &&& forall|i: int|
                0 <= i < kept.len() ==> {
                    &&& (#[trigger] chunks[i]).line_start == first_line(kept[i])
                    &&& chunks[i].line_end == last_line(kept[i], total)
                    &&& chunks[i].symbol_ref == Some(kept[i].qualified.fqn())
                }
            &&& forall|i: int|
                kept.len() <= i < chunks.len() ==> (#[trigger] chunks[i]).symbol_ref is None
        }),
{
    let lines = lines_spec(source);
    let total = lines.len() as u32;
    let chunks = file_chunks(file, source, symbols);
    let bodies = symbol_chunks(file, lines, symbols, total);
    let windows = window_chunks(file, lines, symbols, total, 0);
    lemma_symbol_chunks_in_order(file, lines, symbols, total);
    lemma_window_chunks(file, lines, symbols, total, 0);
    assert(total as nat == lines.len());
    assert forall|i: int| 0 <= i < chunks.len() implies #[trigger] chunks[i] == (if i
        < bodies.len() {
        bodies[i]
    } else {
        windows[i - bodies.len()]
    }) by {}
}

/// Whether line `line` (1-indexed) of a file is one of the lines of `sym`.
pub open spec fn body_holds(sym: SymbolView, line: int) -> bool {
    sym.line_start <= line && (line <= sym.line_end || (sym.line_end == 0 && line == 1))
}

/// Whether line `line` (1-indexed) is in no symbol.
pub open spec fn outside_symbols(symbols: Seq<SymbolView>, line: int) -> bool {
    forall|s: int| 0 <= s < symbols.len() ==> !(#[trigger] body_holds(symbols[s], line))
}

proof fn lemma_covered(symbols: Seq<SymbolView>, total: u32, i: int)
    requires
        0 <= i < total,
    ensures
        covered(symbols, total, i) <==> !outside_symbols(symbols, i + 1),
{
    assert forall|s: int| 0 <= s < symbols.len() implies #[trigger] spans(symbols[s], total, i)
        == body_holds(symbols[s], i + 1) by {}
    if covered(symbols, total, i) {
        let s = choose|s: int| 0 <= s < symbols.len() && #[trigger] spans(symbols[s], total, i);
        assert(body_holds(symbols[s], i + 1));
    }
    if !outside_symbols(symbols, i + 1) {
        let s = choose|s: int|
            0 <= s < symbols.len() && #[trigger] body_holds(symbols[s], i + 1);
        assert(spans(symbols[s], total, i));
    }
}

proof fn lemma_open_window_is_there(
    file: Seq<char>,
    lines: Seq<Seq<char>>,
    symbols: Seq<SymbolView>,
    total: u32,
    start: int,
    at: int,
)
    requires
        0 <= start <= at < total,
        (at - start) % 25 == 0,
        window_open(symbols, total, at),
    ensures
        window_chunks(file, lines, symbols, total, start).contains(
            chunk_of(file, lines, at, window_end(total, at), None),
        ),
    decreases total + STRIDE - start,
{
    let all = window_chunks(file, lines, symbols, total, start);
    let after = window_chunks(file, lines, symbols, total, start + STRIDE);
    let chunk = chunk_of(file, lines, at, window_end(total, at), None);
    if start == at {
        assert(all[0] == chunk);
    } else {
        lemma_open_window_is_there(file, lines, symbols, total, start + STRIDE, at);
        let c = choose|c: int| 0 <= c < after.len() && after[c] == chunk;
        if window_open(symbols, total, start) {
            assert(all[c + 1] == chunk);
        } else {
            assert(all[c] == chunk);
        }
    }
}

proof fn lemma_windows_are_placed(
    file: Seq<char>,
    lines: Seq<Seq<char>>,
    symbols: Seq<SymbolView>,
    total: u32,
    start: int,
)
    requires
        0 <= start,
    ensures
        ({
            let all = window_chunks(file, lines, symbols, total, start);
            &&& forall|c: int|
                0 <= c < all.len() ==> {
                    let at = (#[trigger] all[c]).line_start - 1;
                    &&& start <= at < total
                    &&& (at - start) % 25 == 0
                    &&& all[c].line_end == window_end(total, at) + 1
                    &&& window_open(symbols, total, at)
                }
            &&& forall|c: int, d: int|
                0 <= c < d < all.len() ==> (#[trigger] all[c]).line_start < (
                #[trigger] all[d]).line_start
        }),
    decreases total + STRIDE - start,
{
    if start < total {
        let all = window_chunks(file, lines, symbols, total, start);
        let after = window_chunks(file, lines, symbols, total, start + STRIDE);
        lemma_windows_are_placed(file, lines, symbols, total, start + STRIDE);
        let shift: int = if window_open(symbols, total, start) {
            1
        } else {
            0
        };
        assert forall|c: int| shift <= c < all.len() implies #[trigger] all[c] == after[c
            - shift] by {}
        assert forall|c: int| 0 <= c < all.len() implies {
            let at = (#[trigger] all[c]).line_start - 1;
            &&& start <= at < total
            &&& (at - start) % 25 == 0
            &&& all[c].line_end == window_end(total, at) + 1
            &&& window_open(symbols, total, at)
        } by {
            if c >= shift {
                assert(all[c] == after[c - shift]);
            }
        }
        assert forall|c: int, d: int| 0 <= c < d < all.len() implies (#[trigger] all[c]).line_start
            < (#[trigger] all[d]).line_start by {
            assert(all[d] == after[d - shift]);
            if c >= shift {
                assert(all[c] == after[c - shift]);
            }
        }
    }
}

/// The window of 50 lines, or up to the end of the file, that starts after a multiple of
/// 25 lines is a chunk exactly where one of its lines is in no symbol.
pub proof fn law_windows_cover_the_rest(
    file: Seq<char>,
    source: Seq<char>,
    symbols: Seq<SymbolView>,
    k: int,
)
    requires
        lines_spec(source).len() <= u32::MAX,
        0 <= k,
        25 * k < lines_spec(source).len(),
    ensures
        ({
            let total = lines_spec(source).len();
            let chunks = file_chunks(file, source, symbols);
            let first = 25 * k + 1;
            let last = if 25 * k + 50 < total {
                25 * k + 50
            } else {
                total as int
            };
            (exists|line: int| first <= line <= last && #[trigger] outside_symbols(symbols, line))
                <==> exists|c: int|
                {
                    &&& 0 <= c < chunks.len()
                    &&& (#[trigger] chunks[c]).symbol_ref is None
                    &&& chunks[c].line_start == first
                    &&& chunks[c].line_end == last
                }
        }),
{
    let lines = lines_spec(source);
    let total = lines.len() as u32;
    let chunks = file_chunks(file, source, symbols);
    let bodies = symbol_chunks(file, lines, symbols, total);
    let windows = window_chunks(file, lines, symbols, total, 0);
    let at = 25 * k;
    let first = at + 1;
    let last = window_end(total, at) + 1;
    lemma_symbol_chunks(file, lines, symbols, total);
    lemma_windows_are_placed(file, lines, symbols, total, 0);
    if exists|line: int| first <= line <= last && #[trigger] outside_symbols(symbols, line) {
        let line = choose|line: int|
            first <= line <= last && #[trigger] outside_symbols(symbols, line);
        lemma_covered(symbols, total, line - 1);
        assert(!covered(symbols, total, line - 1));
        assert(window_open(symbols, total, at));
        lemma_open_window_is_there(file, lines, symbols, total, 0, at);
        let chunk = chunk_of(file, lines, at, window_end(total, at), None);
        let c = choose|c: int| 0 <= c < windows.len() && windows[c] == chunk;
        assert(chunks[bodies.len() + c] == chunk);
    }
    if exists|c: int|
        {
            &&& 0 <= c < chunks.len()
            &&& (#[trigger] chunks[c]).symbol_ref is None
            &&& chunks[c].line_start == first
            &&& chunks[c].line_end == last
        } {
        let c = choose|c: int|
            {
                &&& 0 <= c < chunks.len()
                &&& (#[trigger] chunks[c]).symbol_ref is None
                &&& chunks[c].line_start == first
                &&& chunks[c].line_end == last
            };
        if c < bodies.len() {
            assert(chunks[c] == bodies[c]);
        }
        assert(chunks[c] == windows[c - bodies.len()]);
        assert(window_open(symbols, total, at));
        let i = choose|i: int|
            at <= i <= window_end(total, at) && !(#[trigger] covered(symbols, total, i));
        lemma_covered(symbols, total, i);
        assert(outside_symbols(symbols, i + 1));
    }
}

/// There are no other coverage chunks than those windows, each is there once, and they
/// come from the beginning of the file to its end.
pub proof fn law_coverage_chunks_are_windows(
    file: Seq<char>,
    source: Seq<char>,
    symbols: Seq<SymbolView>,
    c: int,
)
    requires
        lines_spec(source).len() <= u32::MAX,
        0 <= c < file_chunks(file, source, symbols).len(),
        file_chunks(file, source, symbols)[c].symbol_ref is None,
    ensures
        ({
            let total = lines_spec(source).len();
            let chunks = file_chunks(file, source, symbols);
            &&& (chunks[c].line_start - 1) % 25 == 0
            &&& chunks[c].line_end == if chunks[c].line_start + 49 < total {
                chunks[c].line_start + 49
            } else {
                total as int
            }
            &&& forall|d: int|
                c < d < chunks.len() ==> chunks[c].line_start < (#[trigger] chunks[d]).line_start
        }),
{
    let lines = lines_spec(source);
    let total = lines.len() as u32;
    let chunks = file_chunks(file, source, symbols);
    let bodies = symbol_chunks(file, lines, symbols, total);
    let windows = window_chunks(file, lines, symbols, total, 0);
    lemma_symbol_chunks(file, lines, symbols, total);
    lemma_windows_are_placed(file, lines, symbols, total, 0);
    if c < bodies.len() {
        assert(chunks[c] == bodies[c]);
    }
    assert(chunks[c] == windows[c - bodies.len()]);
    assert forall|d: int| c < d < chunks.len() implies chunks[c].line_start < (
    #[trigger] chunks[d]).line_start by {
        assert(chunks[d] == windows[d - bodies.len()]);
    }
}

/// Chunks say what their fields hold, in order.
pub proof fn law_chunks_say_what_they_hold(chunks: Seq<Chunk>, symbols: Seq<Symbol>)
    ensures
        chunk_views(chunks).len() == chunks.len(),
        forall|i: int|
            0 <= i < chunks.len() ==> {
                &&& (#[trigger] chunk_views(chunks)[i]).file == chunks[i].file@
                &&& chunk_views(chunks)[i].line_start == chunks[i].line_start
                &&& chunk_views(chunks)[i].line_end == chunks[i].line_end
                &&& chunk_views(chunks)[i].content == chunks[i].content@
                &&& chunks[i].symbol_ref is None ==> chunk_views(chunks)[i].symbol_ref is None
                &&& chunks[i].symbol_ref is Some ==> chunk_views(chunks)[i].symbol_ref == Some(
                    chunks[i].symbol_ref->0@,
                )
            },
        symbol_views(symbols).len() == symbols.len(),
        forall|i: int| 0 <= i < symbols.len() ==> #[trigger] symbol_views(symbols)[i] == symbols[i]@,
{
}

} // verus!
