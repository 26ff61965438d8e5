//! The flat vector index: which embeddings are held, for which chunks, and which
//! of them come out of a search.
//!
//! The index is generic in the components of an embedding, which it never looks
//! at. Normalizing and scoring are the caller's; a score is handed in as an
//! integer that orders as the score does (see [`score_key`]).

use vstd::arithmetic::power2::{
    lemma_pow2_pos, lemma_pow2_strictly_increases, lemma_pow2_unfold, pow2,
};
use vstd::prelude::*;

use crate::store::ops::{lookup_all, Statement, StatementView};
use crate::strmap::swap_out;
use crate::text::same_text;

verus! {

/// Identifies a chunk by its location in the source tree.
#[derive(Debug, Clone)]
pub struct ChunkId {
    pub file: String,
    pub line_start: u32,
    pub line_end: u32,
}

/// What a [`ChunkId`] says.
#[verifier::ext_equal]
pub struct ChunkIdView {
    pub file: Seq<char>,
    pub line_start: u32,
    pub line_end: u32,
}

impl View for ChunkId {
    type V = ChunkIdView;

    open spec fn view(&self) -> ChunkIdView {
        ChunkIdView { file: self.file@, line_start: self.line_start, line_end: self.line_end }
    }
}

/// A single result returned by [`VectorIndex::search`].
#[derive(Debug, Clone)]
pub struct SearchResult {
    pub chunk_id: ChunkId,
    /// The row that was scored.
    pub row: usize,
    /// Its score, as it was handed in.
    pub score: i64,
}

/// A stored chunk and its embedding, as a query returns them.
#[derive(Debug, Clone)]
pub struct EmbeddingRow<E> {
    pub file: String,
    pub line_start: i64,
    pub line_end: i64,
    pub embedding: Vec<E>,
}

/// In-memory flat index of embeddings.
pub struct VectorIndex<E> {
    /// Row-major storage: entry i holds the embedding for chunk i.
    embeddings: Vec<Vec<E>>,
    /// Parallel array: chunk_ids[i] corresponds to embeddings[i].
    chunk_ids: Vec<ChunkId>,
    /// Dimensionality of the first inserted vector that has components; all
    /// subsequent ones must match. `None` until the first such insert.
    dimension: Option<usize>,
}

/// A row of an index: a chunk and its embedding.
#[verifier::ext_equal]
pub struct RowView<E> {
    pub id: ChunkIdView,
    pub embedding: Seq<E>,
}

/// What a [`VectorIndex`] holds.
#[verifier::ext_equal]
pub struct IndexView<E> {
    pub rows: Seq<RowView<E>>,
    pub dimension: Option<nat>,
}

impl<E> IndexView<E> {
    /// Every embedding that has components has the dimension of the index, which
    /// is not zero.
    pub open spec fn valid(self) -> bool {
        &&& self.dimension matches Some(d) ==> d > 0
        &&& forall|i: int|
            0 <= i < self.rows.len() ==> (#[trigger] self.rows[i]).embedding.len() == 0
                || self.dimension == Some(self.rows[i].embedding.len())
    }
}

/// The index once a row has been offered to it. An embedding without components
/// fits any index; any other one of another dimension than the first is skipped.
pub open spec fn offered<E>(v: IndexView<E>, row: RowView<E>) -> IndexView<E> {
    let len = row.embedding.len();
    if len == 0 {
        IndexView { rows: v.rows.push(row), ..v }
    } else if v.dimension is Some && v.dimension != Some(len) {
        v
    } else {
        IndexView { rows: v.rows.push(row), dimension: Some(len) }
    }
}

/// The index once rows have been offered to it, in order.
pub open spec fn offered_all<E>(v: IndexView<E>, rows: Seq<RowView<E>>) -> IndexView<E>
    decreases rows.len(),
{
    if rows.len() == 0 {
        v
    } else {
        offered(offered_all(v, rows.drop_last()), rows.last())
    }
}

/// What a sequence of chunks with their embeddings says.
pub open spec fn pair_views<E>(pairs: Seq<(ChunkId, Vec<E>)>) -> Seq<RowView<E>> {
    Seq::new(pairs.len(), |i: int| RowView { id: pairs[i].0@, embedding: pairs[i].1@ })
}

/// The row that a stored chunk stands for. Its line numbers are cut to 32 bits.
pub open spec fn stored_row<E>(row: EmbeddingRow<E>) -> RowView<E> {
    RowView {
        id: ChunkIdView {
            file: row.file@,
            line_start: row.line_start as u32,
            line_end: row.line_end as u32,
        },
        embedding: row.embedding@,
    }
}

/// The rows that stored chunks stand for. One whose embedding has no components is
/// left out.
pub open spec fn stored_rows<E>(rows: Seq<EmbeddingRow<E>>) -> Seq<RowView<E>>
    decreases rows.len(),
{
    if rows.len() == 0 {
        Seq::empty()
    } else {
        let before = stored_rows(rows.drop_last());
        if rows.last().embedding@.len() > 0 {
            before.push(stored_row(rows.last()))
        } else {
            before
        }
    }
}

/// The rows from position `i` on swept of those of `file`: where one stood, the
/// last row has taken its place.
pub open spec fn swept<E>(rows: Seq<RowView<E>>, file: Seq<char>, i: int) -> Seq<RowView<E>>
    decreases rows.len() - i,
{
    if i < 0 || i >= rows.len() {
        rows
    } else if rows[i].id.file == file {
        swept(swap_out(rows, i), file, i)
    } else {
        swept(rows, file, i + 1)
    }
}

/// Whether `best` are the positions of the `k` highest of `scores` (or of all, if
/// there are fewer), highest first.
pub open spec fn is_top(best: Seq<usize>, scores: Seq<i64>, k: nat) -> bool {
    &&& best.len() == if k < scores.len() {
        k
    } else {
        scores.len()
    }
    &&& best.no_duplicates()
    &&& forall|a: int| 0 <= a < best.len() ==> #[trigger] best[a] < scores.len()
    &&& scores.len() <= k ==> forall|j: usize| j < scores.len() ==> #[trigger] best.contains(j)
    &&& forall|a: int, b: int|
        0 <= a < b < best.len() ==> scores[#[trigger] best[a] as int] >= scores[#[trigger] best[b] as int]
    &&& forall|j: usize, a: int|
        j < scores.len() && !best.contains(j) && 0 <= a < best.len() ==> #[trigger] scores[j as int]
            <= scores[#[trigger] best[a] as int]
}

/// The rows that search results name.
pub open spec fn result_rows(results: Seq<SearchResult>) -> Seq<usize> {
    Seq::new(results.len(), |i: int| results[i].row)
}

/// The order key of an IEEE 754 single-precision number with the bits `bits`, not
/// a NaN: the magnitude of its bits with its sign. Both zeros have the key zero.
pub open spec fn score_key_spec(bits: u32) -> i64 {
    if bits < 0x8000_0000 {
        bits as i64
    } else {
        (0x8000_0000 - bits) as i64
    }
}

/// The order key of a score, from its bits.
pub fn score_key(bits: u32) -> (res: i64)
    ensures
        res == score_key_spec(bits),
{
    if bits < 0x8000_0000 {
        bits as i64
    } else {
        0x8000_0000i64 - bits as i64
    }
}

/// The query for all stored embeddings.
pub fn load_query() -> (res: Statement)
    ensures
        res@ == (StatementView {
            sql: "SELECT file, line_start, line_end, embedding FROM chunk WHERE embedding != []"@,
            binds: Seq::empty(),
            context: "load embeddings from chunk table"@,
        }),
{
    lookup_all(
        "SELECT file, line_start, line_end, embedding FROM chunk WHERE embedding != []",
        "load embeddings from chunk table",
    )
}

impl<E> VectorIndex<E> {
    /// What the index holds.
    pub closed spec fn view(&self) -> IndexView<E> {
        IndexView {
            rows: Seq::new(
                self.chunk_ids@.len(),
                |i: int| RowView { id: self.chunk_ids@[i]@, embedding: self.embeddings@[i]@ },
            ),
            dimension: match self.dimension {
                Some(d) => Some(d as nat),
                None => None,
            },
        }
    }

    /// The parallel arrays match.
    pub closed spec fn parallel(&self) -> bool {
        self.chunk_ids@.len() == self.embeddings@.len()
    }

    /// The parallel arrays match, and what they hold is valid.
    pub open spec fn wf(&self) -> bool {
        &&& self.parallel()
        &&& self@.valid()
    }

    /// Create an empty index.
    pub fn new() -> (res: Self)
        ensures
            res.wf(),
            res@ == (IndexView::<E> { rows: Seq::empty(), dimension: None }),
    {
        let res = VectorIndex { embeddings: Vec::new(), chunk_ids: Vec::new(), dimension: None };
        assert(res@.rows =~= Seq::<RowView<E>>::empty());
        res
    }

    fn offer(&mut self, id: ChunkId, embedding: Vec<E>)
        requires
            old(self).wf(),
        ensures
            final(self).wf(),
            final(self)@ == offered(old(self)@, RowView { id: id@, embedding: embedding@ }),
    {
        let ghost row = RowView { id: id@, embedding: embedding@ };
        let len: usize = embedding.len();
        if len > 0 {
            match self.dimension {
                None => {
                    self.dimension = Some(len);
                },
                Some(d) => {
                    if d != len {
                        return ;
                    }
                },
            }
        }
        self.embeddings.push(embedding);
        self.chunk_ids.push(id);
        proof {
            assert(self@.rows =~= old(self)@.rows.push(row));
            assert forall|i: int| 0 <= i < self@.rows.len() implies (
            #[trigger] self@.rows[i]).embedding.len() == 0 || self@.dimension == Some(
                self@.rows[i].embedding.len(),
            ) by {
                if i < old(self)@.rows.len() {
                    assert(self@.rows[i] == old(self)@.rows[i]);
                }
            }
        }
    }

    /// Insert a batch of (ChunkId, embedding) pairs, already normalized.
    ///
    /// Embeddings without components are stored as they are: they score 0 against
    /// everything. Those of another dimension than the first one are skipped.
    pub fn insert(&mut self, chunks: Vec<(ChunkId, Vec<E>)>)
        requires
            old(self).wf(),
        ensures
            final(self).wf(),
            final(self)@ == offered_all(old(self)@, pair_views(chunks@)),
    {
        let ghost all = pair_views(chunks@);
        assert(all.take(0) =~= Seq::<RowView<E>>::empty());
        for pair in it: chunks
            invariant
                self.wf(),
                it.seq() == chunks@,
                all == pair_views(chunks@),
                self@ == offered_all(old(self)@, all.take(it.index())),
        {
            let (id, embedding) = pair;
            proof {
                let i = it.index();
                assert(all[i] == RowView { id: id@, embedding: embedding@ });
                assert(all.take(i + 1).drop_last() =~= all.take(i));
                assert(all.take(i + 1).last() == all[i]);
            }
            self.offer(id, embedding);
        }
        assert(all.take(chunks@.len() as int) =~= all);
    }

    /// Remove all embeddings whose `file` field matches `file`.
    ///
    /// No row of the file is left, and every other row is there as often as before.
    /// Uses swap-remove to avoid O(n) shifts.
    pub fn remove_file(&mut self, file: &str)
        requires
            old(self).wf(),
        ensures
            final(self).wf(),
            forall|k: int|
                0 <= k < final(self)@.rows.len() ==> (#[trigger] final(self)@.rows[k]).id.file
                    != file@,
            forall|row: RowView<E>|
                row.id.file != file@ ==> #[trigger] final(self)@.rows.to_multiset().count(row)
                    == old(self)@.rows.to_multiset().count(row),
            final(self)@ == (IndexView {
                rows: swept(old(self)@.rows, file@, 0),
                dimension: old(self)@.dimension,
            }),
    {
        let mut i: usize = 0;
        while i < self.chunk_ids.len()
            invariant
                self.wf(),
                i <= self.chunk_ids@.len(),
                self@.dimension == old(self)@.dimension,
                swept(old(self)@.rows, file@, 0) == swept(self@.rows, file@, i as int),
            decreases self.chunk_ids@.len() - i,
        {
            let ghost before = self@.rows;
            if same_text(self.chunk_ids[i].file.as_str(), file) {
                let _ = self.chunk_ids.swap_remove(i);
                let _ = self.embeddings.swap_remove(i);
                proof {
                    assert(self@.rows =~= swap_out(before, i as int));
                    assert forall|k: int| 0 <= k < self@.rows.len() implies (
                    #[trigger] self@.rows[k]).embedding.len() == 0 || self@.dimension == Some(
                        self@.rows[k].embedding.len(),
                    ) by {
                        if k == i {
                            assert(self@.rows[k] == before[before.len() - 1]);
                        } else {
                            assert(self@.rows[k] == before[k]);
                        }
                    }
                }
            } else {
                i += 1;
            }
        }
        proof {
            lemma_swept(old(self)@.rows, file@, 0);
        }
    }

    /// The positions of the `k` highest scores, highest first.
    fn top(scores: &[i64], k: usize) -> (res: Vec<usize>)
        requires
            k > 0,
        ensures
            is_top(res@, scores@, k as nat),
    {
        let mut best: Vec<usize> = Vec::new();
        let mut i: usize = 0;
        while i < scores.len()
            invariant
                k > 0,
                i <= scores@.len(),
                is_top(best@, scores@.take(i as int), k as nat),
            decreases scores@.len() - i,
        {
            let ghost before = best@;
            let ghost seen = scores@.take(i as int);
            let ghost now = scores@.take(i + 1);
            let score: i64 = scores[i];
            let mut at: usize = 0;
            while at < best.len() && scores[best[at]] >= score
                invariant
                    best@ == before,
                    at <= best@.len(),
                    i < scores@.len(),
                    seen == scores@.take(i as int),
                    forall|a: int| 0 <= a < best@.len() ==> #[trigger] best@[a] < i,
                    forall|a: int| 0 <= a < at ==> scores@[#[trigger] best@[a] as int] >= score,
                decreases best@.len() - at,
            {
                at += 1;
            }
            if at < k {
                best.insert(at, i);
                let ghost grown = best@;
                proof {
                    lemma_grow(before, grown, seen, now, k as nat, at as int, i);
                }
                if best.len() > k {
                    let _ = best.pop();
                    proof {
                        lemma_shrink(grown, best@, now, k as nat);
                    }
                }
            } else {
                proof {
                    lemma_pass(before, seen, now, k as nat, i);
                }
            }
            i += 1;
        }
        assert(scores@.take(i as int) =~= scores@);
        best
    }

    /// Search for the top-k most similar chunks to `query`, where `scores[i]` is
    /// the score of row `i` against it.
    ///
    /// Returns results sorted by descending score, capped at `top_k`. Nothing is
    /// found by an empty query.
    pub fn search(&self, query: &[E], scores: &[i64], top_k: usize) -> (res: Vec<SearchResult>)
        requires
            self.wf(),
            query@.len() > 0 ==> scores@.len() == self@.rows.len(),
        ensures
            query@.len() == 0 ==> res@.len() == 0,
            query@.len() > 0 ==> is_top(result_rows(res@), scores@, top_k as nat),
            forall|i: int|
                0 <= i < res@.len() ==> (#[trigger] res@[i]).chunk_id@
                    == self@.rows[res@[i].row as int].id && res@[i].score
                    == scores@[res@[i].row as int],
    {
        let mut res: Vec<SearchResult> = Vec::new();
        if self.embeddings.len() == 0 || query.len() == 0 || top_k == 0 {
            assert(result_rows(res@) =~= Seq::<usize>::empty());
            return res;
        }
        let best = Self::top(scores, top_k);
        let mut i: usize = 0;
        while i < best.len()
            invariant
                self.wf(),
                scores@.len() == self@.rows.len(),
                is_top(best@, scores@, top_k as nat),
                i <= best@.len(),
                res@.len() == i,
                forall|k: int|
                    0 <= k < i ==> (#[trigger] res@[k]).row == best@[k] && res@[k].chunk_id@
                        == self@.rows[best@[k] as int].id && res@[k].score
                        == scores@[best@[k] as int],
            decreases best@.len() - i,
        {
            let row: usize = best[i];
            let id = &self.chunk_ids[row];
            let chunk_id = ChunkId {
                file: id.file.clone(),
                line_start: id.line_start,
                line_end: id.line_end,
            };
            res.push(SearchResult { chunk_id, row, score: scores[row] });
            i += 1;
        }
        assert(result_rows(res@) =~= best@);
        res
    }

    /// The index of the chunks that a database holds, with normalized embeddings.
    ///
    /// Only loads rows that have a non-empty embedding vector.
    pub fn load_from_db(rows: Vec<EmbeddingRow<E>>) -> (res: Self)
        ensures
            res.wf(),
            res@ == offered_all(
                IndexView { rows: Seq::empty(), dimension: None },
                stored_rows(rows@),
            ),
    {
        let mut pairs: Vec<(ChunkId, Vec<E>)> = Vec::new();
        assert(pair_views(pairs@) =~= stored_rows(rows@.take(0)));
        for row in it: rows
            invariant
                it.seq() == rows@,
                pair_views(pairs@) == stored_rows(rows@.take(it.index())),
        {
            let ghost before = pairs@;
            proof {
                let i = it.index();
                assert(rows@.take(i + 1).drop_last() =~= rows@.take(i));
                assert(rows@.take(i + 1).last() == row);
            }
            if row.embedding.len() > 0 {
                let ghost stored = stored_row(row);
                let id = ChunkId {
                    file: row.file,
                    line_start: #[verifier::truncate] (row.line_start as u32),
                    line_end: #[verifier::truncate] (row.line_end as u32),
                };
                pairs.push((id, row.embedding));
                assert(pair_views(pairs@) =~= pair_views(before).push(stored));
            }
        }
        assert(rows@.take(rows@.len() as int) =~= rows@);
        let mut index = VectorIndex::new();
        index.insert(pairs);
        index
    }

    /// Remove all entries from the index.
    pub fn clear(&mut self)
        requires
            old(self).wf(),
        ensures
            final(self).wf(),
            final(self)@ == (IndexView::<E> { rows: Seq::empty(), dimension: None }),
    {
        self.embeddings.clear();
        self.chunk_ids.clear();
        self.dimension = None;
        assert(self@.rows =~= Seq::<RowView<E>>::empty());
    }

    /// Number of indexed vectors.
    pub fn len(&self) -> (res: usize)
        requires
            self.wf(),
        ensures
            res == self@.rows.len(),
    {
        self.embeddings.len()
    }

    /// Returns `true` if the index contains no vectors.
    pub fn is_empty(&self) -> (res: bool)
        requires
            self.wf(),
        ensures
            res == (self@.rows.len() == 0),
    {
        self.embeddings.len() == 0
    }

    /// The embedding of row `i`.
    pub fn embedding(&self, i: usize) -> (res: &Vec<E>)
        requires
            self.wf(),
            i < self@.rows.len(),
        ensures
            res@ == self@.rows[i as int].embedding,
    {
        &self.embeddings[i]
    }
}

impl<E> Default for VectorIndex<E> {
    fn default() -> (res: Self)
        ensures
            res.wf(),
            res@ == (IndexView::<E> { rows: Seq::empty(), dimension: None }),
    {
        Self::new()
    }
}

/// A row is swept out by moving the last one to its place.
proof fn lemma_swap_out<T>(row: Seq<T>, i: int)
    requires
        0 <= i < row.len(),
    ensures
        swap_out(row, i).to_multiset() == row.to_multiset().remove(row[i]),
{
    broadcast use vstd::seq_lib::group_to_multiset_ensures;
    broadcast use vstd::multiset::group_multiset_axioms;

    let rest = row.drop_last();
    assert(row =~= rest.push(row.last()));
    if i < rest.len() {
        let moved = swap_out(row, i);
        assert(moved =~= rest.update(i, row.last()));
        assert(moved.remove(i) =~= rest.remove(i));
        assert(moved[i] == row.last());
        assert(rest[i] == row[i]);
        assert(moved.to_multiset().remove(row.last()) == rest.to_multiset().remove(row[i]));
        assert(moved.to_multiset().count(row.last()) > 0);
        assert(rest.to_multiset().count(row[i]) > 0);
        assert(moved.to_multiset() =~= row.to_multiset().remove(row[i]));
    } else {
        assert(swap_out(row, i) =~= rest);
        assert(rest.to_multiset() =~= row.to_multiset().remove(row[i]));
    }
}

proof fn lemma_swept<E>(rows: Seq<RowView<E>>, file: Seq<char>, i: int)
    requires
        0 <= i <= rows.len(),
        forall|k: int| 0 <= k < i ==> (#[trigger] rows[k]).id.file != file,
    ensures
        forall|k: int|
            0 <= k < swept(rows, file, i).len() ==> (#[trigger] swept(rows, file, i)[k]).id.file
                != file,
        forall|row: RowView<E>|
            row.id.file != file ==> #[trigger] swept(rows, file, i).to_multiset().count(row)
                == rows.to_multiset().count(row),
    decreases rows.len() - i,
{
    if i < rows.len() {
        if rows[i].id.file == file {
            lemma_swap_out(rows, i);
            let rest = swap_out(rows, i);
            assert forall|k: int| 0 <= k < i implies (#[trigger] rest[k]).id.file != file by {
                assert(rest[k] == rows[k]);
            }
            lemma_swept(rest, file, i);
            assert(swept(rows, file, i) == swept(rest, file, i));
            assert forall|row: RowView<E>| row.id.file != file implies #[trigger] swept(
                rows,
                file,
                i,
            ).to_multiset().count(row) == rows.to_multiset().count(row) by {
                broadcast use vstd::multiset::group_multiset_axioms;

                assert(rest.to_multiset().count(row) == rows.to_multiset().count(row));
            }
        } else {
            lemma_swept(rows, file, i + 1);
            assert(swept(rows, file, i) == swept(rows, file, i + 1));
        }
    }
}

/// Removing a file leaves no row of it, and leaves every other row as often as it
/// was there.
pub proof fn law_remove_file_removes_just_the_file<E>(rows: Seq<RowView<E>>, file: Seq<char>)
    ensures
        forall|k: int|
            0 <= k < swept(rows, file, 0).len() ==> (#[trigger] swept(rows, file, 0)[k]).id.file
                != file,
        forall|row: RowView<E>|
            row.id.file != file ==> #[trigger] swept(rows, file, 0).to_multiset().count(row)
                == rows.to_multiset().count(row),
{
    lemma_swept(rows, file, 0);
}

/// Removing a file a second time changes nothing.
pub proof fn law_remove_file_is_idempotent<E>(rows: Seq<RowView<E>>, file: Seq<char>)
    ensures
        swept(swept(rows, file, 0), file, 0) == swept(rows, file, 0),
{
    lemma_swept(rows, file, 0);
    lemma_nothing_to_sweep(swept(rows, file, 0), file, 0);
}

proof fn lemma_nothing_to_sweep<E>(rows: Seq<RowView<E>>, file: Seq<char>, i: int)
    requires
        0 <= i <= rows.len(),
        forall|k: int| 0 <= k < rows.len() ==> (#[trigger] rows[k]).id.file != file,
    ensures
        swept(rows, file, i) == rows,
    decreases rows.len() - i,
{
    if i < rows.len() {
        lemma_nothing_to_sweep(rows, file, i + 1);
    }
}

/// Inserting keeps the rows that were there, in place, and a dimension once fixed.
pub proof fn law_insert_keeps_rows<E>(v: IndexView<E>, rows: Seq<RowView<E>>)
    requires
        v.valid(),
    ensures
        offered_all(v, rows).valid(),
        v.rows.is_prefix_of(offered_all(v, rows).rows),
        v.dimension is Some ==> offered_all(v, rows).dimension == v.dimension,
    decreases rows.len(),
{
    if rows.len() > 0 {
        law_insert_keeps_rows(v, rows.drop_last());
    } else {
        assert(v.rows =~= v.rows.take(v.rows.len() as int));
    }
}

/// Where every embedding with components has the dimension of the index (any one
/// dimension, if the index has none yet), none is skipped.
pub proof fn law_matching_rows_are_all_inserted<E>(
    v: IndexView<E>,
    rows: Seq<RowView<E>>,
    dimension: nat,
)
    requires
        v.dimension is None || v.dimension == Some(dimension),
        forall|i: int|
            0 <= i < rows.len() ==> (#[trigger] rows[i]).embedding.len() == 0
                || rows[i].embedding.len() == dimension,
    ensures
        offered_all(v, rows).rows == v.rows + rows,
        offered_all(v, rows).dimension is None || offered_all(v, rows).dimension == Some(dimension),
    decreases rows.len(),
{
    if rows.len() > 0 {
        let rest = rows.drop_last();
        assert forall|i: int| 0 <= i < rest.len() implies (#[trigger] rest[i]).embedding.len() == 0
            || rest[i].embedding.len() == dimension by {
            assert(rest[i] == rows[i]);
        }
        law_matching_rows_are_all_inserted(v, rest, dimension);
        assert((v.rows + rest).push(rows.last()) =~= v.rows + rows);
    } else {
        assert(v.rows + rows =~= v.rows);
    }
}

/// Whether a row goes into an index of a dimension.
pub open spec fn fits<E>(row: RowView<E>, dimension: nat) -> bool {
    row.embedding.len() == 0 || row.embedding.len() == dimension
}

/// Of any batch, the index takes just the rows that fit, in order, after those that
/// were there. The dimension is that of the index or, where it has none yet, that of
/// the first embedding with components.
pub proof fn law_rows_that_fit_are_inserted<E>(
    v: IndexView<E>,
    rows: Seq<RowView<E>>,
    dimension: nat,
)
    requires
        match v.dimension {
            Some(d) => d == dimension,
            None => forall|i: int|
                0 <= i < rows.len() && (#[trigger] rows[i]).embedding.len() > 0 && (forall|j: int|
                    0 <= j < i ==> (#[trigger] rows[j]).embedding.len() == 0)
                    ==> rows[i].embedding.len() == dimension,
        },
    ensures
        offered_all(v, rows).rows == v.rows + rows.filter(|row: RowView<E>| fits(row, dimension)),
        forall|row: RowView<E>| #[trigger]
            fits(row, dimension) <==> row.embedding.len() == 0 || row.embedding.len() == dimension,
        match offered_all(v, rows).dimension {
            Some(d) => d == dimension,
            None => v.dimension is None && forall|i: int|
                0 <= i < rows.len() ==> (#[trigger] rows[i]).embedding.len() == 0,
        },
    decreases rows.len(),
{
    reveal(Seq::filter);
    let keep = |row: RowView<E>| fits(row, dimension);
    if rows.len() > 0 {
        let rest = rows.drop_last();
        let last = rows.last();
        if v.dimension is None {
            assert forall|i: int|
                0 <= i < rest.len() && (#[trigger] rest[i]).embedding.len() > 0 && (forall|j: int|
                    0 <= j < i ==> (#[trigger] rest[j]).embedding.len()
                        == 0) implies rest[i].embedding.len() == dimension by {
                assert(rows[i] == rest[i]);
                assert forall|j: int| 0 <= j < i implies (#[trigger] rows[j]).embedding.len()
                    == 0 by {
                    assert(rest[j] == rows[j]);
                }
            }
        }
        law_rows_that_fit_are_inserted(v, rest, dimension);
        let before = offered_all(v, rest);
        assert(rows[rows.len() - 1] == last);
        if before.dimension is None {
            assert forall|j: int| 0 <= j < rest.len() implies (#[trigger] rows[j]).embedding.len()
                == 0 by {
                assert(rest[j] == rows[j]);
            }
            assert(fits(last, dimension));
        }
        if fits(last, dimension) {
            assert(keep(last));
            assert((v.rows + rest.filter(keep)).push(last) =~= v.rows + rows.filter(keep));
        }
    } else {
        assert(v.rows + rows.filter(keep) =~= v.rows);
    }
}

proof fn lemma_same_filter<T>(s: Seq<T>, p: spec_fn(T) -> bool, q: spec_fn(T) -> bool)
    requires
        forall|i: int| 0 <= i < s.len() ==> p(#[trigger] s[i]) == q(s[i]),
    ensures
        s.filter(p) == s.filter(q),
    decreases s.len(),
{
    reveal(Seq::filter);
    if s.len() > 0 {
        let rest = s.drop_last();
        assert forall|i: int| 0 <= i < rest.len() implies p(#[trigger] rest[i]) == q(rest[i]) by {
            assert(rest[i] == s[i]);
        }
        lemma_same_filter(rest, p, q);
        assert(p(s[s.len() - 1]) == q(s[s.len() - 1]));
    }
}

/// Of a batch in which every embedding has components, the index takes just the rows
/// of its dimension, in order: that which it has or, where it has none yet, that of
/// the first of them.
pub proof fn law_rows_of_the_dimension_are_inserted<E>(
    v: IndexView<E>,
    rows: Seq<RowView<E>>,
    dimension: nat,
)
    requires
        forall|i: int| 0 <= i < rows.len() ==> (#[trigger] rows[i]).embedding.len() > 0,
        match v.dimension {
            Some(d) => d == dimension,
            None => rows.len() > 0 ==> rows[0].embedding.len() == dimension,
        },
    ensures
        offered_all(v, rows).rows == v.rows + rows.filter(
            |row: RowView<E>| row.embedding.len() == dimension,
        ),
{
    if v.dimension is None {
        assert forall|i: int|
            0 <= i < rows.len() && (#[trigger] rows[i]).embedding.len() > 0 && (forall|j: int|
                0 <= j < i ==> (#[trigger] rows[j]).embedding.len()
                    == 0) implies rows[i].embedding.len() == dimension by {
            assert(rows[0].embedding.len() > 0);
        }
    }
    law_rows_that_fit_are_inserted(v, rows, dimension);
    lemma_same_filter(
        rows,
        |row: RowView<E>| fits(row, dimension),
        |row: RowView<E>| row.embedding.len() == dimension,
    );
}

/// An index that is loaded holds every stored chunk whose embedding has components,
/// in order, when these have one dimension.
pub proof fn law_stored_chunks_are_all_loaded<E>(rows: Seq<EmbeddingRow<E>>, dimension: nat)
    requires
        forall|i: int|
            0 <= i < rows.len() ==> (#[trigger] rows[i]).embedding@.len() == 0
                || rows[i].embedding@.len() == dimension,
    ensures
        offered_all(
            IndexView { rows: Seq::empty(), dimension: None },
            stored_rows(rows),
        ).rows == stored_rows(rows),
{
    lemma_stored_rows(rows, dimension);
    let none = IndexView::<E> { rows: Seq::empty(), dimension: None };
    law_matching_rows_are_all_inserted(none, stored_rows(rows), dimension);
    assert(none.rows + stored_rows(rows) =~= stored_rows(rows));
}

proof fn lemma_stored_rows<E>(rows: Seq<EmbeddingRow<E>>, dimension: nat)
    requires
        forall|i: int|
            0 <= i < rows.len() ==> (#[trigger] rows[i]).embedding@.len() == 0
                || rows[i].embedding@.len() == dimension,
    ensures
        forall|i: int|
            0 <= i < stored_rows(rows).len() ==> (#[trigger] stored_rows(rows)[i]).embedding.len()
                == dimension,
    decreases rows.len(),
{
    if rows.len() > 0 {
        let rest = rows.drop_last();
        assert forall|i: int| 0 <= i < rest.len() implies (#[trigger] rest[i]).embedding@.len() == 0
            || rest[i].embedding@.len() == dimension by {
            assert(rest[i] == rows[i]);
        }
        lemma_stored_rows(rest, dimension);
        let all = stored_rows(rows);
        let before = stored_rows(rest);
        assert forall|i: int| 0 <= i < all.len() implies (#[trigger] all[i]).embedding.len()
            == dimension by {
            if i < before.len() {
                assert(all[i] == before[i]);
            } else {
                assert(all[i] == stored_row(rows[rows.len() - 1]));
            }
        }
    }
}

/// However ties are broken, the scores that a search returns are the same.
pub proof fn law_search_scores_are_determined(
    best: Seq<usize>,
    other: Seq<usize>,
    scores: Seq<i64>,
    k: nat,
)
    requires
        is_top(best, scores, k),
        is_top(other, scores, k),
    ensures
        best.len() == other.len(),
        forall|i: int|
            0 <= i < best.len() ==> scores[#[trigger] best[i] as int] == scores[other[i] as int],
{
    assert forall|i: int| 0 <= i < best.len() implies scores[#[trigger] best[i] as int]
        == scores[other[i] as int] by {
        lemma_no_higher(best, other, scores, k, i);
        lemma_no_higher(other, best, scores, k, i);
    }
}

proof fn lemma_no_higher(best: Seq<usize>, other: Seq<usize>, scores: Seq<i64>, k: nat, i: int)
    requires
        is_top(best, scores, k),
        is_top(other, scores, k),
        0 <= i < best.len(),
    ensures
        scores[best[i] as int] <= scores[other[i] as int],
{
    if scores[best[i] as int] > scores[other[i] as int] {
        let heads = best.take(i + 1);
        let ahead = other.take(i);
        assert(heads.to_set().subset_of(ahead.to_set())) by {
            assert forall|x: usize| heads.to_set().contains(x) implies ahead.to_set().contains(
                x,
            ) by {
                let a = choose|a: int| 0 <= a < heads.len() && heads[a] == x;
                assert(best[a] == x);
                assert(scores[best[a] as int] >= scores[best[i] as int]);
                assert(other.contains(x)) by {
                    if !other.contains(x) {
                        assert(scores[x as int] <= scores[other[i] as int]);
                    }
                }
                let b = choose|b: int| 0 <= b < other.len() && other[b] == x;
                if b >= i {
                    assert(scores[other[b] as int] <= scores[other[i] as int]);
                }
                assert(ahead[b] == x);
            }
        }
        assert(heads.no_duplicates());
        heads.unique_seq_to_set();
        ahead.lemma_cardinality_of_set();
        vstd::set_lib::lemma_len_subset(heads.to_set(), ahead.to_set());
    }
}

/// The magnitude that the bits of a single-precision number stand for, in units of
/// the smallest one.
pub open spec fn magnitude(bits: nat) -> nat {
    let exponent = bits / 0x80_0000;
    let fraction = bits % 0x80_0000;
    if exponent == 0 {
        fraction
    } else {
        ((0x80_0000 + fraction) * pow2((exponent - 1) as nat)) as nat
    }
}

/// The number that the bits of a single-precision number stand for, in units of
/// the smallest one.
pub open spec fn single_value(bits: u32) -> int {
    if bits < 0x8000_0000 {
        magnitude(bits as nat) as int
    } else {
        -(magnitude((bits - 0x8000_0000) as nat) as int)
    }
}

proof fn lemma_magnitude_increases(a: nat, b: nat)
    requires
        a < b,
    ensures
        magnitude(a) < magnitude(b),
{
    let (e, f) = (a / 0x80_0000, a % 0x80_0000);
    let (g, h) = (b / 0x80_0000, b % 0x80_0000);
    assert(e <= g);
    if g == 0 {
    } else if e == 0 {
        lemma_pow2_pos((g - 1) as nat);
        assert((0x80_0000 + h) * pow2((g - 1) as nat) >= 0x80_0000) by (nonlinear_arith)
            requires
                pow2((g - 1) as nat) >= 1,
                h >= 0,
        ;
    } else if e == g {
        lemma_pow2_pos((g - 1) as nat);
        assert((0x80_0000 + f) * pow2((g - 1) as nat) < (0x80_0000 + h) * pow2((g - 1) as nat))
            by (nonlinear_arith)
            requires
                pow2((g - 1) as nat) >= 1,
                f < h,
        ;
    } else {
        let p = pow2((e - 1) as nat);
        let q = pow2((g - 1) as nat);
        lemma_pow2_pos((e - 1) as nat);
        lemma_pow2_unfold(e as nat);
        if e < g - 1 {
            lemma_pow2_strictly_increases(e as nat, (g - 1) as nat);
        }
        assert((0x80_0000 + f) * p < (0x80_0000 + h) * q) by (nonlinear_arith)
            requires
                p >= 1,
                q >= 2 * p,
                0 <= f < 0x80_0000,
                h >= 0,
        ;
    }
}

/// Scores compare as their order keys do.
pub proof fn law_score_keys_keep_the_order(a: u32, b: u32)
    ensures
        score_key_spec(a) <= score_key_spec(b) <==> single_value(a) <= single_value(b),
{
    let m = if a < 0x8000_0000 {
        a as nat
    } else {
        (a - 0x8000_0000) as nat
    };
    let n = if b < 0x8000_0000 {
        b as nat
    } else {
        (b - 0x8000_0000) as nat
    };
    assert(magnitude(0) == 0);
    if m > 0 {
        lemma_magnitude_increases(0, m);
    }
    if n > 0 {
        lemma_magnitude_increases(0, n);
    }
    if m < n {
        lemma_magnitude_increases(m, n);
    } else if n < m {
        lemma_magnitude_increases(n, m);
    }
}

/// The scores seen so far with one more, at position `at` of the best ones.
proof fn lemma_grow(
    before: Seq<usize>,
    grown: Seq<usize>,
    seen: Seq<i64>,
    now: Seq<i64>,
    k: nat,
    at: int,
    i: usize,
)
    requires
        is_top(before, seen, k),
        now.len() == seen.len() + 1,
        i == seen.len(),
        forall|x: int| 0 <= x < i ==> now[x] == seen[x],
        0 <= at <= before.len(),
        at < k,
        grown == before.insert(at, i),
        forall|a: int| 0 <= a < at ==> seen[#[trigger] before[a] as int] >= now[i as int],
        at < before.len() ==> seen[before[at] as int] < now[i as int],
    ensures
        is_top(grown, now, if grown.len() <= k {
            k
        } else {
            k + 1
        }),
{
    assert(grown[at] == i);
    assert forall|j: usize| before.contains(j) implies #[trigger] grown.contains(j) by {
        let x = choose|x: int| 0 <= x < before.len() && before[x] == j;
        assert(grown[if x < at {
            x
        } else {
            x + 1
        }] == j);
    }
    assert forall|a: int| 0 <= a < grown.len() implies (#[trigger] grown[a]) == (if a < at {
        before[a]
    } else if a == at {
        i
    } else {
        before[a - 1]
    }) by {}
    assert forall|a: int| 0 <= a < grown.len() implies #[trigger] grown[a] < now.len() by {
        if a > at {
            assert(before[a - 1] < seen.len());
        }
    }
    assert forall|a: int, b: int| 0 <= a < b < grown.len() implies now[#[trigger] grown[a] as int]
        >= now[#[trigger] grown[b] as int] && grown[a] != grown[b] by {
        if a < at {
            assert(before[a] < seen.len());
        }
        if b > at {
            assert(before[b - 1] < seen.len());
            assert(before[at] < seen.len());
        }
    }
    assert forall|j: usize, a: int|
        j < now.len() && !grown.contains(j) && 0 <= a < grown.len() implies #[trigger] now[j as int]
        <= now[#[trigger] grown[a] as int] by {
        assert(j != i);
        assert(!before.contains(j));
        if a < at {
            assert(seen[j as int] <= seen[before[a] as int]);
        } else if a == at {
            if at < before.len() {
                assert(seen[j as int] <= seen[before[at] as int]);
            }
        } else {
            assert(seen[j as int] <= seen[before[a - 1] as int]);
        }
    }
}

/// The best scores without the lowest of them.
proof fn lemma_shrink(grown: Seq<usize>, best: Seq<usize>, now: Seq<i64>, k: nat)
    requires
        is_top(grown, now, k + 1),
        grown.len() == k + 1,
        best == grown.drop_last(),
    ensures
        is_top(best, now, k),
{
    assert forall|a: int| 0 <= a < best.len() implies #[trigger] best[a] == grown[a] by {}
    assert forall|j: usize, a: int|
        j < now.len() && !best.contains(j) && 0 <= a < best.len() implies #[trigger] now[j as int]
        <= now[#[trigger] best[a] as int] by {
        if grown.contains(j) {
            let x = choose|x: int| 0 <= x < grown.len() && grown[x] == j;
            if x < best.len() {
                assert(best[x] == j);
            }
            assert(now[grown[a] as int] >= now[grown[x] as int]);
        } else {
            assert(now[j as int] <= now[grown[a] as int]);
        }
    }
}

/// The best scores when one more that is no higher comes after them.
proof fn lemma_pass(before: Seq<usize>, seen: Seq<i64>, now: Seq<i64>, k: nat, i: usize)
    requires
        is_top(before, seen, k),
        now.len() == seen.len() + 1,
        i == seen.len(),
        forall|x: int| 0 <= x < i ==> now[x] == seen[x],
        before.len() == k,
        forall|a: int| 0 <= a < before.len() ==> seen[#[trigger] before[a] as int] >= now[i as int],
    ensures
        is_top(before, now, k),
{
    assert forall|a: int| 0 <= a < before.len() implies #[trigger] before[a] < now.len() && now[before[a] as int]
        == seen[before[a] as int] by {}
    assert forall|j: usize, a: int|
        j < now.len() && !before.contains(j) && 0 <= a < before.len() implies #[trigger] now[j as int]
        <= now[#[trigger] before[a] as int] by {
        if j < i {
            assert(seen[j as int] <= seen[before[a] as int]);
        }
    }
}

/// A loaded index holds, in order, the stored chunks whose embedding has the dimension of
/// the first one with components: each row has the file, the lines (where these fit 32
/// bits) and the embedding of its stored chunk.
pub proof fn law_loaded_rows_are_the_stored_chunks<E>(rows: Seq<EmbeddingRow<E>>, dimension: nat)
    requires
        dimension > 0,
        forall|i: int|
            0 <= i < rows.len() && (#[trigger] rows[i]).embedding@.len() > 0 && (forall|j: int|
                0 <= j < i ==> (#[trigger] rows[j]).embedding@.len() == 0)
                ==> rows[i].embedding@.len() == dimension,
    ensures
        ({
            let loaded = offered_all(
                IndexView { rows: Seq::empty(), dimension: None },
                stored_rows(rows),
            );
            let kept = rows.filter(|row: EmbeddingRow<E>| row.embedding@.len() == dimension);
            &&& loaded.rows.len() == kept.len()
            &&& forall|k: int|
                0 <= k < kept.len() ==> {
                    &&& (#[trigger] loaded.rows[k]).id.file == kept[k].file@
                    &&& 0 <= kept[k].line_start <= u32::MAX ==> loaded.rows[k].id.line_start
                        == kept[k].line_start
                    &&& 0 <= kept[k].line_end <= u32::MAX ==> loaded.rows[k].id.line_end
                        == kept[k].line_end
                    &&& loaded.rows[k].embedding == kept[k].embedding@
                }
            &&& match loaded.dimension {
                Some(d) => d == dimension,
                None => forall|i: int|
                    0 <= i < rows.len() ==> (#[trigger] rows[i]).embedding@.len() == 0,
            }
        }),
    decreases rows.len(),
{
    reveal(Seq::filter);
    let none = IndexView::<E> { rows: Seq::empty(), dimension: None };
    if rows.len() > 0 {
        let rest = rows.drop_last();
        let last = rows.last();
        assert forall|i: int|
            0 <= i < rest.len() && (#[trigger] rest[i]).embedding@.len() > 0 && (forall|j: int|
                0 <= j < i ==> (#[trigger] rest[j]).embedding@.len()
                    == 0) implies rest[i].embedding@.len() == dimension by {
            assert(rows[i] == rest[i]);
            assert forall|j: int| 0 <= j < i implies (#[trigger] rows[j]).embedding@.len()
                == 0 by {
                assert(rest[j] == rows[j]);
            }
        }
        law_loaded_rows_are_the_stored_chunks(rest, dimension);
        let before = offered_all(none, stored_rows(rest));
        assert(rows[rows.len() - 1] == last);
        if before.dimension is None {
            assert forall|j: int| 0 <= j < rest.len() implies (#[trigger] rows[j]).embedding@.len()
                == 0 by {
                assert(rest[j] == rows[j]);
            }
        }
        if last.embedding@.len() > 0 {
            let stored = stored_rows(rows);
            assert(stored =~= stored_rows(rest).push(stored_row(last)));
            assert(stored.drop_last() =~= stored_rows(rest));
            assert(offered_all(none, stored) == offered(before, stored_row(last)));
        }
    } else {
        assert(offered_all(none, stored_rows(rows)) == none);
    }
}

/// The index takes an offered embedding, and its chunk with it, as they are: at the end,
/// where it has no components or the index has its dimension or none yet; else nothing
/// changes. The first one with components fixes the dimension.
pub proof fn law_offered_row_is_kept_as_it_is<E>(v: IndexView<E>, row: RowView<E>)
    ensures
        row.embedding.len() == 0 || v.dimension is None || v.dimension == Some(
            row.embedding.len(),
        ) ==> {
            &&& offered(v, row).rows.len() == v.rows.len() + 1
            &&& offered(v, row).rows.drop_last() == v.rows
            &&& offered(v, row).rows.last() == row
        },
        row.embedding.len() > 0 && v.dimension is Some && v.dimension != Some(
            row.embedding.len(),
        ) ==> offered(v, row) == v,
        v.dimension is Some || row.embedding.len() == 0 ==> offered(v, row).dimension
            == v.dimension,
        v.dimension is None && row.embedding.len() > 0 ==> offered(v, row).dimension == Some(
            row.embedding.len(),
        ),
{
    assert(v.rows.push(row).drop_last() =~= v.rows);
}

/// Chunks are offered with their own location and embedding, in order.
pub proof fn law_pairs_are_offered_as_they_are<E>(pairs: Seq<(ChunkId, Vec<E>)>)
    ensures
        pair_views(pairs).len() == pairs.len(),
        forall|i: int|
            0 <= i < pairs.len() ==> {
                &&& (#[trigger] pair_views(pairs)[i]).id.file == pairs[i].0.file@
                &&& pair_views(pairs)[i].id.line_start == pairs[i].0.line_start
                &&& pair_views(pairs)[i].id.line_end == pairs[i].0.line_end
                &&& pair_views(pairs)[i].embedding == pairs[i].1@
            },
{
}

/// A search returns the highest scores: as many as asked for or as there are, each row
/// once, from the highest down, and every row that it leaves out scores no higher than
/// any that it returns. So its first result is a best one.
pub proof fn law_search_returns_the_highest(best: Seq<usize>, scores: Seq<i64>, k: nat, j: usize)
    requires
        is_top(best, scores, k),
        j < scores.len(),
    ensures
        scores.len() <= k ==> best.len() == scores.len() && best.contains(j),
        scores.len() > k ==> best.len() == k,
        forall|a: int, b: int|
            0 <= a < b < best.len() ==> #[trigger] best[a] != #[trigger] best[b]
                && scores[best[a] as int] >= scores[best[b] as int],
        forall|a: int|
            0 <= a < best.len() ==> 0 <= #[trigger] best[a] < scores.len() && (best.contains(j)
                || scores[j as int] <= scores[best[a] as int]),
        k > 0 ==> best.len() > 0 && scores[best[0] as int] >= scores[j as int],
{
    if best.contains(j) {
        let a = choose|a: int| 0 <= a < best.len() && best[a] == j;
        if a > 0 {
            assert(scores[best[0] as int] >= scores[best[a] as int]);
        }
    } else if best.len() > 0 {
        assert(scores[j as int] <= scores[best[0] as int]);
    }
}

/// The order key of a score that is not negative is its bits, and that of any other the
/// negated bits without the sign.
pub proof fn law_score_key_of_bits(bits: u32)
    ensures
        bits <= 0x7fff_ffff ==> score_key_spec(bits) == bits,
        bits > 0x7fff_ffff ==> score_key_spec(bits) == -(bits - 0x8000_0000),
{
}

/// The rows that search results name are those of the results, in order, and a chunk id
/// says what its fields hold.
pub proof fn law_results_say_what_they_hold(results: Seq<SearchResult>, id: ChunkId)
    ensures
        result_rows(results).len() == results.len(),
        forall|i: int|
            0 <= i < results.len() ==> #[trigger] result_rows(results)[i] == results[i].row,
        id@.file == id.file@,
        id@.line_start == id.line_start,
        id@.line_end == id.line_end,
{
}

} // verus!
