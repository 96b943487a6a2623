//! Aligned iteration over columns that are chunked at different boundaries.
//!
//! Each column comes as a sequence of chunks. The columns hold the same
//! number of rows, but their chunks need not end at the same rows. The
//! iterator cuts all columns at every row where a chunk of any column ends,
//! and so hands out batches in which every column has the same rows.

use vstd::prelude::*;
use crate::array::Array;
use crate::scalar::Value;

verus! {

/// The values of a chunked column: those of its chunks, in order.
pub open spec fn flat(chunks: Seq<Array>) -> Seq<Value>
    decreases chunks.len(),
{
    if chunks.len() == 0 {
        Seq::empty()
    } else {
        flat(chunks.drop_last()) + chunks.last()@
    }
}

/// The row at which chunk `k` starts: the number of rows in the chunks
/// before it. For `k == chunks.len()` this is the number of all rows.
pub open spec fn offset_of(chunks: Seq<Array>, k: int) -> nat {
    flat(chunks.take(k)).len()
}

/// Every chunk is well formed and of the given logical type.
pub open spec fn chunks_wf(chunks: Seq<Array>) -> bool {
    forall|k: int|
        0 <= k < chunks.len() ==> (#[trigger] chunks[k]).wf() && chunks[k].spec_dtype()
            == chunks[0].spec_dtype()
}

/// Whether every chunk is canonical.
pub open spec fn all_canonical(chunks: Seq<Array>) -> bool {
    forall|k: int| 0 <= k < chunks.len() ==> (#[trigger] chunks[k]).is_canonical()
}

/// The chunks of each column, as sequences.
pub open spec fn chunked(columns: Seq<Vec<Array>>) -> Seq<Seq<Array>> {
    Seq::new(columns.len(), |f: int| columns[f]@)
}

/// Whether a chunk of some column ends with the row before `row`.
pub open spec fn is_chunk_end(sources: Seq<Seq<Array>>, row: int) -> bool {
    exists|f: int, k: int|
        0 <= f < sources.len() && 0 < k <= sources[f].len() && #[trigger] offset_of(sources[f], k)
            == row
}

/// Whether a chunk of some column starts at a row strictly between `lo` and
/// `hi`.
pub open spec fn chunk_starts_within(sources: Seq<Seq<Array>>, lo: int, hi: int) -> bool {
    exists|f: int, k: int|
        0 <= f < sources.len() && 0 <= k <= sources[f].len() && lo < #[trigger] offset_of(
            sources[f],
            k,
        ) < hi
}

/// The rows behind which a chunk ends. An empty chunk at the front ends
/// behind no row.
pub open spec fn ends(chunks: Seq<Array>) -> Set<int> {
    Set::new(
        |row: int|
            row > 0 && exists|k: int|
                0 < k <= chunks.len() && #[trigger] offset_of(chunks, k) == row,
    )
}

/// The rows behind which a chunk of some column ends.
pub open spec fn cuts_of(sources: Seq<Seq<Array>>) -> Set<int> {
    Set::new(|row: int| row > 0 && is_chunk_end(sources, row))
}

/// Appending a chunk appends its values.
pub proof fn lemma_flat_push(chunks: Seq<Array>, chunk: Array)
    ensures
        flat(chunks.push(chunk)) == flat(chunks) + chunk@,
{
    assert(chunks.push(chunk).drop_last() == chunks);
}

/// Appending a chunk leaves the starts of the chunks before it where they
/// were, and the appended chunk ends after its own rows.
pub proof fn lemma_offset_push(chunks: Seq<Array>, chunk: Array, k: int)
    requires
        0 <= k <= chunks.len(),
    ensures
        offset_of(chunks.push(chunk), k) == offset_of(chunks, k),
        offset_of(chunks.push(chunk), chunks.len() as int + 1) == offset_of(
            chunks,
            chunks.len() as int,
        )
            + chunk@.len(),
{
    let grown = chunks.push(chunk);
    assert(grown.take(k) == chunks.take(k));
    assert(grown.take(chunks.len() as int + 1) == grown);
    assert(chunks.take(chunks.len() as int) == chunks);
    lemma_flat_push(chunks, chunk);
}

/// The cuts that lie behind no row beyond `row`.
pub open spec fn cuts_upto(cuts: Set<int>, row: int) -> Set<int> {
    Set::new(|r: int| r <= row && cuts.contains(r))
}

/// No chunks end behind no row.
pub proof fn lemma_ends_empty()
    ensures
        ends(Seq::<Array>::empty()) == Set::<int>::empty(),
{
    assert(ends(Seq::<Array>::empty()) =~= Set::<int>::empty());
}

/// With a cut behind row `to` and none between `from` and `to`, the cuts up
/// to `to` are those up to `from` and `to`.
pub proof fn lemma_cut_step(cuts: Set<int>, from: int, to: int)
    requires
        from < to,
        cuts.contains(to),
        forall|r: int| from < r < to ==> !cuts.contains(r),
    ensures
        cuts_upto(cuts, to) == cuts_upto(cuts, from).insert(to),
{
    assert(cuts_upto(cuts, to) =~= cuts_upto(cuts, from).insert(to));
}

/// A chunk with rows, appended, ends behind the last row, and the chunks
/// before it end where they did.
pub proof fn lemma_ends_push(chunks: Seq<Array>, chunk: Array)
    requires
        chunk@.len() > 0,
    ensures
        ends(chunks.push(chunk)) == ends(chunks).insert(flat(chunks.push(chunk)).len() as int),
{
    let grown = chunks.push(chunk);
    let last = flat(grown).len() as int;
    lemma_offset_push(chunks, chunk, chunks.len() as int);
    assert(grown.take(grown.len() as int) == grown);
    assert forall|row: int| ends(grown).contains(row) implies ends(chunks).insert(last).contains(
        row,
    ) by {
        let k = choose|k: int| 0 < k <= grown.len() && #[trigger] offset_of(grown, k) == row;
        if k <= chunks.len() {
            lemma_offset_push(chunks, chunk, k);
            assert(offset_of(chunks, k) == row);
        }
    }
    assert forall|row: int| ends(chunks).insert(last).contains(row) implies ends(grown).contains(
        row,
    ) by {
        if row == last {
            assert(offset_of(grown, grown.len() as int) == row);
        } else {
            let k = choose|k: int| 0 < k <= chunks.len() && #[trigger] offset_of(chunks, k) == row;
            lemma_offset_push(chunks, chunk, k);
            assert(offset_of(grown, k) == row);
        }
    }
    assert(ends(grown) =~= ends(chunks).insert(last));
}

/// A chunk starts where the one before it ends.
pub proof fn lemma_offset_step(chunks: Seq<Array>, k: int)
    requires
        0 <= k < chunks.len(),
    ensures
        flat(chunks.take(k + 1)) == flat(chunks.take(k)) + chunks[k]@,
        offset_of(chunks, k + 1) == offset_of(chunks, k) + chunks[k]@.len(),
{
    assert(chunks.take(k + 1).drop_last() == chunks.take(k));
    assert(chunks.take(k + 1).last() == chunks[k]);
}

/// Later chunks start at later rows.
pub proof fn lemma_offsets_monotone(chunks: Seq<Array>, j: int, k: int)
    requires
        0 <= j <= k <= chunks.len(),
    ensures
        offset_of(chunks, j) <= offset_of(chunks, k),
    decreases k - j,
{
    if j < k {
        lemma_offsets_monotone(chunks, j, k - 1);
        lemma_offset_step(chunks, k - 1);
    }
}

/// The values of the first `k` chunks are the first values of the column.
pub proof fn lemma_flat_prefix(chunks: Seq<Array>, k: int)
    requires
        0 <= k <= chunks.len(),
    ensures
        offset_of(chunks, k) <= flat(chunks).len(),
        flat(chunks.take(k)) == flat(chunks).take(offset_of(chunks, k) as int),
    decreases chunks.len() - k,
{
    if k == chunks.len() {
        assert(chunks.take(k) == chunks);
        assert(flat(chunks).take(flat(chunks).len() as int) == flat(chunks));
    } else {
        lemma_flat_prefix(chunks, k + 1);
        lemma_offset_step(chunks, k);
        let longer = flat(chunks.take(k + 1));
        assert(longer.take(offset_of(chunks, k) as int) == flat(chunks.take(k)));
        assert(flat(chunks).take(offset_of(chunks, k + 1) as int).take(offset_of(chunks, k) as int)
            == flat(chunks).take(offset_of(chunks, k) as int));
    }
}

/// The rows `[lo, hi)` of chunk `k` are the rows of the column that lie as
/// far behind the start of the chunk.
pub proof fn lemma_chunk_in_flat(chunks: Seq<Array>, k: int, lo: int, hi: int)
    requires
        0 <= k < chunks.len(),
        0 <= lo <= hi <= chunks[k]@.len(),
    ensures
        offset_of(chunks, k) + hi <= flat(chunks).len(),
        flat(chunks).subrange(offset_of(chunks, k) + lo, offset_of(chunks, k) + hi)
            == chunks[k]@.subrange(lo, hi),
{
    lemma_flat_prefix(chunks, k + 1);
    lemma_offset_step(chunks, k);
    let start = offset_of(chunks, k) as int;
    let upto = flat(chunks).take(offset_of(chunks, k + 1) as int);
    assert(upto == flat(chunks.take(k)) + chunks[k]@);
    assert(flat(chunks).subrange(start + lo, start + hi) =~= upto.subrange(start + lo, start + hi));
    assert(upto.subrange(start + lo, start + hi) =~= chunks[k]@.subrange(lo, hi));
}

/// A pull-based iterator over columns of chunks. It keeps, for each column,
/// the chunk that holds the next row, and one position for all columns: the
/// number of rows handed out so far.
#[derive(Debug)]
pub struct AlignedIterator {
    columns: Vec<Vec<Array>>,
    chunk: Vec<usize>,
    start: Vec<usize>,
    position: usize,
}

impl AlignedIterator {
    /// The chunks of each column.
    pub closed spec fn sources(&self) -> Seq<Seq<Array>> {
        chunked(self.columns@)
    }

    /// Number of columns.
    pub open spec fn width(&self) -> nat {
        self.sources().len()
    }

    /// The chunks of column `f`.
    pub open spec fn column(&self, f: int) -> Seq<Array> {
        self.sources()[f]
    }

    /// Number of rows handed out so far.
    pub closed spec fn position(&self) -> nat {
        self.position as nat
    }

    /// Number of rows of each column. Zero without columns.
    pub open spec fn total(&self) -> nat {
        if self.width() == 0 {
            0
        } else {
            flat(self.column(0)).len()
        }
    }

    /// What `new` asks of the columns: well-formed chunks, one logical type
    /// within a column, and the same number of rows in every column.
    pub open spec fn aligned(columns: Seq<Vec<Array>>) -> bool {
        &&& forall|f: int| 0 <= f < columns.len() ==> chunks_wf(#[trigger] columns[f]@)
        &&& forall|f: int|
            0 <= f < columns.len() ==> flat(#[trigger] columns[f]@).len() == flat(
                columns[0]@,
            ).len()
        &&& columns.len() > 0 ==> flat(columns[0]@).len() <= usize::MAX
    }

    closed spec fn cursor_wf(&self, f: int) -> bool {
        let chunks = self.columns[f]@;
        &&& self.chunk[f] <= chunks.len()
        &&& self.start[f] == offset_of(chunks, self.chunk[f] as int)
        &&& self.start[f] <= self.position
        &&& self.chunk[f] < chunks.len() ==> self.position <= self.start[f]
            + chunks[self.chunk[f] as int]@.len()
        &&& self.chunk[f] == chunks.len() ==> self.position == self.start[f]
    }

    /// Column `f` has reached the chunk that holds the next row, or its end.
    closed spec fn settled(&self, f: int) -> bool {
        let chunks = self.columns[f]@;
        self.chunk[f] < chunks.len() ==> self.position < self.start[f]
            + chunks[self.chunk[f] as int]@.len()
    }

    /// The columns are as `new` asks, and each cursor points at the chunk
    /// in which the common position lies.
    pub closed spec fn wf(&self) -> bool {
        &&& AlignedIterator::aligned(self.columns@)
        &&& self.chunk.len() == self.columns.len()
        &&& self.start.len() == self.columns.len()
        &&& forall|f: int| 0 <= f < self.columns.len() ==> self.cursor_wf(f)
        &&& self.position <= self.total()
    }

    /// No chunk of column `f` ends beyond the last row.
    proof fn lemma_chunk_end(&self, f: int, c: int)
        requires
            self.wf(),
            0 <= f < self.columns.len(),
            0 <= c < self.columns[f].len(),
        ensures
            offset_of(self.columns[f]@, c) + self.columns[f][c]@.len() <= self.total(),
            self.total() <= usize::MAX,
    {
        lemma_flat_prefix(self.columns[f]@, c + 1);
        lemma_offset_step(self.columns[f]@, c);
        assert(flat(self.columns@[f]@).len() == flat(self.columns@[0]@).len());
    }

    /// The iterator at the first row of the given columns.
    pub fn new(columns: Vec<Vec<Array>>) -> (it: AlignedIterator)
        requires
            AlignedIterator::aligned(columns@),
        ensures
            it.wf(),
            it.sources() == chunked(columns@),
            it.position() == 0,
    {
        let mut chunk: Vec<usize> = Vec::new();
        let mut start: Vec<usize> = Vec::new();
        let mut f: usize = 0;
        while f < columns.len()
            invariant
                f <= columns.len(),
                chunk.len() == f,
                start.len() == f,
                forall|k: int| 0 <= k < f ==> chunk[k] == 0 && start[k] == 0,
            decreases columns.len() - f,
        {
            chunk.push(0);
            start.push(0);
            f += 1;
        }
        let it = AlignedIterator { columns, chunk, start, position: 0 };
        assert forall|f: int| 0 <= f < it.columns.len() implies it.cursor_wf(f) by {
            assert(it.columns[f]@.take(0) =~= Seq::<Array>::empty());
        }
        it
    }

    /// The next batch: one slice per column, all of the same rows. The batch
    /// starts at the current position and ends at the next row at which a
    /// chunk of some column ends. `None` once all rows were handed out.
    pub fn next(&mut self) -> (r: Option<Vec<Array>>)
        requires
            old(self).wf(),
        ensures
            final(self).wf(),
            final(self).sources() == old(self).sources(),
            final(self).position() <= final(self).total(),
            match r {
                None => {
                    &&& old(self).position() == old(self).total()
                    &&& final(self).position() == old(self).position()
                },
                Some(batch) => {
                    &&& old(self).position() < final(self).position()
                    &&& batch.len() == old(self).width()
                    &&& forall|f: int|
                        0 <= f < batch.len() ==> {
                            &&& (#[trigger] batch[f]).wf()
                            &&& batch[f]@ == flat(old(self).column(f)).subrange(
                                old(self).position() as int,
                                final(self).position() as int,
                            )
                            &&& batch[f].spec_dtype() == old(self).column(f)[0].spec_dtype()
                            &&& all_canonical(old(self).column(f)) ==> batch[f].is_canonical()
                        }
                    &&& is_chunk_end(old(self).sources(), final(self).position() as int)
                    &&& !chunk_starts_within(
                        old(self).sources(),
                        old(self).position() as int,
                        final(self).position() as int,
                    )
                },
            },
    {
        let width = self.columns.len();
        let mut f: usize = 0;
        while f < width
            invariant
                self.wf(),
                width == self.columns.len(),
                self.columns == old(self).columns,
                self.position == old(self).position,
                f <= width,
                forall|k: int| 0 <= k < f ==> self.settled(k),
            decreases width - f,
        {
            loop
                invariant
                    self.wf(),
                    width == self.columns.len(),
                    self.columns == old(self).columns,
                    self.position == old(self).position,
                    f < width,
                    forall|k: int| 0 <= k < f ==> self.settled(k),
                ensures
                    self.settled(f as int),
                decreases self.columns[f as int].len() - self.chunk[f as int],
            {
                assert(self.cursor_wf(f as int));
                let c = self.chunk[f];
                if c >= self.columns[f].len() {
                    break ;
                }
                assert(chunks_wf(self.columns[f as int]@));
                let len = self.columns[f][c].len();
                proof {
                    self.lemma_chunk_end(f as int, c as int);
                }
                if self.position < self.start[f] + len {
                    break ;
                }
                proof {
                    lemma_offset_step(self.columns[f as int]@, c as int);
                }
                let ghost before = *self;
                self.start[f] = self.start[f] + len;
                self.chunk[f] = c + 1;
                proof {
                    assert forall|k: int| 0 <= k < self.columns.len() implies self.cursor_wf(k) by {
                        assert(before.cursor_wf(k));
                        if k == f {
                            if c + 1 < self.columns[k]@.len() {
                            }
                        }
                    }
                    assert forall|k: int| 0 <= k < f implies self.settled(k) by {
                        assert(before.settled(k));
                    }
                }
            }
            f += 1;
        }
        if width == 0 {
            return None;
        }
        let mut cut: usize = 0;
        let mut exhausted = false;
        let ghost mut tightest: int = 0;
        let mut g: usize = 0;
        while g < width
            invariant
                self.wf(),
                width == self.columns.len(),
                g <= width,
                forall|k: int| 0 <= k < width ==> self.settled(k),
                exhausted ==> exists|k: int|
                    0 <= k < g && self.chunk[k] == (#[trigger] self.columns[k]).len(),
                !exhausted ==> forall|k: int|
                    0 <= k < g ==> self.chunk[k] < (#[trigger] self.columns[k]).len(),
                !exhausted ==> forall|k: int|
                    0 <= k < g ==> self.position + cut <= self.start[k] + (
                    #[trigger] self.columns[k])[self.chunk[k] as int]@.len(),
                !exhausted && g > 0 ==> {
                    &&& 0 <= tightest < g
                    &&& cut > 0
                    &&& self.position + cut == self.start[tightest]
                        + self.columns[tightest][self.chunk[tightest] as int]@.len()
                },
            decreases width - g,
        {
            assert(self.cursor_wf(g as int));
            assert(self.settled(g as int));
            let c = self.chunk[g];
            if c >= self.columns[g].len() {
                exhausted = true;
            } else if !exhausted {
                assert(chunks_wf(self.columns[g as int]@));
                proof {
                    self.lemma_chunk_end(g as int, c as int);
                }
                let room = self.start[g] + self.columns[g][c].len() - self.position;
                if g == 0 || room < cut {
                    cut = room;
                    proof {
                        tightest = g as int;
                    }
                }
            }
            g += 1;
        }
        if exhausted {
            proof {
                let k = choose|k: int|
                    0 <= k < width && self.chunk[k] == (#[trigger] self.columns[k]).len();
                assert(self.cursor_wf(k));
                assert(self.columns[k]@.take(self.columns[k]@.len() as int) == self.columns[k]@);
            }
            return None;
        }
        let mut batch: Vec<Array> = Vec::new();
        let mut h: usize = 0;
        while h < width
            invariant
                self.wf(),
                width == self.columns.len(),
                h <= width,
                batch.len() == h,
                cut > 0,
                forall|k: int|
                    0 <= k < width ==> self.chunk[k] < (#[trigger] self.columns[k]).len(),
                forall|k: int|
                    0 <= k < width ==> self.position + cut <= self.start[k] + (
                    #[trigger] self.columns[k])[self.chunk[k] as int]@.len(),
                forall|k: int|
                    0 <= k < h ==> {
                        &&& (#[trigger] batch[k]).wf()
                        &&& batch[k]@ == flat(self.columns[k]@).subrange(
                            self.position as int,
                            self.position + cut,
                        )
                        &&& batch[k].spec_dtype() == self.columns[k][0].spec_dtype()
                        &&& self.columns[k][self.chunk[k] as int].is_canonical()
                            ==> batch[k].is_canonical()
                    },
            decreases width - h,
        {
            assert(self.cursor_wf(h as int));
            assert(chunks_wf(self.columns[h as int]@));
            let c = self.chunk[h];
            let lo = self.position - self.start[h];
            proof {
                lemma_chunk_in_flat(self.columns[h as int]@, c as int, lo as int, lo + cut);
            }
            match self.columns[h][c].slice(lo, lo + cut) {
                Ok(piece) => {
                    batch.push(piece);
                },
                Err(_) => {
                    proof {
                        assert(false);
                    }
                    return None;
                },
            }
            h += 1;
        }
        proof {
            assert(self.cursor_wf(0));
            assert(chunks_wf(self.columns[0]@));
            lemma_chunk_in_flat(
                self.columns[0]@,
                self.chunk[0] as int,
                0,
                self.columns[0][self.chunk[0] as int]@.len() as int,
            );
            assert forall|f: int, k: int|
                0 <= f < self.columns.len() && 0 <= k <= self.columns[f]@.len() implies !(
            self.position < #[trigger] offset_of(self.columns[f]@, k) < self.position + cut) by {
                let c = self.chunk[f] as int;
                assert(self.cursor_wf(f));
                assert(self.columns[f].len() > c);
                lemma_offset_step(self.columns[f]@, c);
                if k <= c {
                    lemma_offsets_monotone(self.columns[f]@, k, c);
                } else {
                    lemma_offsets_monotone(self.columns[f]@, c + 1, k);
                }
            }
            assert(self.cursor_wf(tightest));
            assert(self.columns[tightest].len() > self.chunk[tightest]);
            lemma_offset_step(self.columns[tightest]@, self.chunk[tightest] as int);
            assert(offset_of(self.columns[tightest]@, self.chunk[tightest] + 1) == self.position
                + cut);
        }
        let ghost before = *self;
        proof {
            self.lemma_chunk_end(0, self.chunk[0] as int);
        }
        self.position = self.position + cut;
        proof {
            assert forall|k: int| 0 <= k < self.columns.len() implies self.cursor_wf(k) by {
                assert(before.cursor_wf(k));
                assert(before.columns[k].len() > before.chunk[k]);
            }
            assert forall|f: int|
                0 <= f < batch.len() && all_canonical(old(self).column(f)) implies (
            #[trigger] batch[f]).is_canonical() by {
                assert(before.cursor_wf(f));
                assert(old(self).column(f)[before.chunk[f] as int].is_canonical());
            }
            let next_chunk = before.chunk[tightest] + 1;
            assert(0 < next_chunk <= old(self).column(tightest).len());
            assert(offset_of(old(self).column(tightest), next_chunk) == self.position());
        }
        Some(batch)
    }
}

} // verus!
