//! The decisions of the chunked CSV reader: which window of rows to read
//! next, and whether what was read is handed on.

use crate::slicing::{chunk_len, files_needed, lemma_chunk_inside, lemma_chunks_partition};
use vstd::prelude::*;

verus! {

/// A window of data rows to read: rows after the header to skip, and how
/// many rows to take.
#[derive(Clone, Copy, Debug, PartialEq, Eq, Structural)]
pub struct ChunkWindow {
    pub skip_rows: usize,
    pub n_rows: usize,
}

/// What reading a window produced.
#[derive(Clone, Copy, Debug, PartialEq, Eq, Structural)]
pub enum ChunkOutcome {
    /// The read succeeded with this many rows.
    Rows(usize),
    /// The read failed.
    Failed,
}

/// Whether a read is handed on: a successful read of at least one row.
pub open spec fn yields_spec(outcome: ChunkOutcome) -> bool {
    outcome matches ChunkOutcome::Rows(n) && n > 0
}

/// Reads a CSV file a fixed number of rows at a time.
pub struct CsvChunkReader {
    file_path: String,
    skip_rows: usize,
    chunk_size: usize,
}

impl CsvChunkReader {
    /// The file being read.
    pub closed spec fn path(&self) -> Seq<char> {
        self.file_path@
    }

    /// How many data rows have been asked for so far.
    pub closed spec fn position(&self) -> nat {
        self.skip_rows as nat
    }

    /// How many rows each read takes.
    pub closed spec fn chunk(&self) -> nat {
        self.chunk_size as nat
    }

    /// What one call of `next_chunk` does: the window starts at the reader's
    /// position and holds `chunk` rows, and the reader moves past it.
    pub open spec fn next_chunk_relates(before: CsvChunkReader, w: ChunkWindow, after: CsvChunkReader) -> bool {
        &&& w.skip_rows == before.position()
        &&& w.n_rows == before.chunk()
        &&& after.position() == before.position() + before.chunk()
        &&& after.chunk() == before.chunk()
        &&& after.path() == before.path()
    }

    /// The position and the chunk size are machine integers.
    pub proof fn lemma_bounds(&self)
        ensures
            self.position() <= usize::MAX,
            self.chunk() <= usize::MAX,
    {
    }

    /// A reader at the start of `file_path` that reads `chunk_size` rows at a
    /// time.
    pub fn new(file_path: String, chunk_size: usize) -> (r: CsvChunkReader)
        ensures
            r.path() == file_path@,
            r.position() == 0,
            r.chunk() == chunk_size,
    {
        CsvChunkReader { file_path, skip_rows: 0, chunk_size }
    }

    /// The file being read.
    pub fn file_path(&self) -> (r: &String)
        ensures
            r@ == self.path(),
    {
        &self.file_path
    }

    /// Whether one more window can be asked for without the row count
    /// overflowing.
    pub fn can_advance(&self) -> (r: bool)
        ensures
            r == (self.position() + self.chunk() <= usize::MAX),
    {
        self.skip_rows <= usize::MAX - self.chunk_size
    }

    /// The next window to read: it starts where the previous one ended and
    /// holds `chunk` rows; the reader moves past it.
    pub fn next_chunk(&mut self) -> (w: ChunkWindow)
        requires
            old(self).position() + old(self).chunk() <= usize::MAX,
        ensures
            w.skip_rows == old(self).position(),
            w.n_rows == old(self).chunk(),
            final(self).position() == old(self).position() + old(self).chunk(),
            final(self).chunk() == old(self).chunk(),
            final(self).path() == old(self).path(),
            Self::next_chunk_relates(*old(self), w, *final(self)),
    {
        let w = ChunkWindow { skip_rows: self.skip_rows, n_rows: self.chunk_size };
        self.skip_rows = self.skip_rows + self.chunk_size;
        w
    }

    /// Whether the rows read from a window are handed on: only a successful
    /// read of at least one row is; an empty read or a failure ends the
    /// reading.
    pub fn yields(outcome: ChunkOutcome) -> (r: bool)
        ensures
            r == yields_spec(outcome),
    {
        match outcome {
            ChunkOutcome::Rows(n) => n > 0,
            ChunkOutcome::Failed => false,
        }
    }
}

/// Successive calls of `next_chunk` hand out consecutive windows of `chunk`
/// rows: after `k` calls from position `s` the windows cover the rows
/// `[s, s + k * chunk)` one after the other, and the reader stands at
/// `s + k * chunk`.
pub proof fn lemma_successive_windows(readers: Seq<CsvChunkReader>, windows: Seq<ChunkWindow>)
    requires
        readers.len() == windows.len() + 1,
        forall|i: int|
            0 <= i < windows.len() ==> CsvChunkReader::next_chunk_relates(
                readers[i],
                #[trigger] windows[i],
                readers[i + 1],
            ),
    ensures
        forall|i: int|
            0 <= i < windows.len() ==> (#[trigger] windows[i]).skip_rows == readers[0].position() + i
                * readers[0].chunk() && windows[i].n_rows == readers[0].chunk(),
        forall|i: int|
            0 <= i < windows.len() - 1 ==> #[trigger] windows[i].skip_rows + windows[i].n_rows
                == windows[i + 1].skip_rows,
        readers.last().position() == readers[0].position() + windows.len() * readers[0].chunk(),
        readers.last().path() == readers[0].path(),
        forall|i: int|
            0 <= i < windows.len() ==> readers[0].position() <= (#[trigger] windows[i]).skip_rows
                && windows[i].skip_rows + windows[i].n_rows <= readers[0].position() + windows.len()
                * readers[0].chunk(),
        forall|row: int|
            readers[0].position() <= row < readers[0].position() + windows.len() * readers[0].chunk()
                ==> #[trigger] covered_by(windows, row),
    decreases windows.len(),
{
    let s = readers[0].position();
    let c = readers[0].chunk();
    if windows.len() > 0 {
        let rs = readers.drop_first();
        let ws = windows.drop_first();
        assert forall|i: int| 0 <= i < ws.len() implies CsvChunkReader::next_chunk_relates(
            rs[i],
            #[trigger] ws[i],
            rs[i + 1],
        ) by {
            assert(CsvChunkReader::next_chunk_relates(readers[i + 1], windows[i + 1], readers[i + 2]));
        }
        lemma_successive_windows(rs, ws);
        assert(CsvChunkReader::next_chunk_relates(readers[0], windows[0], readers[1]));
        assert(rs[0] == readers[1]);
        assert forall|i: int| 0 <= i < windows.len() implies (#[trigger] windows[i]).skip_rows == s + i
            * c && windows[i].n_rows == c by {
            if i > 0 {
                assert(windows[i] == ws[i - 1]);
                assert(s + i * c == (s + c) + (i - 1) * c) by (nonlinear_arith);
            }
        }
        assert forall|i: int| 0 <= i < windows.len() implies readers[0].position() <= (
        #[trigger] windows[i]).skip_rows && windows[i].skip_rows + windows[i].n_rows
            <= readers[0].position() + windows.len() * readers[0].chunk() by {
            assert(s + i * c + c <= s + windows.len() * c) by (nonlinear_arith)
                requires
                    0 <= i < windows.len(),
                    c >= 0,
            ;
            assert(0 <= i * c) by (nonlinear_arith)
                requires
                    0 <= i,
                    c >= 0,
            ;
        }
        assert forall|i: int| 0 <= i < windows.len() - 1 implies #[trigger] windows[i].skip_rows
            + windows[i].n_rows == windows[i + 1].skip_rows by {
            assert(s + (i + 1) * c == s + i * c + c) by (nonlinear_arith);
        }
        assert(readers.last() == rs.last());
        assert(s + c + ws.len() * c == s + windows.len() * c) by (nonlinear_arith)
            requires
                ws.len() + 1 == windows.len(),
        ;
        assert forall|row: int| s <= row < s + windows.len() * c implies #[trigger] covered_by(
            windows,
            row,
        ) by {
            if row < s + c {
                assert(in_window(windows[0], row));
            } else {
                assert(covered_by(ws, row));
                let j = choose|j: int| 0 <= j < ws.len() && in_window(#[trigger] ws[j], row);
                assert(windows[j + 1] == ws[j]);
            }
        }
    } else {
        assert(readers.last() == readers[0]);
        assert(windows.len() * c == 0) by (nonlinear_arith)
            requires
                windows.len() == 0,
        ;
    }
}

/// The row lies in the window.
pub open spec fn in_window(w: ChunkWindow, row: int) -> bool {
    w.skip_rows <= row < w.skip_rows + w.n_rows
}

/// Some window of the list holds the row.
pub open spec fn covered_by(windows: Seq<ChunkWindow>, row: int) -> bool {
    exists|i: int| 0 <= i < windows.len() && in_window(#[trigger] windows[i], row)
}

/// The number of rows a read of the window starting at data row `skip` and
/// holding `chunk` rows gives from a file of `rows` data rows: what is left,
/// at most `chunk`.
pub open spec fn rows_in_window(rows: int, skip: int, chunk: int) -> int {
    if skip >= rows {
        0
    } else if rows - skip < chunk {
        rows - skip
    } else {
        chunk
    }
}

/// Reading a file of `rows` data rows from the start, `chunk` rows at a time,
/// where each read gives the rows of its window: the first
/// `files_needed(rows, chunk)` reads are handed on and hold the rows in
/// order (each but the last a full chunk, together all rows), the next read
/// is empty and ends the reading, and every read past the data is empty too.
pub proof fn lemma_reading_covers_rows(rows: int, chunk: int)
    requires
        0 <= rows <= usize::MAX,
        chunk > 0,
    ensures
        forall|i: int|
            0 <= i < files_needed(rows, chunk) ==> rows_in_window(rows, i * chunk, chunk)
                == #[trigger] chunk_len(rows, chunk, i) && yields_spec(
                ChunkOutcome::Rows(rows_in_window(rows, i * chunk, chunk) as usize),
            ),
        rows_in_window(rows, files_needed(rows, chunk) * chunk, chunk) == 0,
        forall|skip: int| skip >= rows ==> #[trigger] rows_in_window(rows, skip, chunk) == 0,
        forall|skip: int| skip >= rows ==> !yields_spec(
            ChunkOutcome::Rows(#[trigger] rows_in_window(rows, skip, chunk) as usize),
        ),
{
    lemma_chunks_partition(rows, chunk);
    let k = files_needed(rows, chunk);
    assert forall|i: int| 0 <= i < k implies rows_in_window(rows, i * chunk, chunk)
        == #[trigger] chunk_len(rows, chunk, i) && yields_spec(
        ChunkOutcome::Rows(rows_in_window(rows, i * chunk, chunk) as usize),
    ) by {
        lemma_chunk_inside(rows, chunk, i);
        assert(0 < rows_in_window(rows, i * chunk, chunk) <= usize::MAX);
    }
    if k > 0 {
        assert(k * chunk == (k - 1) * chunk + chunk) by (nonlinear_arith);
        lemma_chunk_inside(rows, chunk, k - 1);
    }
}

} // verus!
