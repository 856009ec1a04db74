//! Slicing a table of rows into output files of a fixed number of rows: how
//! many files, which rows go into each, and how big a read of the input is.

use vstd::arithmetic::div_mod::{lemma_fundamental_div_mod, lemma_fundamental_div_mod_converse};
use vstd::prelude::*;

verus! {

/// How many rows the input reader takes at a time, in output files' worth.
pub const FILES_PER_READ: usize = 20;

/// The number of files of `lines_per_file` rows needed for `rows` rows: the
/// quotient rounded up.
pub open spec fn files_needed(rows: int, lines_per_file: int) -> int {
    rows / lines_per_file + if rows % lines_per_file == 0 {
        0int
    } else {
        1int
    }
}

/// The first row of chunk `i`.
pub open spec fn chunk_offset(i: int, lines_per_file: int) -> int {
    i * lines_per_file
}

/// The number of rows of chunk `i`: a full file, or what is left.
pub open spec fn chunk_len(height: int, lines_per_file: int, i: int) -> int {
    if height - i * lines_per_file < lines_per_file {
        height - i * lines_per_file
    } else {
        lines_per_file
    }
}

/// A range of rows: the first row and the number of rows.
#[derive(Clone, Copy, Debug, PartialEq, Eq, Structural)]
pub struct RowRange {
    pub offset: usize,
    pub len: usize,
}

/// The number of output files for `rows` rows of input. There is none to
/// compute when a file is to hold no rows.
pub fn number_of_output_files(rows: usize, lines_per_file: usize) -> (r: Option<usize>)
    ensures
        lines_per_file == 0 <==> r is None,
        r matches Some(k) ==> k == files_needed(rows as int, lines_per_file as int),
{
    if lines_per_file == 0 {
        None
    } else {
        let q = rows / lines_per_file;
        let k = if rows % lines_per_file == 0 {
            q
        } else {
            proof {
                lemma_fundamental_div_mod(rows as int, lines_per_file as int);
                assert(q < rows) by (nonlinear_arith)
                    requires
                        rows == lines_per_file * q + rows % lines_per_file,
                        rows % lines_per_file > 0,
                        lines_per_file >= 1,
                        q >= 0,
                ;
            }
            q + 1
        };
        Some(k)
    }
}

/// Every chunk starts inside the table, holds between 1 and `n` rows, and
/// ends inside it.
pub proof fn lemma_chunk_inside(height: int, n: int, i: int)
    requires
        n > 0,
        height >= 0,
        0 <= i < files_needed(height, n),
    ensures
        0 <= i * n < height,
        0 < chunk_len(height, n, i) <= n,
        i * n + chunk_len(height, n, i) <= height,
{
    lemma_fundamental_div_mod(height, n);
    let q = height / n;
    let r = height % n;
    assert(0 <= i * n) by (nonlinear_arith)
        requires
            i >= 0,
            n > 0,
    ;
    if r == 0 {
        assert(i * n < height) by (nonlinear_arith)
            requires
                height == n * q,
                i < q,
                n > 0,
        ;
    } else {
        assert(i * n < height) by (nonlinear_arith)
            requires
                height == n * q + r,
                i <= q,
                0 < r,
                n > 0,
        ;
    }
}

/// The ranges of rows of each output file for a table of `height` rows:
/// chunk `i` starts at row `i * lines_per_file` and holds a full file of rows
/// or what is left of the table.
pub fn chunk_ranges(height: usize, lines_per_file: usize) -> (r: Vec<RowRange>)
    requires
        lines_per_file > 0,
    ensures
        r@.len() == files_needed(height as int, lines_per_file as int),
        forall|i: int|
            0 <= i < r@.len() ==> (#[trigger] r@[i]).offset == chunk_offset(i, lines_per_file as int)
                && r@[i].len == chunk_len(height as int, lines_per_file as int, i),
{
    let count = match number_of_output_files(height, lines_per_file) {
        Some(k) => k,
        None => 0,
    };
    let mut r: Vec<RowRange> = Vec::new();
    let mut i: usize = 0;
    while i < count
        invariant
            lines_per_file > 0,
            count == files_needed(height as int, lines_per_file as int),
            i <= count,
            r@.len() == i,
            forall|j: int|
                0 <= j < i ==> (#[trigger] r@[j]).offset == chunk_offset(j, lines_per_file as int)
                    && r@[j].len == chunk_len(height as int, lines_per_file as int, j),
        decreases count - i,
    {
        proof {
            lemma_chunk_inside(height as int, lines_per_file as int, i as int);
        }
        let offset = i * lines_per_file;
        let rest = height - offset;
        let len = if rest < lines_per_file {
            rest
        } else {
            lines_per_file
        };
        r.push(RowRange { offset, len });
        i = i + 1;
    }
    r
}

/// The chunks cut a table into consecutive, non-empty ranges of at most
/// `lines_per_file` rows that start at row 0 and end at the last row: every
/// row lands in exactly one output file.
pub proof fn lemma_chunks_partition(height: int, lines_per_file: int)
    requires
        height >= 0,
        lines_per_file > 0,
    ensures
        files_needed(height, lines_per_file) >= 0,
        files_needed(height, lines_per_file) == 0 <==> height == 0,
        forall|i: int|
            0 <= i < files_needed(height, lines_per_file) ==> 0 < #[trigger] chunk_len(
                height,
                lines_per_file,
                i,
            ) <= lines_per_file,
        forall|i: int|
            0 <= i < files_needed(height, lines_per_file) - 1 ==> chunk_offset(i, lines_per_file)
                + chunk_len(height, lines_per_file, i) == #[trigger] chunk_offset(
                i + 1,
                lines_per_file,
            ),
        forall|i: int|
            0 <= i < files_needed(height, lines_per_file) - 1 ==> #[trigger] chunk_len(
                height,
                lines_per_file,
                i,
            ) == lines_per_file,
        files_needed(height, lines_per_file) > 0 ==> chunk_offset(
            files_needed(height, lines_per_file) - 1,
            lines_per_file,
        ) + chunk_len(height, lines_per_file, files_needed(height, lines_per_file) - 1) == height,
{
    let n = lines_per_file;
    let k = files_needed(height, n);
    lemma_fundamental_div_mod(height, n);
    let q = height / n;
    let r = height % n;
    assert(q >= 0) by (nonlinear_arith)
        requires
            height >= 0,
            n > 0,
            height == n * q + r,
            0 <= r < n,
    ;
    assert forall|i: int| 0 <= i < k implies 0 < #[trigger] chunk_len(height, n, i) <= n by {
        lemma_chunk_inside(height, n, i);
    }
    assert forall|i: int| 0 <= i < k - 1 implies #[trigger] chunk_len(height, n, i) == n by {
        assert(i * n + n <= height) by (nonlinear_arith)
            requires
                height == n * q + r,
                0 <= r,
                i + 1 <= q,
                n > 0,
        ;
    }
    assert forall|i: int| 0 <= i < k - 1 implies chunk_offset(i, n) + chunk_len(height, n, i)
        == #[trigger] chunk_offset(i + 1, n) by {
        assert(i * n + n <= height) by (nonlinear_arith)
            requires
                height == n * q + r,
                0 <= r,
                i + 1 <= q,
                n > 0,
        ;
        assert((i + 1) * n == i * n + n) by (nonlinear_arith);
    }
    if k > 0 {
        if r == 0 {
            assert((q - 1) * n + n == height) by (nonlinear_arith)
                requires
                    height == n * q,
            ;
        } else {
            assert(height - q * n == r) by (nonlinear_arith)
                requires
                    height == n * q + r,
            ;
        }
    }
    if height == 0 {
        assert(q == 0 && r == 0) by (nonlinear_arith)
            requires
                0 == n * q + r,
                0 <= r < n,
                q >= 0,
        ;
    }
    if k == 0 {
        assert(height == 0) by (nonlinear_arith)
            requires
                height == n * q + r,
                q == 0,
                r == 0,
        ;
    }
}

/// The number of data rows of a CSV file of `lines` lines: all lines but
/// the header, none when the file has no line.
pub fn data_rows(lines: usize) -> (r: usize)
    ensures
        r == if lines == 0 {
            0
        } else {
            lines - 1
        },
{
    if lines == 0 {
        0
    } else {
        lines - 1
    }
}

/// How many rows the reader takes at a time: twenty output files' worth.
pub fn reader_chunk_size(lines_per_file: usize) -> (r: usize)
    requires
        lines_per_file * FILES_PER_READ <= usize::MAX,
    ensures
        r == lines_per_file * FILES_PER_READ,
{
    lines_per_file * FILES_PER_READ
}

/// Reading the input in windows of `FILES_PER_READ` files' worth of rows
/// needs no more and no fewer output files than the whole input: for
/// `full_reads` full windows followed by `rest` rows, the files needed per
/// window add up to the files needed for all rows.
pub proof fn lemma_reads_need_as_many_files(full_reads: nat, rest: nat, lines_per_file: int)
    requires
        lines_per_file > 0,
    ensures
        files_needed(full_reads * (lines_per_file * FILES_PER_READ) + rest, lines_per_file)
            == full_reads * files_needed(lines_per_file * FILES_PER_READ, lines_per_file)
            + files_needed(rest as int, lines_per_file),
        files_needed(lines_per_file * FILES_PER_READ, lines_per_file) == FILES_PER_READ,
{
    let n = lines_per_file;
    let w = n * FILES_PER_READ;
    lemma_fundamental_div_mod_converse(w, n, FILES_PER_READ as int, 0);
    lemma_fundamental_div_mod(rest as int, n);
    let q = rest as int / n;
    let r = rest as int % n;
    let x = full_reads * w + rest;
    assert(x == (full_reads * FILES_PER_READ + q) * n + r) by (nonlinear_arith)
        requires
            x == full_reads * w + rest,
            w == n * FILES_PER_READ,
            rest == n * q + r,
    ;
    lemma_fundamental_div_mod_converse(x, n, full_reads * FILES_PER_READ + q, r);
    assert(full_reads * files_needed(w, n) == full_reads * FILES_PER_READ);
}

} // verus!
