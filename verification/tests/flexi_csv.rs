use flexi_csv::args::{SliceCommand, TransformCommand, DEFAULT_DELIMITER};
use flexi_csv::output::{
    assign_output_file, check_input_file, delimiter_byte, output_file_name, output_file_path,
    to_decimal, FileIndexQueue, InputFileError,
};
use flexi_csv::reader::{ChunkOutcome, ChunkWindow, CsvChunkReader};
use flexi_csv::slicing::{chunk_ranges, data_rows, number_of_output_files, reader_chunk_size, RowRange};
use flexi_csv::table::{Column, Table, TableError, TransformError};
use flexi_csv::threads::threads_from_parallelism;
use flexi_csv::transform::{
    column_fits, transform_column, transformation_plan, TransformKind, Transformation, MAX_CASE_MAPPED_CHARS,
};

fn cells(values: &[Option<&str>]) -> Vec<Option<String>> {
    values.iter().map(|v| v.map(String::from)).collect()
}

fn names(values: &[&str]) -> Vec<String> {
    values.iter().map(|v| v.to_string()).collect()
}

fn column(name: &str, is_text: bool, values: &[Option<&str>]) -> Column {
    Column { name: name.to_string(), is_text, cells: cells(values) }
}

fn sample_table() -> Table {
    Table::new(vec![
        column("nome", true, &[Some("João"), None, Some("maria")]),
        column("cidade", true, &[Some("São Paulo"), Some("recife"), Some("Belém")]),
        column("idade", false, &[Some("31"), Some("40"), None]),
    ])
    .unwrap()
}

// --- transformations of a column -----------------------------------------

#[test]
fn uppercase_column_ascii_and_missing() {
    let out = transform_column(TransformKind::ToUppercase, &cells(&[Some("abc"), None, Some("a1-b")]));
    assert_eq!(out, cells(&[Some("ABC"), None, Some("A1-B")]));
}

#[test]
fn uppercase_column_non_ascii() {
    let out = transform_column(TransformKind::ToUppercase, &cells(&[Some("ação"), Some("straße")]));
    assert_eq!(out, cells(&[Some("AÇÃO"), Some("STRASSE")]));
}

#[test]
fn lowercase_column() {
    let out = transform_column(TransformKind::ToLowercase, &cells(&[Some("ABC Def"), None, Some("ÉCOLE")]));
    assert_eq!(out, cells(&[Some("abc def"), None, Some("école")]));
}

#[test]
fn lowercase_final_sigma() {
    let out = transform_column(TransformKind::ToLowercase, &cells(&[Some("ΟΔΟΣ")]));
    assert_eq!(out, cells(&[Some("οδος")]));
}

#[test]
fn normalized_column_removes_accents() {
    let out = transform_column(TransformKind::ToNormalized, &cells(&[Some("São João"), None, Some("Æneid")]));
    assert_eq!(out, cells(&[Some("Sao Joao"), None, Some("AEneid")]));
}

#[test]
fn normalized_column_is_idempotent() {
    let once = transform_column(TransformKind::ToNormalized, &cells(&[Some("Ação é útil"), Some("北亰")]));
    let twice = transform_column(TransformKind::ToNormalized, &once);
    assert_eq!(once, twice);
    assert!(once.iter().all(|c| c.as_ref().map_or(true, |s| s.is_ascii())));
}

#[test]
fn normalized_keeps_ascii() {
    let input = cells(&[Some("plain text 123"), None]);
    assert_eq!(transform_column(TransformKind::ToNormalized, &input), input);
}

#[test]
fn normalized_drops_delete_and_controls_outside_the_leading_run() {
    let input = cells(&[Some("a\u{7f}b"), Some("\u{7f}"), Some("x\u{1}y"), Some("é\u{1}")]);
    let out = transform_column(TransformKind::ToNormalized, &input);
    assert_eq!(out, cells(&[Some("ab"), Some(""), Some("x\u{1}y"), Some("e")]));
    assert_eq!(transform_column(TransformKind::ToNormalized, &out), out);
}

#[test]
fn column_size_limits() {
    assert!(column_fits(&cells(&[Some("abc"), None])));
    assert!(column_fits(&Vec::new()));
    assert_eq!(MAX_CASE_MAPPED_CHARS * 12 <= u32::MAX as usize, true);
    assert!(MAX_CASE_MAPPED_CHARS * 12 + 12 > u32::MAX as usize);
}

#[test]
fn titlecase_column() {
    let out = transform_column(TransformKind::ToTitlecase, &cells(&[Some("foo_bar"), Some("fooBar"), None]));
    assert_eq!(out, cells(&[Some("Foo Bar"), Some("Foo Bar"), None]));
}

#[test]
fn empty_column_stays_empty() {
    for kind in [
        TransformKind::ToUppercase,
        TransformKind::ToLowercase,
        TransformKind::ToNormalized,
        TransformKind::ToTitlecase,
    ] {
        assert!(transform_column(kind, &Vec::new()).is_empty());
    }
}

// --- transformation plans -------------------------------------------------

fn plan_summary(plan: &[Transformation]) -> Vec<(TransformKind, Vec<String>)> {
    plan.iter().map(|t| (t.kind, t.columns.clone())).collect()
}

#[test]
fn plan_holds_only_given_options_in_order() {
    let plan = transformation_plan(&Some(names(&["a", "b"])), &None, &Some(names(&["c"])), &None);
    assert_eq!(
        plan_summary(&plan),
        vec![
            (TransformKind::ToUppercase, names(&["a", "b"])),
            (TransformKind::ToNormalized, names(&["c"])),
        ]
    );
}

#[test]
fn plan_empty_without_options() {
    assert!(transformation_plan(&None, &None, &None, &None).is_empty());
}

#[test]
fn plan_from_transform_command() {
    let cmd = TransformCommand {
        input_file: "in.csv".to_string(),
        delimiter: DEFAULT_DELIMITER,
        num_threads: threads_from_parallelism(Some(4)),
        to_uppercase: None,
        to_lowercase: Some(names(&["x"])),
        to_normalized: None,
        to_titlecase: Some(names(&["y", "z"])),
    };
    assert_eq!(
        plan_summary(&cmd.transformations()),
        vec![
            (TransformKind::ToLowercase, names(&["x"])),
            (TransformKind::ToTitlecase, names(&["y", "z"])),
        ]
    );
}

#[test]
fn plan_from_slice_command() {
    let cmd = SliceCommand {
        input_file: "in.csv".to_string(),
        output_dir: "out".to_string(),
        num_lines_output_file: 10,
        delimiter: ';',
        num_threads: 2,
        to_uppercase: Some(names(&["a"])),
        to_lowercase: Some(names(&["b"])),
        to_normalized: Some(names(&[])),
        to_titlecase: None,
    };
    assert_eq!(
        plan_summary(&cmd.transformations()),
        vec![
            (TransformKind::ToUppercase, names(&["a"])),
            (TransformKind::ToLowercase, names(&["b"])),
            (TransformKind::ToNormalized, names(&[])),
        ]
    );
}

#[test]
fn defaults() {
    assert_eq!(DEFAULT_DELIMITER, ';');
}

// --- tables ----------------------------------------------------------------

#[test]
fn table_rejects_duplicate_names() {
    let r = Table::new(vec![column("a", true, &[None]), column("b", true, &[None]), column("a", true, &[None])]);
    match r {
        Err(TableError::DuplicateColumn(n)) => assert_eq!(n, "a"),
        other => panic!("unexpected {:?}", other),
    }
}

#[test]
fn table_rejects_ragged_columns() {
    let r = Table::new(vec![column("a", true, &[None, None]), column("b", true, &[None])]);
    assert!(matches!(r, Err(TableError::RaggedColumns)));
}

#[test]
fn table_duplicate_checked_before_height() {
    let r = Table::new(vec![column("a", true, &[None, None]), column("a", true, &[None])]);
    assert!(matches!(r, Err(TableError::DuplicateColumn(_))));
}

#[test]
fn table_accessors() {
    let t = sample_table();
    assert_eq!(t.height(), 3);
    assert_eq!(t.columns().len(), 3);
    assert_eq!(Table::new(Vec::new()).unwrap().height(), 0);
}

#[test]
fn apply_plan_transforms_named_columns_only() {
    let plan = transformation_plan(&Some(names(&["nome"])), &None, &Some(names(&["cidade"])), &None);
    let t = sample_table().apply_transformations(&plan).unwrap();
    let cols = t.into_columns();
    assert_eq!(cols[0].cells, cells(&[Some("JOÃO"), None, Some("MARIA")]));
    assert_eq!(cols[1].cells, cells(&[Some("Sao Paulo"), Some("recife"), Some("Belem")]));
    assert_eq!(cols[2].cells, cells(&[Some("31"), Some("40"), None]));
    assert_eq!(cols[0].name, "nome");
    assert!(!cols[2].is_text);
}

#[test]
fn apply_single_steps() {
    let t = sample_table().apply_step(TransformKind::ToLowercase, &"cidade".to_string()).unwrap();
    let cols = t.into_columns();
    assert_eq!(cols[1].cells, cells(&[Some("são paulo"), Some("recife"), Some("belém")]));
    assert_eq!(cols[0].cells, cells(&[Some("João"), None, Some("maria")]));
    assert!(matches!(
        sample_table().apply_step(TransformKind::ToTitlecase, &"pais".to_string()),
        Err(TransformError::ColumnNotFound(_))
    ));
    assert!(matches!(
        sample_table().apply_step(TransformKind::ToNormalized, &"idade".to_string()),
        Err(TransformError::NotText(_))
    ));
}

#[test]
fn apply_plan_in_order() {
    // upper-case first, then lower-case: the column ends up lower-case.
    let plan = transformation_plan(&Some(names(&["nome"])), &Some(names(&["nome"])), &None, &None);
    let cols = sample_table().apply_transformations(&plan).unwrap().into_columns();
    assert_eq!(cols[0].cells, cells(&[Some("joão"), None, Some("maria")]));
}

#[test]
fn apply_empty_plan_keeps_table() {
    let cols = sample_table().apply_transformations(&Vec::new()).unwrap().into_columns();
    let before = sample_table().into_columns();
    for (a, b) in cols.iter().zip(before.iter()) {
        assert_eq!(a.name, b.name);
        assert_eq!(a.cells, b.cells);
    }
}

#[test]
fn apply_plan_missing_column() {
    let plan = transformation_plan(&Some(names(&["nome", "pais"])), &None, &None, &None);
    match sample_table().apply_transformations(&plan) {
        Err(TransformError::ColumnNotFound(n)) => assert_eq!(n, "pais"),
        other => panic!("unexpected {:?}", other),
    }
}

#[test]
fn apply_plan_not_text_column() {
    let plan = transformation_plan(&None, &Some(names(&["idade"])), &None, &None);
    match sample_table().apply_transformations(&plan) {
        Err(TransformError::NotText(n)) => assert_eq!(n, "idade"),
        other => panic!("unexpected {:?}", other),
    }
}

#[test]
fn apply_plan_first_error_wins() {
    let plan = transformation_plan(&Some(names(&["idade"])), &Some(names(&["pais"])), &None, &None);
    assert!(matches!(sample_table().apply_transformations(&plan), Err(TransformError::NotText(_))));
}

// --- slicing -----------------------------------------------------------------

#[test]
fn output_file_count() {
    assert_eq!(number_of_output_files(10, 3), Some(4));
    assert_eq!(number_of_output_files(9, 3), Some(3));
    assert_eq!(number_of_output_files(0, 3), Some(0));
    assert_eq!(number_of_output_files(1, 100), Some(1));
    assert_eq!(number_of_output_files(5, 0), None);
    assert_eq!(number_of_output_files(usize::MAX, 1), Some(usize::MAX));
    assert_eq!(number_of_output_files(usize::MAX, 2), Some(usize::MAX / 2 + 1));
}

#[test]
fn chunks_of_ten_rows_by_three() {
    assert_eq!(
        chunk_ranges(10, 3),
        vec![
            RowRange { offset: 0, len: 3 },
            RowRange { offset: 3, len: 3 },
            RowRange { offset: 6, len: 3 },
            RowRange { offset: 9, len: 1 },
        ]
    );
}

#[test]
fn chunks_exact_and_empty() {
    assert_eq!(chunk_ranges(4, 2), vec![RowRange { offset: 0, len: 2 }, RowRange { offset: 2, len: 2 }]);
    assert!(chunk_ranges(0, 5).is_empty());
    assert_eq!(chunk_ranges(3, 5), vec![RowRange { offset: 0, len: 3 }]);
}

#[test]
fn chunks_cover_every_row_once() {
    let ranges = chunk_ranges(1001, 7);
    let mut next = 0;
    for r in &ranges {
        assert_eq!(r.offset, next);
        assert!(r.len > 0 && r.len <= 7);
        next += r.len;
    }
    assert_eq!(next, 1001);
    assert_eq!(ranges.len(), 143);
}

#[test]
fn data_rows_leave_out_the_header() {
    assert_eq!(data_rows(0), 0);
    assert_eq!(data_rows(1), 0);
    assert_eq!(data_rows(11), 10);
}

#[test]
fn reader_reads_twenty_files_worth() {
    assert_eq!(reader_chunk_size(5), 100);
    assert_eq!(reader_chunk_size(0), 0);
}

// --- output files -------------------------------------------------------------

#[test]
fn decimal_numbers() {
    assert_eq!(to_decimal(0), "0");
    assert_eq!(to_decimal(7), "7");
    assert_eq!(to_decimal(10), "10");
    assert_eq!(to_decimal(1234), "1234");
    assert_eq!(to_decimal(usize::MAX), usize::MAX.to_string());
}

#[test]
fn output_names() {
    assert_eq!(output_file_name("out", "data", 12), "out/data-12.csv");
    assert_eq!(output_file_path("out", "/tmp/in/data.csv", 3), "out/data-3.csv");
    assert_eq!(output_file_path("out", "archive.tar.gz", 1), "out/archive.tar-1.csv");
    assert_eq!(output_file_path("o", ".hidden", 2), "o/.hidden-2.csv");
    assert_eq!(output_file_path("o", "noext", 5), "o/noext-5.csv");
    assert_eq!(output_file_path("o", "", 5), "o/-5.csv");
}

#[test]
fn file_numbers_are_handed_out_once_in_order() {
    let mut q = FileIndexQueue::new(3);
    assert_eq!(q.remaining(), 3);
    assert_eq!(q.take_first(), Some(1));
    assert_eq!(q.take_first(), Some(2));
    assert_eq!(q.take_first(), Some(3));
    assert_eq!(q.take_first(), None);
    assert_eq!(q.remaining(), 0);
}

#[test]
fn assign_output_files() {
    let mut q = FileIndexQueue::new(2);
    assert_eq!(assign_output_file(&mut q, "out", "dir/vendas.csv"), Some("out/vendas-1.csv".to_string()));
    assert_eq!(assign_output_file(&mut q, "out", "dir/vendas.csv"), Some("out/vendas-2.csv".to_string()));
    assert_eq!(assign_output_file(&mut q, "out", "dir/vendas.csv"), None);
}

#[test]
fn delimiter_bytes() {
    assert_eq!(delimiter_byte(';'), b';');
    assert_eq!(delimiter_byte(','), b',');
    assert_eq!(delimiter_byte('\t'), b'\t');
    assert_eq!(delimiter_byte('ā'), 0x01);
}

#[test]
fn input_file_checks() {
    assert_eq!(check_input_file(false, 0), Err(InputFileError::Missing));
    assert_eq!(check_input_file(false, 10), Err(InputFileError::Missing));
    assert_eq!(check_input_file(true, 0), Err(InputFileError::Empty));
    assert_eq!(check_input_file(true, 1), Ok(()));
    assert_eq!(
        InputFileError::Missing.message(),
        "O arquivo não existe, por gentileza informe um arquivo valido."
    );
    assert_eq!(
        InputFileError::Empty.message(),
        "O arquivo está vazio, por gentileza informe um arquivo valido."
    );
}

// --- chunked reader ---------------------------------------------------------------

#[test]
fn reader_windows_are_consecutive() {
    let mut r = CsvChunkReader::new("in.csv".to_string(), 100);
    assert_eq!(r.file_path(), "in.csv");
    assert!(r.can_advance());
    assert_eq!(r.next_chunk(), ChunkWindow { skip_rows: 0, n_rows: 100 });
    assert_eq!(r.next_chunk(), ChunkWindow { skip_rows: 100, n_rows: 100 });
    assert_eq!(r.next_chunk(), ChunkWindow { skip_rows: 200, n_rows: 100 });
}

#[test]
fn reader_stops_on_empty_or_failed_read() {
    assert!(CsvChunkReader::yields(ChunkOutcome::Rows(5)));
    assert!(!CsvChunkReader::yields(ChunkOutcome::Rows(0)));
    assert!(!CsvChunkReader::yields(ChunkOutcome::Failed));
}

#[test]
fn reader_cannot_advance_past_the_limit() {
    let mut r = CsvChunkReader::new("x".to_string(), usize::MAX);
    assert!(r.can_advance());
    r.next_chunk();
    assert!(!r.can_advance());
}

// --- threads ------------------------------------------------------------------------

#[test]
fn thread_count() {
    assert_eq!(threads_from_parallelism(Some(8)), 8);
    assert_eq!(threads_from_parallelism(None), 1);
    assert_eq!(threads_from_parallelism(Some(0)), 1);
}
