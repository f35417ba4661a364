//! Record batches: a chunk of rows as the columns of an export.

use crate::error::Error;
use crate::storage::compaction::ColdRow;
use crate::storage::parquet_exporter::arrow_schema;
use vstd::prelude::*;
use vstd::utf8::*;

verus! {

/// The rows of a chunk: a record batch of `arrow`.
#[verifier::external_body]
pub struct RowBatch {
    /// The record batch.
    pub batch: arrow::record_batch::RecordBatch,
}

/// The columns of a record batch under construction: builders of `arrow` for
/// timestamps, texts and doubles.
#[verifier::external_body]
pub struct ColumnBuilders {
    ts: arrow::array::TimestampMicrosecondBuilder,
    names: arrow::array::StringBuilder,
    values: arrow::array::Float64Builder,
    kinds: arrow::array::StringBuilder,
    labels: arrow::array::StringBuilder,
}

/// A row of a record batch, its sample as the bit pattern of a double.
pub ghost struct CellRow {
    pub ts: i64,
    pub name: Seq<char>,
    pub value: u64,
    pub kind: Seq<char>,
    pub labels: Seq<char>,
}

/// The bit pattern of the double that a number is read as, which need not be
/// the number itself.
pub uninterp spec fn double_bits(n: serde_json::Number) -> u64;

/// A row as the cells of a record batch.
pub open spec fn cells(row: crate::storage::compaction::RowModel) -> CellRow {
    CellRow {
        ts: row.ts,
        name: row.name,
        value: double_bits(row.value),
        kind: row.kind,
        labels: row.labels,
    }
}

/// Rows as the cells of a record batch.
pub open spec fn cell_rows(rows: Seq<ColdRow>) -> Seq<CellRow> {
    rows.map_values(|r: ColdRow| cells(r@))
}

/// The rows appended to column builders, in order.
pub uninterp spec fn buffered(b: ColumnBuilders) -> Seq<CellRow>;

/// The rows of a record batch, in order.
pub uninterp spec fn batch_rows(b: RowBatch) -> Seq<CellRow>;

/// A column of texts.
pub ghost enum TextColumn {
    Name,
    Kind,
    Labels,
}

/// The text of a row in a column.
pub open spec fn column_text(row: CellRow, column: TextColumn) -> Seq<char> {
    match column {
        TextColumn::Name => row.name,
        TextColumn::Kind => row.kind,
        TextColumn::Labels => row.labels,
    }
}

/// The bytes of all texts in a column.
pub open spec fn column_bytes(rows: Seq<CellRow>, column: TextColumn) -> nat
    decreases rows.len(),
{
    if rows.len() == 0 {
        0
    } else {
        column_bytes(rows.drop_last(), column) + encode_utf8(
            column_text(rows.last(), column),
        ).len()
    }
}

/// Whether rows fit into one batch: no column of texts exceeds what a signed
/// 32-bit offset reaches.
pub open spec fn fits(rows: Seq<CellRow>) -> bool {
    forall|column: TextColumn| #[trigger] column_bytes(rows, column) <= i32::MAX
}

/// `arrow::array::TimestampMicrosecondBuilder::new`, `StringBuilder::new` and
/// `Float64Builder::new`: columns without rows.
#[verifier::external_body]
fn new_columns() -> (r: ColumnBuilders)
    ensures
        buffered(r).len() == 0,
{
    ColumnBuilders {
        ts: arrow::array::TimestampMicrosecondBuilder::new(),
        names: arrow::array::StringBuilder::new(),
        values: arrow::array::Float64Builder::new(),
        kinds: arrow::array::StringBuilder::new(),
        labels: arrow::array::StringBuilder::new(),
    }
}

/// `append_value` of the five builders: appends one row, its sample as the
/// double that `serde_json::Number::as_f64` reads it as. The call panics where
/// the texts of a column outgrow its offsets.
#[verifier::external_body]
fn append_row(b: &mut ColumnBuilders, row: ColdRow)
    requires
        fits(buffered(*old(b)).push(cells(row@))),
    ensures
        buffered(*final(b)) == buffered(*old(b)).push(
            (CellRow {
                ts: row.ts,
                name: row.name@,
                value: double_bits(row.value),
                kind: row.kind@,
                labels: row.labels@,
            }),
        ),
{
    b.ts.append_value(row.ts);
    b.names.append_value(row.name);
    b.values.append_value(row.value.as_f64().unwrap_or_default());
    b.kinds.append_value(row.kind);
    b.labels.append_value(row.labels);
}

/// `arrow::record_batch::RecordBatch::try_new` on the finished builders: the
/// batch of the rows appended. It is there for a schema with the columns of
/// every export, since the columns then agree in type and length and miss no
/// value.
#[verifier::external_body]
fn finish_batch(b: ColumnBuilders, schema: std::sync::Arc<arrow::datatypes::Schema>) -> (r: Result<
    RowBatch,
    String,
>)
    ensures
        crate::storage::parquet_exporter::schema_columns(*schema)
            == crate::storage::parquet_exporter::export_columns() ==> r is Ok,
        r matches Ok(batch) ==> batch_rows(batch) == buffered(b),
{
    let mut b = b;
    let columns: Vec<arrow::array::ArrayRef> = vec![
        std::sync::Arc::new(b.ts.finish()),
        std::sync::Arc::new(b.names.finish()),
        std::sync::Arc::new(b.values.finish()),
        std::sync::Arc::new(b.kinds.finish()),
        std::sync::Arc::new(b.labels.finish()),
    ];
    match arrow::record_batch::RecordBatch::try_new(schema, columns) {
        Ok(batch) => Ok(RowBatch { batch }),
        Err(e) => Err(e.to_string()),
    }
}

proof fn lemma_column_grows(rows: Seq<CellRow>, n: int, column: TextColumn)
    requires
        0 <= n <= rows.len(),
    ensures
        column_bytes(rows.take(n), column) <= column_bytes(rows, column),
    decreases rows.len() - n,
{
    if n < rows.len() {
        lemma_column_grows(rows, n + 1, column);
        assert(rows.take(n + 1).drop_last() =~= rows.take(n));
    } else {
        assert(rows.take(n) =~= rows);
    }
}

proof fn lemma_prefix_fits(rows: Seq<CellRow>, n: int)
    requires
        0 <= n <= rows.len(),
        fits(rows),
    ensures
        fits(rows.take(n)),
{
    assert forall|column: TextColumn| #[trigger]
        column_bytes(rows.take(n), column) <= i32::MAX by {
        lemma_column_grows(rows, n, column);
        assert(column_bytes(rows, column) <= i32::MAX);
    }
}

/// Whether [`record_batch`] can be asked for these rows.
#[must_use]
pub fn fits_batch(rows: &Vec<ColdRow>) -> (r: bool)
    ensures
        r == fits(cell_rows(rows@)),
{
    let ghost views = cell_rows(rows@);
    let limit: u128 = i32::MAX as u128;
    let mut names: u128 = 0;
    let mut kinds: u128 = 0;
    let mut labels: u128 = 0;
    let mut i: usize = 0;
    while i < rows.len()
        invariant
            i <= rows@.len(),
            limit == i32::MAX,
            views == cell_rows(rows@),
            names == column_bytes(views.take(i as int), TextColumn::Name),
            kinds == column_bytes(views.take(i as int), TextColumn::Kind),
            labels == column_bytes(views.take(i as int), TextColumn::Labels),
            names <= limit,
            kinds <= limit,
            labels <= limit,
        decreases rows@.len() - i,
    {
        assert(views.take(i + 1).drop_last() =~= views.take(i as int));
        assert(views.take(i + 1).last() == cells(rows@[i as int]@));
        names = names + rows[i].name.as_str().as_bytes().len() as u128;
        kinds = kinds + rows[i].kind.as_str().as_bytes().len() as u128;
        labels = labels + rows[i].labels.as_str().as_bytes().len() as u128;
        i = i + 1;
        if names > limit || kinds > limit || labels > limit {
            proof {
                lemma_column_grows(views, i as int, TextColumn::Name);
                lemma_column_grows(views, i as int, TextColumn::Kind);
                lemma_column_grows(views, i as int, TextColumn::Labels);
                if fits(views) {
                    assert(column_bytes(views, TextColumn::Name) <= i32::MAX);
                    assert(column_bytes(views, TextColumn::Kind) <= i32::MAX);
                    assert(column_bytes(views, TextColumn::Labels) <= i32::MAX);
                }
            }
            return false;
        }
    }
    proof {
        assert(views.take(i as int) =~= views);
        assert forall|column: TextColumn| #[trigger] column_bytes(views, column) <= i32::MAX by {
            match column {
                TextColumn::Name => {},
                TextColumn::Kind => {},
                TextColumn::Labels => {},
            }
        }
    }
    true
}

/// Builds the record batch of a chunk of rows: each row in its place, with its
/// sample as a double.
pub fn record_batch(rows: Vec<ColdRow>) -> (r: Result<RowBatch, Error>)
    requires
        fits(cell_rows(rows@)),
    ensures
        r matches Ok(batch) && batch_rows(batch) == cell_rows(rows@),
{
    let ghost views = cell_rows(rows@);
    let mut columns = new_columns();
    assert(buffered(columns) =~= views.take(0));
    for row in it: rows
        invariant
            it.seq() == rows@,
            views == cell_rows(rows@),
            fits(views),
            buffered(columns) == views.take(it.index() as int),
    {
        proof {
            let i = it.index() as int;
            lemma_prefix_fits(views, i + 1);
            assert(views.take(i + 1) =~= views.take(i).push(cells(row@)));
        }
        append_row(&mut columns, row);
    }
    assert(views.take(views.len() as int) =~= views);
    match finish_batch(columns, arrow_schema()) {
        Ok(batch) => Ok(batch),
        Err(text) => {
            let mut m = "arrow batch: ".to_owned();
            m.append(text.as_str());
            Err(Error::Storage(m))
        },
    }
}

proof fn lemma_column_bytes_is_standard(
    rows: Seq<CellRow>,
    column: TextColumn,
    width: spec_fn(CellRow) -> int,
    plus: spec_fn(int, int) -> int,
)
    requires
        forall|row: CellRow| #[trigger]
            width(row) == encode_utf8(column_text(row, column)).len(),
        forall|a: int, b: int| #[trigger] plus(a, b) == a + b,
    ensures
        column_bytes(rows, column) == rows.map_values(width).fold_left(0int, plus),
    decreases rows.len(),
{
    if rows.len() > 0 {
        lemma_column_bytes_is_standard(rows.drop_last(), column, width, plus);
        assert(rows.map_values(width).drop_last() =~= rows.drop_last().map_values(width));
        assert(rows.map_values(width).last() == width(rows.last()));
    }
}

/// Rows fit into one batch exactly when no column of texts takes more than two
/// to the 31 bytes, less one.
pub proof fn law_batches_hold_two_gigabytes_per_column(rows: Seq<CellRow>)
    ensures
        fits(rows) <==> {
            let plus = |a: int, b: int| a + b;
            &&& rows.map_values(|r: CellRow| encode_utf8(r.name).len() as int).fold_left(
                0int,
                plus,
            ) <= 0x7fff_ffff
            &&& rows.map_values(|r: CellRow| encode_utf8(r.kind).len() as int).fold_left(
                0int,
                plus,
            ) <= 0x7fff_ffff
            &&& rows.map_values(|r: CellRow| encode_utf8(r.labels).len() as int).fold_left(
                0int,
                plus,
            ) <= 0x7fff_ffff
        },
{
    let plus = |a: int, b: int| a + b;
    let names = |r: CellRow| encode_utf8(r.name).len() as int;
    let kinds = |r: CellRow| encode_utf8(r.kind).len() as int;
    let labels = |r: CellRow| encode_utf8(r.labels).len() as int;
    lemma_column_bytes_is_standard(rows, TextColumn::Name, names, plus);
    lemma_column_bytes_is_standard(rows, TextColumn::Kind, kinds, plus);
    lemma_column_bytes_is_standard(rows, TextColumn::Labels, labels, plus);
    if fits(rows) {
        assert(column_bytes(rows, TextColumn::Name) <= i32::MAX);
        assert(column_bytes(rows, TextColumn::Kind) <= i32::MAX);
        assert(column_bytes(rows, TextColumn::Labels) <= i32::MAX);
    } else {
        let column = choose|column: TextColumn| #[trigger]
            column_bytes(rows, column) > i32::MAX;
        match column {
            TextColumn::Name => {},
            TextColumn::Kind => {},
            TextColumn::Labels => {},
        }
    }
}

/// A row goes into a batch with all its columns, its sample as a double.
pub proof fn law_rows_go_in_whole(rows: Seq<ColdRow>, i: int)
    requires
        0 <= i < rows.len(),
    ensures
        cell_rows(rows).len() == rows.len(),
        cell_rows(rows)[i].ts == rows[i].ts,
        cell_rows(rows)[i].name == rows[i].name@,
        cell_rows(rows)[i].value == double_bits(rows[i].value),
        cell_rows(rows)[i].kind == rows[i].kind@,
        cell_rows(rows)[i].labels == rows[i].labels@,
{
}

} // verus!
