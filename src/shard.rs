//! Turning one shard into the bytes of an Arrow IPC file.
//!
//! The caller reads each item's file and hands over what it got: `None` for a
//! file that could not be read. Such items are left out of the record batch.
use vstd::prelude::*;
use std::sync::Arc;
use arrow::array::{BinaryArray, StringArray};
use arrow::datatypes::{DataType, Field, Schema};
use arrow::ipc::writer::FileWriter;
use arrow::record_batch::RecordBatch;
use crate::item::Item;
use crate::naming::{shard_filename, shard_filename_spec};
use crate::partition::Shard;

verus! {

#[verifier::external_type_specification]
#[verifier::external_body]
pub struct ExArrowError(arrow::error::ArrowError);

/// Name of the binary column that holds the file contents.
pub const IMAGE_COLUMN: &'static str = "image";

/// Name of the string column that holds the labels.
pub const LABEL_COLUMN: &'static str = "label";

/// Largest total length of a column's values: Arrow's 32-bit offsets must hold it.
pub const MAX_COLUMN_BYTES: usize = 2147483647;

/// Bytes of the Arrow IPC file holding one record batch with a non-nullable
/// binary column and a non-nullable UTF-8 column of the given names and values.
/// The buffers are written in the machine's byte order, so the bytes are fixed
/// by the arguments for a given byte order.
pub uninterp spec fn arrow_ipc_file(
    image_column: Seq<char>,
    label_column: Seq<char>,
    images: Seq<Seq<u8>>,
    labels: Seq<Seq<char>>,
) -> Seq<u8>;

/// Why a shard's container could not be produced.
#[derive(PartialEq, Eq, Structural, Debug, Clone, Copy)]
pub enum ShardError {
    /// A column's values are too long for Arrow's 32-bit offsets.
    TooLarge,
    /// Arrow refused to build or write the record batch.
    Encode,
}

/// The two aligned columns of a record batch.
pub struct Columns {
    pub images: Vec<Vec<u8>>,
    pub labels: Vec<String>,
}

pub open spec fn byte_rows(s: Seq<Vec<u8>>) -> Seq<Seq<u8>> {
    s.map_values(|v: Vec<u8>| v@)
}

pub open spec fn char_rows(s: Seq<String>) -> Seq<Seq<char>> {
    s.map_values(|v: String| v@)
}

/// The rows that survive: for each item whose file was read, its bytes and label.
pub open spec fn surviving(items: Seq<Item>, reads: Seq<Option<Vec<u8>>>) -> Seq<(Seq<u8>, Seq<char>)>
    decreases items.len(),
{
    if items.len() == 0 || reads.len() == 0 {
        Seq::empty()
    } else {
        let rest = surviving(items.drop_last(), reads.drop_last());
        match reads.last() {
            Some(b) => rest.push((b@, items.last().label@)),
            None => rest,
        }
    }
}

/// The columns hold exactly the rows of `rows`, in order.
pub open spec fn holds_rows(c: Columns, rows: Seq<(Seq<u8>, Seq<char>)>) -> bool {
    &&& c.images@.len() == rows.len()
    &&& c.labels@.len() == rows.len()
    &&& forall|i: int| 0 <= i < rows.len() ==> {
        &&& (#[trigger] c.images@[i])@ == rows[i].0
        &&& c.labels@[i]@ == rows[i].1
    }
}

pub open spec fn row_images(rows: Seq<(Seq<u8>, Seq<char>)>) -> Seq<Seq<u8>> {
    rows.map_values(|r: (Seq<u8>, Seq<char>)| r.0)
}

pub open spec fn row_labels(rows: Seq<(Seq<u8>, Seq<char>)>) -> Seq<Seq<char>> {
    rows.map_values(|r: (Seq<u8>, Seq<char>)| r.1)
}

proof fn lemma_columns_of_rows(c: Columns, rows: Seq<(Seq<u8>, Seq<char>)>)
    requires
        holds_rows(c, rows),
    ensures
        byte_rows(c.images@) == row_images(rows),
        char_rows(c.labels@) == row_labels(rows),
{
    assert forall|i: int| 0 <= i < rows.len() implies #[trigger] c.labels@[i]@ == rows[i].1 by {
        assert(c.images@[i]@ == rows[i].0);
    }
    assert(byte_rows(c.images@) =~= row_images(rows));
    assert(char_rows(c.labels@) =~= row_labels(rows));
}

pub open spec fn total_bytes(s: Seq<Seq<u8>>) -> nat
    decreases s.len(),
{
    if s.len() == 0 { 0 } else { total_bytes(s.drop_last()) + s.last().len() }
}

pub open spec fn total_chars(s: Seq<Seq<char>>) -> nat
    decreases s.len(),
{
    if s.len() == 0 { 0 } else { total_chars(s.drop_last()) + s.last().len() }
}

/// Both columns fit Arrow's 32-bit offsets (a character takes at most 4 bytes in UTF-8).
pub open spec fn fits_offsets(images: Seq<Seq<u8>>, labels: Seq<Seq<char>>) -> bool {
    total_bytes(images) <= MAX_COLUMN_BYTES && 4 * total_chars(labels) <= MAX_COLUMN_BYTES
}

fn copy_bytes(v: &Vec<u8>) -> (r: Vec<u8>)
    ensures
        r@ == v@,
{
    let mut r: Vec<u8> = Vec::new();
    let mut i: usize = 0;
    while i < v.len()
        invariant
            i <= v@.len(),
            r@ == v@.subrange(0, i as int),
        decreases v@.len() - i,
    {
        r.push(v[i]);
        assert(v@.subrange(0, i + 1) =~= v@.subrange(0, i as int).push(v@[i as int]));
        i = i + 1;
    }
    assert(v@.subrange(0, v@.len() as int) =~= v@);
    r
}

/// The record batch columns of a shard: the bytes and label of each item whose
/// file was read (`reads[i]` is what reading `items[i]` gave), in item order.
pub fn assemble_columns(items: &Vec<Item>, reads: &Vec<Option<Vec<u8>>>) -> (r: Columns)
    requires
        items@.len() == reads@.len(),
    ensures
        holds_rows(r, surviving(items@, reads@)),
{
    let mut images: Vec<Vec<u8>> = Vec::new();
    let mut labels: Vec<String> = Vec::new();
    let mut i: usize = 0;
    while i < items.len()
        invariant
            items@.len() == reads@.len(),
            i <= items@.len(),
            holds_rows(Columns { images, labels },
                surviving(items@.subrange(0, i as int), reads@.subrange(0, i as int))),
        decreases items@.len() - i,
    {
        let ghost rows = surviving(items@.subrange(0, i as int), reads@.subrange(0, i as int));
        assert(items@.subrange(0, i + 1).drop_last() =~= items@.subrange(0, i as int));
        assert(reads@.subrange(0, i + 1).drop_last() =~= reads@.subrange(0, i as int));
        match &reads[i] {
            Some(bytes) => {
                images.push(copy_bytes(bytes));
                labels.push(items[i].label.clone());
            },
            None => {},
        }
        i = i + 1;
    }
    assert(items@.subrange(0, items@.len() as int) =~= items@);
    assert(reads@.subrange(0, reads@.len() as int) =~= reads@);
    Columns { images, labels }
}

/// Whether both columns fit Arrow's 32-bit offsets.
pub fn columns_fit(c: &Columns) -> (r: bool)
    ensures
        r == fits_offsets(byte_rows(c.images@), char_rows(c.labels@)),
{
    let mut sum: usize = 0;
    let mut i: usize = 0;
    while i < c.images.len()
        invariant
            i <= c.images@.len(),
            sum == total_bytes(byte_rows(c.images@.subrange(0, i as int))),
            sum <= MAX_COLUMN_BYTES,
        decreases c.images@.len() - i,
    {
        assert(byte_rows(c.images@.subrange(0, i + 1)).drop_last() =~= byte_rows(c.images@.subrange(0, i as int)));
        let n = c.images[i].len();
        if n > MAX_COLUMN_BYTES - sum {
            proof { lemma_bytes_grow(byte_rows(c.images@), i as nat + 1); }
            assert(byte_rows(c.images@.subrange(0, i + 1)) =~= byte_rows(c.images@).subrange(0, i + 1));
            return false;
        }
        sum = sum + n;
        i = i + 1;
    }
    assert(c.images@.subrange(0, c.images@.len() as int) =~= c.images@);
    let mut chars: usize = 0;
    let mut j: usize = 0;
    while j < c.labels.len()
        invariant
            j <= c.labels@.len(),
            chars == total_chars(char_rows(c.labels@.subrange(0, j as int))),
            4 * chars <= MAX_COLUMN_BYTES,
        decreases c.labels@.len() - j,
    {
        assert(char_rows(c.labels@.subrange(0, j + 1)).drop_last() =~= char_rows(c.labels@.subrange(0, j as int)));
        let n = c.labels[j].as_str().unicode_len();
        if n > (MAX_COLUMN_BYTES / 4) - chars {
            proof { lemma_chars_grow(char_rows(c.labels@), j as nat + 1); }
            assert(char_rows(c.labels@.subrange(0, j + 1)) =~= char_rows(c.labels@).subrange(0, j + 1));
            return false;
        }
        chars = chars + n;
        j = j + 1;
    }
    assert(c.labels@.subrange(0, c.labels@.len() as int) =~= c.labels@);
    true
}

proof fn lemma_bytes_grow(s: Seq<Seq<u8>>, k: nat)
    requires
        k <= s.len(),
    ensures
        total_bytes(s.subrange(0, k as int)) <= total_bytes(s),
    decreases s.len(),
{
    if k < s.len() {
        assert(s.drop_last().subrange(0, k as int) =~= s.subrange(0, k as int));
        lemma_bytes_grow(s.drop_last(), k);
    } else {
        assert(s.subrange(0, k as int) =~= s);
    }
}

proof fn lemma_chars_grow(s: Seq<Seq<char>>, k: nat)
    requires
        k <= s.len(),
    ensures
        total_chars(s.subrange(0, k as int)) <= total_chars(s),
    decreases s.len(),
{
    if k < s.len() {
        assert(s.drop_last().subrange(0, k as int) =~= s.subrange(0, k as int));
        lemma_chars_grow(s.drop_last(), k);
    } else {
        assert(s.subrange(0, k as int) =~= s);
    }
}

/// Relies on arrow's `BinaryArray::from`, `StringArray::from`,
/// `RecordBatch::try_new` and the IPC `FileWriter`: on success the bytes are the
/// IPC file of one batch with the two non-nullable columns. `from` panics when a
/// column's total length overflows its 32-bit offsets, which `requires` rules out.
/// Building the batch fails only on columns of unequal length (the field count,
/// types and nulls are right by construction), and writing into a `Vec` does not
/// fail.
#[verifier::external_body]
fn encode_ipc_file(image_column: &str, label_column: &str, c: &Columns) -> (r: Result<Vec<u8>, arrow::error::ArrowError>)
    requires
        fits_offsets(byte_rows(c.images@), char_rows(c.labels@)),
    ensures
        r matches Ok(b) ==> b@ == arrow_ipc_file(image_column@, label_column@,
            byte_rows(c.images@), char_rows(c.labels@)),
        c.images@.len() == c.labels@.len() ==> r is Ok,
{
    let schema = Arc::new(Schema::new(vec![Field::new(image_column, DataType::Binary, false),
        Field::new(label_column, DataType::Utf8, false)]));
    let images = BinaryArray::from(c.images.iter().map(|v| v.as_slice()).collect::<Vec<&[u8]>>());
    let labels = StringArray::from(c.labels.iter().map(|s| s.as_str()).collect::<Vec<&str>>());
    let batch = RecordBatch::try_new(schema.clone(), vec![Arc::new(images), Arc::new(labels)])?;
    let mut writer = FileWriter::try_new(Vec::new(), &schema)?;
    writer.write(&batch)?;
    writer.into_inner()
}

/// The Arrow IPC file of the given columns, under the column names `image` and `label`.
/// It is produced whenever the columns are aligned and fit Arrow's offsets.
pub fn encode_columns(c: &Columns) -> (r: Result<Vec<u8>, ShardError>)
    ensures
        !fits_offsets(byte_rows(c.images@), char_rows(c.labels@)) <==> r == Err::<Vec<u8>, ShardError>(ShardError::TooLarge),
        r == Err::<Vec<u8>, ShardError>(ShardError::Encode) ==> c.images@.len() != c.labels@.len(),
        c.images@.len() == c.labels@.len() && fits_offsets(byte_rows(c.images@), char_rows(c.labels@)) ==> r is Ok,
        r matches Ok(b) ==> b@ == arrow_ipc_file(IMAGE_COLUMN@, LABEL_COLUMN@,
            byte_rows(c.images@), char_rows(c.labels@)),
{
    if !columns_fit(c) {
        return Err(ShardError::TooLarge);
    }
    match encode_ipc_file(IMAGE_COLUMN, LABEL_COLUMN, c) {
        Ok(b) => Ok(b),
        Err(_) => Err(ShardError::Encode),
    }
}

/// A shard ready to be written: its file name and the bytes of its container.
pub struct ShardFile {
    pub filename: String,
    pub rows: usize,
    pub bytes: Vec<u8>,
}

/// Builds the container of `shard`, whose items' files read as `reads`, to be
/// stored under `data-{index:05}-of-{total:05}.{ext}`. Items whose file could not
/// be read are left out; the others keep their order. It fails only when the
/// surviving rows are too large for Arrow's 32-bit offsets.
pub fn build_shard_file(shard: &Shard, reads: &Vec<Option<Vec<u8>>>, ext: &str) -> (r: Result<ShardFile, ShardError>)
    requires
        shard.items@.len() == reads@.len(),
    ensures
        ({
            let rows = surviving(shard.items@, reads@);
            match r {
                Ok(f) => {
                    &&& fits_offsets(row_images(rows), row_labels(rows))
                    &&& f.filename@ == shard_filename_spec(shard.index as nat, shard.total_shards as nat, ext@)
                    &&& f.rows == rows.len()
                    &&& f.bytes@ == arrow_ipc_file(IMAGE_COLUMN@, LABEL_COLUMN@, row_images(rows), row_labels(rows))
                },
                Err(e) => e == ShardError::TooLarge && !fits_offsets(row_images(rows), row_labels(rows)),
            }
        }),
        fits_offsets(row_images(surviving(shard.items@, reads@)), row_labels(surviving(shard.items@, reads@)))
            <==> r is Ok,
{
    let columns = assemble_columns(&shard.items, reads);
    proof { lemma_columns_of_rows(columns, surviving(shard.items@, reads@)); }
    let rows = columns.images.len();
    let bytes = encode_columns(&columns)?;
    let filename = shard_filename(shard.index, shard.total_shards, ext);
    Ok(ShardFile { filename, rows, bytes })
}

} // verus!
