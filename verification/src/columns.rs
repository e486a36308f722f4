//! Arrow columns, batches and streams, as the tables use them.
//!
//! Everything here that calls into Arrow is trusted, not proved: each item
//! says what it takes the call to do.

use arrow_array::builder::{Int8Builder, ListBuilder};
use arrow_array::{
    make_array, Array, ArrayRef, BooleanArray, DurationNanosecondArray, FixedSizeListArray,
    Int64Array, Int8Array, RecordBatch, UInt32Array, UInt64Array, UInt8Array,
};
use arrow_ipc::writer::StreamWriter;
use arrow_schema::{ArrowError, DataType, Field, Schema, TimeUnit};
use std::collections::HashMap;
use std::sync::Arc;
use vstd::prelude::*;
use vstd::utf8::encode_utf8;

verus! {

#[verifier::external_type_specification]
#[verifier::external_body]
pub struct ExSchema(Schema);

#[verifier::external_type_specification]
#[verifier::external_body]
pub struct ExField(Field);

#[verifier::external_type_specification]
#[verifier::external_body]
pub struct ExArrowError(ArrowError);

/// What a column holds.
#[derive(Clone, Copy, Debug, PartialEq, Eq, Structural)]
pub enum Kind {
    UInt64,
    /// A duration in nanoseconds.
    Nanoseconds,
    Int64,
    Int8,
    UInt8,
    Boolean,
    /// A single-precision number.
    Float,
    /// A list of this many single-precision numbers, none of them null.
    Floats(i32),
    /// A list of bytes of any length, none of them null.
    Int8s,
    /// A type that no table here has.
    Other,
}

/// What a column holds in one row. A single-precision number stands as its
/// bits.
pub ghost enum Cell {
    Null,
    UInt64(u64),
    Nanoseconds(i64),
    Int64(i64),
    Int8(i8),
    UInt8(u8),
    Boolean(bool),
    Float(u32),
    Floats(Seq<u32>),
    Int8s(Seq<i8>),
}

/// A field of a schema: its name, what its column holds, and whether that can
/// be null.
pub type FieldParts = (Seq<char>, Kind, bool);

/// The parts [`Field::new`] makes a field from.
pub uninterp spec fn field_parts(f: Field) -> FieldParts;

/// Whether a field has no metadata of its own.
pub uninterp spec fn field_bare(f: Field) -> bool;

/// The fields of a schema, in order.
pub uninterp spec fn schema_fields(s: Schema) -> Seq<FieldParts>;

/// The metadata of a schema.
pub uninterp spec fn schema_metadata(s: Schema) -> Map<String, String>;

/// Whether no field of a schema has metadata of its own.
pub uninterp spec fn schema_bare(s: Schema) -> bool;

/// The metadata of a schema, key by key, as texts.
pub uninterp spec fn schema_entries(s: Schema) -> Seq<(Seq<char>, Seq<char>)>;

/// [`Field::new`] makes a field of the name, data type and nullability given,
/// with no metadata.
#[verifier::external_body]
pub(crate) fn field(name: String, kind: Kind, nullable: bool) -> (f: Field)
    requires
        kind !is Other,
    ensures
        field_parts(f) == (name@, kind, nullable),
        field_bare(f),
{
    let item = |data_type| Arc::new(Field::new("item", data_type, false));
    let data_type = match kind {
        Kind::UInt64 => DataType::UInt64,
        Kind::Nanoseconds => DataType::Duration(TimeUnit::Nanosecond),
        Kind::Int64 => DataType::Int64,
        Kind::Int8 => DataType::Int8,
        Kind::UInt8 => DataType::UInt8,
        Kind::Boolean => DataType::Boolean,
        Kind::Float => DataType::Float32,
        Kind::Floats(n) => DataType::FixedSizeList(item(DataType::Float32), n),
        Kind::Int8s => DataType::List(item(DataType::Int8)),
        Kind::Other => DataType::Null,
    };
    Field::new(name, data_type, nullable)
}

/// Whether these are the entries of a map, each once.
pub open spec fn lists(entries: Seq<(Seq<char>, Seq<char>)>, m: Map<String, String>) -> bool {
    &&& entries.len() == m.len()
    &&& forall|i: int|
        0 <= i < entries.len() ==> exists|k: String| #[trigger]
            m.contains_key(k) && (#[trigger] entries[i]) == (k@, m[k]@)
    &&& forall|k: String| #[trigger] m.contains_key(k) ==> entries.contains((k@, m[k]@))
}

/// [`Schema::new_with_metadata`] makes a schema of these fields, in this
/// order, with this metadata.
#[verifier::external_body]
pub(crate) fn schema(fields: Vec<Field>, metadata: HashMap<String, String>) -> (s: Arc<Schema>)
    ensures
        schema_fields(*s) == fields@.map_values(|f: Field| field_parts(f)),
        schema_bare(*s) == (forall|i: int|
            0 <= i < fields@.len() ==> field_bare(#[trigger] fields@[i])),
        schema_metadata(*s) == metadata@,
        lists(schema_entries(*s), metadata@),
{
    Arc::new(Schema::new_with_metadata(fields, metadata))
}

/// Two texts, as their characters.
pub open spec fn texts_of(entry: (&str, &str)) -> (Seq<char>, Seq<char>) {
    (entry.0@, entry.1@)
}

/// The names of the fields that [`Schema::fields`] gives.
#[verifier::external_body]
pub(crate) fn field_names(s: &Schema) -> (names: Vec<&str>)
    ensures
        names@.len() == schema_fields(*s).len(),
        forall|i: int|
            0 <= i < names@.len() ==> (#[trigger] names@[i])@ == schema_fields(*s)[i].0,
{
    s.fields().iter().map(|f| f.name().as_str()).collect()
}

/// The entries that [`Schema::metadata`] gives, in the order of their keys.
#[verifier::external_body]
pub(crate) fn entries(s: &Schema) -> (v: Vec<(&str, &str)>)
    ensures
        v@.map_values(|e: (&str, &str)| texts_of(e)) == schema_entries(*s),
{
    s.metadata().iter().map(|(k, v)| (k.as_str(), v.as_str())).collect()
}

/// How many fields a schema has.
pub(crate) fn field_count(s: &Schema) -> (n: usize)
    ensures
        n == schema_fields(*s).len(),
{
    field_names(s).len()
}

/// One Arrow array, made by one of the functions here, so that it is of one of
/// the kinds above.
#[verifier::external_body]
pub struct Column {
    array: ArrayRef,
}

/// What an array holds, row by row.
pub uninterp spec fn cells(c: Column) -> Seq<Cell>;

/// The data type of an array.
pub uninterp spec fn kind(c: Column) -> Kind;

/// The cells of a column of unsigned integers.
pub open spec fn uint64_cells(v: Seq<Option<u64>>) -> Seq<Cell> {
    v.map_values(
        |x: Option<u64>|
            match x {
                Some(x) => Cell::UInt64(x),
                None => Cell::Null,
            },
    )
}

/// `UInt64Array::from` makes an array of these values, null where there is
/// none.
#[verifier::external_body]
pub(crate) fn uint64_column(v: Vec<Option<u64>>) -> (c: Column)
    ensures
        kind(c) == Kind::UInt64,
        cells(c) == uint64_cells(v@),
{
    Column { array: Arc::new(UInt64Array::from(v)) }
}

/// The cells of a column of durations.
pub open spec fn nanoseconds_cells(v: Seq<Option<i64>>) -> Seq<Cell> {
    v.map_values(
        |x: Option<i64>|
            match x {
                Some(x) => Cell::Nanoseconds(x),
                None => Cell::Null,
            },
    )
}

/// `DurationNanosecondArray::from` makes an array of these values, null where there is
/// none.
#[verifier::external_body]
pub(crate) fn nanoseconds_column(v: Vec<Option<i64>>) -> (c: Column)
    ensures
        kind(c) == Kind::Nanoseconds,
        cells(c) == nanoseconds_cells(v@),
{
    Column { array: Arc::new(DurationNanosecondArray::from(v)) }
}

/// The cells of a column of integers.
pub open spec fn int64_cells(v: Seq<Option<i64>>) -> Seq<Cell> {
    v.map_values(
        |x: Option<i64>|
            match x {
                Some(x) => Cell::Int64(x),
                None => Cell::Null,
            },
    )
}

/// `Int64Array::from` makes an array of these values, null where there is
/// none.
#[verifier::external_body]
pub(crate) fn int64_column(v: Vec<Option<i64>>) -> (c: Column)
    ensures
        kind(c) == Kind::Int64,
        cells(c) == int64_cells(v@),
{
    Column { array: Arc::new(Int64Array::from(v)) }
}

/// The cells of a column of signed bytes.
pub open spec fn int8_cells(v: Seq<Option<i8>>) -> Seq<Cell> {
    v.map_values(
        |x: Option<i8>|
            match x {
                Some(x) => Cell::Int8(x),
                None => Cell::Null,
            },
    )
}

/// `Int8Array::from` makes an array of these values, null where there is
/// none.
#[verifier::external_body]
pub(crate) fn int8_column(v: Vec<Option<i8>>) -> (c: Column)
    ensures
        kind(c) == Kind::Int8,
        cells(c) == int8_cells(v@),
{
    Column { array: Arc::new(Int8Array::from(v)) }
}

/// The cells of a column of unsigned bytes.
pub open spec fn uint8_cells(v: Seq<Option<u8>>) -> Seq<Cell> {
    v.map_values(
        |x: Option<u8>|
            match x {
                Some(x) => Cell::UInt8(x),
                None => Cell::Null,
            },
    )
}

/// `UInt8Array::from` makes an array of these values, null where there is
/// none.
#[verifier::external_body]
pub(crate) fn uint8_column(v: Vec<Option<u8>>) -> (c: Column)
    ensures
        kind(c) == Kind::UInt8,
        cells(c) == uint8_cells(v@),
{
    Column { array: Arc::new(UInt8Array::from(v)) }
}

/// The cells of a column of truth values.
pub open spec fn boolean_cells(v: Seq<Option<bool>>) -> Seq<Cell> {
    v.map_values(
        |x: Option<bool>|
            match x {
                Some(x) => Cell::Boolean(x),
                None => Cell::Null,
            },
    )
}

/// `BooleanArray::from` makes an array of these values, null where there is
/// none.
#[verifier::external_body]
pub(crate) fn boolean_column(v: Vec<Option<bool>>) -> (c: Column)
    ensures
        kind(c) == Kind::Boolean,
        cells(c) == boolean_cells(v@),
{
    Column { array: Arc::new(BooleanArray::from(v)) }
}

/// The cells of a column of single-precision numbers, given by their bits.
pub open spec fn float_cells(v: Seq<Option<u32>>) -> Seq<Cell> {
    v.map_values(
        |x: Option<u32>|
            match x {
                Some(x) => Cell::Float(x),
                None => Cell::Null,
            },
    )
}

/// `UInt32Array::from` makes an array of 32-bit words, null where there is
/// none, and `ArrayDataBuilder::data_type` has the same words read as
/// single-precision numbers. `build` holds the words to the new type's layout,
/// which is that of the old one, so it succeeds.
#[verifier::external_body]
pub(crate) fn float_column(bits: Vec<Option<u32>>) -> (c: Column)
    ensures
        kind(c) == Kind::Float,
        cells(c) == float_cells(bits@),
{
    let words = UInt32Array::from(bits).into_data().into_builder();
    let floats = words.data_type(DataType::Float32).build();
    Column { array: make_array(floats.expect("words and floats are laid out alike")) }
}

/// Row `i` of a column of lists of `size` numbers, cut from `values`.
pub open spec fn floats_cell(values: Seq<Cell>, size: int, i: int) -> Cell {
    Cell::Floats(Seq::new(size as nat, |j: int| values[i * size + j]->Float_0))
}

/// [`FixedSizeListArray::new`] cuts an array into lists of `size`, null where
/// `valid` says so. It panics on an array of another length or type, and on a
/// null number in a list that is not null; that is left out. A null list is
/// held to null numbers, so that its row holds nothing.
#[verifier::external_body]
pub(crate) fn floats_column(values: Column, size: i32, valid: Vec<bool>) -> (c: Column)
    requires
        size > 0,
        kind(values) == Kind::Float,
        cells(values).len() == valid@.len() * size,
        forall|i: int, j: int|
            0 <= i < valid@.len() && 0 <= j < size ==> (valid@[i] <==> #[trigger] cells(values)[i
                * size + j] !is Null),
    ensures
        kind(c) == Kind::Floats(size),
        cells(c) == Seq::new(
            valid@.len(),
            |i: int|
                if valid@[i] {
                    floats_cell(cells(values), size as int, i)
                } else {
                    Cell::Null
                },
        ),
{
    let item = Arc::new(Field::new("item", DataType::Float32, false));
    let lists = FixedSizeListArray::new(item, size, values.array, Some(valid.into()));
    Column { array: Arc::new(lists) }
}

/// How many bytes these lists hold between them.
pub open spec fn bytes_in(lists: Seq<Option<Vec<i8>>>) -> nat
    decreases lists.len(),
{
    if lists.len() == 0 {
        0
    } else {
        bytes_in(lists.drop_last()) + match lists.last() {
            Some(l) => l@.len(),
            None => 0,
        }
    }
}

/// The cells of a column of lists of bytes.
pub open spec fn int8s_cells(lists: Seq<Option<Vec<i8>>>) -> Seq<Cell> {
    lists.map_values(
        |l: Option<Vec<i8>>|
            match l {
                Some(l) => Cell::Int8s(l@),
                None => Cell::Null,
            },
    )
}

/// `ListBuilder`, extended by these lists, builds an array of them, null
/// where there is none. Its offsets are 32 bits: it panics on more bytes than
/// they can tell apart; that is left out.
#[verifier::external_body]
pub(crate) fn int8s_column(lists: Vec<Option<Vec<i8>>>) -> (c: Column)
    requires
        bytes_in(lists@) <= i32::MAX,
    ensures
        kind(c) == Kind::Int8s,
        cells(c) == int8s_cells(lists@),
{
    let item = Field::new("item", DataType::Int8, false);
    let mut builder = ListBuilder::new(Int8Builder::new()).with_field(item);
    builder.extend(lists.into_iter().map(|l| l.map(|l| l.into_iter().map(Some))));
    Column { array: Arc::new(builder.finish()) }
}

/// Some rows of a table: columns of one length. It is made of [`Column`]s, so
/// that none of them has a dictionary.
#[verifier::external_body]
pub struct Batch {
    batch: RecordBatch,
}

/// What a batch holds, column by column.
pub uninterp spec fn batch_cells(b: Batch) -> Seq<Seq<Cell>>;

/// The fields of a batch's schema.
pub uninterp spec fn batch_fields(b: Batch) -> Seq<FieldParts>;

/// Whether columns of these kinds and contents are what a schema's fields
/// describe.
pub open spec fn fits(fields: Seq<FieldParts>, kinds: Seq<Kind>, columns: Seq<Seq<Cell>>) -> bool {
    &&& fields.len() == kinds.len() == columns.len()
    &&& columns.len() > 0
    &&& forall|c: int|
        0 <= c < columns.len() ==> fits_field(
            fields[c],
            kinds[c],
            #[trigger] columns[c],
            columns[0].len(),
        )
}

/// Whether a column is what a field describes, and has `rows` rows.
pub open spec fn fits_field(field: FieldParts, kind: Kind, column: Seq<Cell>, rows: nat) -> bool {
    &&& kind == field.1
    &&& column.len() == rows
    &&& !field.2 ==> !column.contains(Cell::Null)
}

/// [`RecordBatch::try_new`] makes a batch of these columns if they are what
/// the schema's fields describe, and fails if they are not.
#[verifier::external_body]
pub(crate) fn batch(schema: &Arc<Schema>, columns: Vec<Column>) -> (r: Result<Batch, ArrowError>)
    ensures
        r is Ok <==> fits(
            schema_fields(**schema),
            columns@.map_values(|c: Column| kind(c)),
            columns@.map_values(|c: Column| cells(c)),
        ),
        match r {
            Ok(b) => {
                &&& batch_cells(b) == columns@.map_values(|c: Column| cells(c))
                &&& batch_fields(b) == schema_fields(**schema)
            },
            Err(_) => true,
        },
{
    let arrays = columns.into_iter().map(|c| c.array).collect();
    RecordBatch::try_new(schema.clone(), arrays).map(|batch| Batch { batch })
}

/// An Arrow IPC stream being written, into memory. It is made by [`stream`], so
/// that nothing in it is compressed.
#[verifier::external_body]
pub struct Stream {
    writer: StreamWriter<Vec<u8>>,
}

/// The schema a stream starts with.
pub uninterp spec fn stream_schema(s: Stream) -> Schema;

/// The batches written to a stream, oldest first.
pub uninterp spec fn stream_batches(s: Stream) -> Seq<Seq<Seq<Cell>>>;

/// Whether the end of a stream has been written.
pub uninterp spec fn stream_ended(s: Stream) -> bool;

/// The bytes of a stream that have not been taken from it.
pub uninterp spec fn stream_bytes(s: Stream) -> Seq<u8>;

/// The bytes that have been taken from a stream.
pub uninterp spec fn stream_taken(s: Stream) -> Seq<u8>;

/// What a stream of this schema starts with: the schema and its metadata.
pub uninterp spec fn stream_start(s: Schema) -> Seq<u8>;

/// What a stream ends with: a continuation marker, and no length.
pub open spec fn end_of_stream() -> Seq<u8> {
    seq![255u8, 255, 255, 255, 0, 0, 0, 0]
}

/// Whether a schema has only the kinds of columns these tables do.
pub open spec fn known_kinds(fields: Seq<FieldParts>) -> bool {
    forall|i: int| 0 <= i < fields.len() ==> (#[trigger] fields[i]).1 !is Other
}

/// How many bytes the names of fields take up, with room for the rest of each.
pub open spec fn names_size(fields: Seq<FieldParts>) -> nat
    decreases fields.len(),
{
    if fields.len() == 0 {
        0
    } else {
        names_size(fields.drop_last()) + encode_utf8(fields.last().0).len() + 256
    }
}

/// How many bytes metadata takes up, with room for the rest of each entry.
pub open spec fn entries_size(entries: Seq<(Seq<char>, Seq<char>)>) -> nat
    decreases entries.len(),
{
    if entries.len() == 0 {
        0
    } else {
        let e = entries.last();
        entries_size(entries.drop_last()) + encode_utf8(e.0).len() + encode_utf8(e.1).len() + 64
    }
}

/// How many bytes a schema of known kinds takes up at most, written out.
pub open spec fn header_size(
    fields: Seq<FieldParts>,
    entries: Seq<(Seq<char>, Seq<char>)>,
) -> nat {
    1024 + names_size(fields) + entries_size(entries)
}

/// [`StreamWriter::try_new`] starts a stream by writing its schema, the same
/// bytes for the same schema. It refuses only dictionaries of dictionaries,
/// which are of no kind here, and writing to memory does not fail. The schema
/// is laid out in one buffer, and one of over two gigabytes panics; that is
/// left out.
#[verifier::external_body]
pub(crate) fn stream(schema: &Schema) -> (r: Result<Stream, ArrowError>)
    requires
        known_kinds(schema_fields(*schema)),
        schema_bare(*schema),
        header_size(schema_fields(*schema), schema_entries(*schema)) <= i32::MAX,
    ensures
        r is Ok,
        match r {
            Ok(s) => {
                &&& stream_schema(s) == *schema
                &&& stream_batches(s) == Seq::<Seq<Seq<Cell>>>::empty()
                &&& !stream_ended(s)
                &&& stream_bytes(s) == stream_start(*schema)
                &&& stream_taken(s) == Seq::<u8>::empty()
            },
            Err(_) => true,
        },
{
    StreamWriter::try_new(Vec::new(), schema).map(|writer| Stream { writer })
}

/// [`StreamWriter::write`] appends a batch to a stream that has not ended, and
/// to one that has it writes nothing. What else could fail is a dictionary,
/// which no column here has, compression, which is off, or the writer, which
/// is memory. It does not look whether the batch is of the stream's schema; one
/// that is not would be read as something else, and is left out. Which bytes
/// are appended is left unsaid: numbers are written in the machine's own byte
/// order.
#[verifier::external_body]
pub(crate) fn stream_write(s: &mut Stream, b: &Batch) -> (r: Result<(), ArrowError>)
    requires
        batch_fields(*b) == schema_fields(stream_schema(*old(s))),
    ensures
        r is Ok <==> !stream_ended(*old(s)),
        stream_schema(*final(s)) == stream_schema(*old(s)),
        stream_ended(*final(s)) == stream_ended(*old(s)),
        stream_taken(*final(s)) == stream_taken(*old(s)),
        match r {
            Ok(()) => {
                &&& stream_batches(*final(s)) == stream_batches(*old(s)).push(batch_cells(*b))
                &&& stream_bytes(*old(s)).is_prefix_of(stream_bytes(*final(s)))
                &&& stream_bytes(*old(s)).len() < stream_bytes(*final(s)).len()
            },
            Err(_) => {
                &&& stream_batches(*final(s)) == stream_batches(*old(s))
                &&& stream_bytes(*final(s)) == stream_bytes(*old(s))
            },
        },
{
    s.writer.write(&b.batch)
}

/// [`StreamWriter::finish`] writes the end of a stream that has not ended.
/// Writing to memory does not fail.
#[verifier::external_body]
pub(crate) fn stream_finish(s: &mut Stream) -> (r: Result<(), ArrowError>)
    ensures
        r is Ok <==> !stream_ended(*old(s)),
        stream_ended(*final(s)),
        stream_schema(*final(s)) == stream_schema(*old(s)),
        stream_batches(*final(s)) == stream_batches(*old(s)),
        stream_taken(*final(s)) == stream_taken(*old(s)),
        stream_bytes(*final(s)) == (if r is Ok {
            stream_bytes(*old(s)) + end_of_stream()
        } else {
            stream_bytes(*old(s))
        }),
{
    s.writer.finish()
}

/// Takes out what [`StreamWriter::get_mut`] gives: the bytes written since it
/// was last emptied.
#[verifier::external_body]
pub(crate) fn stream_take(s: &mut Stream) -> (bytes: Vec<u8>)
    ensures
        bytes@ == stream_bytes(*old(s)),
        stream_bytes(*final(s)) == Seq::<u8>::empty(),
        stream_taken(*final(s)) == stream_taken(*old(s)) + bytes@,
        stream_schema(*final(s)) == stream_schema(*old(s)),
        stream_batches(*final(s)) == stream_batches(*old(s)),
        stream_ended(*final(s)) == stream_ended(*old(s)),
{
    std::mem::take(s.writer.get_mut())
}

} // verus!
