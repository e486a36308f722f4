//! The tables a recording writes, as Arrow IPC streams.
//!
//! The stream format has no footer, so a file cut short by a crash is still
//! readable up to its last complete batch. Batches are written about once a
//! second, which bounds what a crash can lose.

use crate::columns::{
    end_of_stream, entries, entries_size, field, field_bare, field_count, field_names, field_parts,
    fits, header_size, known_kinds, lists, names_size, schema, schema_bare, schema_entries,
    schema_fields, schema_metadata, stream, stream_batches, stream_bytes, stream_ended,
    stream_finish, stream_schema, stream_start, stream_take, stream_taken, stream_write, texts_of,
    Cell, FieldParts, Kind, Stream,
};
use crate::record::{
    all_tagged, batched, columns_of, kinds_of, tag_kind, ActRow, BatchError, Batched, FrameRow,
    ObsRow, Row, POSE_LEN,
};
use crate::text::{decimal_digits, lemma_decimal_length, numbered};
use arrow_schema::{ArrowError, Field, Schema};
use std::collections::HashMap;
use std::sync::Arc;
use vstd::prelude::*;
use vstd::utf8::encode_utf8;

verus! {

/// The schema of one of the tables: its columns are all of kinds the tables
/// have, and what is said of them is said in the schema's own metadata.
pub struct TableSchema {
    schema: Arc<Schema>,
}

impl TableSchema {
    #[verifier::type_invariant]
    spec fn plain(self) -> bool {
        known_kinds(schema_fields(*self.schema)) && schema_bare(*self.schema)
    }

    pub closed spec fn schema(&self) -> Schema {
        *self.schema
    }

    /// Its fields, in order.
    pub open spec fn fields(&self) -> Seq<FieldParts> {
        schema_fields(self.schema())
    }

    pub open spec fn metadata(&self) -> Map<String, String> {
        schema_metadata(self.schema())
    }

    /// Its metadata, key by key, as texts.
    pub open spec fn entries(&self) -> Seq<(Seq<char>, Seq<char>)> {
        schema_entries(self.schema())
    }

    /// Whether the schema can be written out: what it takes up can be counted.
    pub open spec fn writable(&self) -> bool {
        header_size(self.fields(), self.entries()) <= i32::MAX
    }

    /// The schema itself.
    pub fn arrow(&self) -> (s: &Arc<Schema>)
        ensures
            **s == self.schema(),
    {
        &self.schema
    }

    /// Whether the schema can be written out.
    pub fn can_write(&self) -> (b: bool)
        ensures
            b == self.writable(),
    {
        let mut left: usize = i32::MAX as usize - 1024;
        let names: Vec<&str> = field_names(&self.schema);
        let ghost fields = self.fields();
        let mut i: usize = 0;
        assert(fields.take(0) =~= Seq::<FieldParts>::empty());
        while i < names.len()
            invariant
                i <= names@.len(),
                names@.len() == fields.len(),
                fields == self.fields(),
                forall|j: int| 0 <= j < names@.len() ==> (#[trigger] names@[j])@ == fields[j].0,
                left == i32::MAX - 1024 - names_size(fields.take(i as int)),
            decreases names@.len() - i,
        {
            proof {
                lemma_names_grow(fields, i + 1);
                assert(fields.take(i + 1).drop_last() =~= fields.take(i as int));
            }
            let n: usize = names[i].as_bytes().len();
            if left < 256 || n > left - 256 {
                return false;
            }
            left = left - 256 - n;
            i = i + 1;
        }
        assert(fields.take(i as int) =~= fields);
        let texts: Vec<(&str, &str)> = entries(&self.schema);
        let ghost all = self.entries();
        let ghost room = left as int;
        let mut i: usize = 0;
        assert(all.take(0) =~= Seq::<(Seq<char>, Seq<char>)>::empty());
        while i < texts.len()
            invariant
                i <= texts@.len(),
                all == texts@.map_values(|e: (&str, &str)| texts_of(e)),
                all == self.entries(),
                room == i32::MAX - 1024 - names_size(self.fields()),
                left == room - entries_size(all.take(i as int)),
            decreases texts@.len() - i,
        {
            proof {
                lemma_entries_grow(all, i + 1);
                assert(all.take(i + 1).drop_last() =~= all.take(i as int));
                assert(all[i as int] == texts_of(texts@[i as int]));
            }
            let key: usize = texts[i].0.as_bytes().len();
            let value: usize = texts[i].1.as_bytes().len();
            if left < 64 || key > left - 64 || value > left - 64 - key {
                return false;
            }
            left = left - 64 - key - value;
            i = i + 1;
        }
        assert(all.take(i as int) =~= all);
        true
    }
}

/// More names take up no less.
proof fn lemma_names_grow(fields: Seq<FieldParts>, n: int)
    requires
        0 <= n <= fields.len(),
    ensures
        names_size(fields.take(n)) <= names_size(fields),
    decreases fields.len(),
{
    if n < fields.len() {
        lemma_names_grow(fields.drop_last(), n);
        assert(fields.drop_last().take(n) =~= fields.take(n));
    } else {
        assert(fields.take(n) =~= fields);
    }
}

/// More entries take up no less.
proof fn lemma_entries_grow(entries: Seq<(Seq<char>, Seq<char>)>, n: int)
    requires
        0 <= n <= entries.len(),
    ensures
        entries_size(entries.take(n)) <= entries_size(entries),
    decreases entries.len(),
{
    if n < entries.len() {
        lemma_entries_grow(entries.drop_last(), n);
        assert(entries.drop_last().take(n) =~= entries.take(n));
    } else {
        assert(entries.take(n) =~= entries);
    }
}

/// A field of the columns of the tag with this id.
pub open spec fn tag_field(id: usize, k: int) -> FieldParts {
    let name = "tag"@ + decimal_digits(id as nat);
    if k == 0 {
        (name + "_pose"@, tag_kind(k), true)
    } else if k == 1 {
        (name + "_err"@, tag_kind(k), true)
    } else if k == 2 {
        (name + "_alt_err"@, tag_kind(k), true)
    } else {
        (name + "_margin"@, tag_kind(k), true)
    }
}

/// Whether these are the first fields of a schema.
spec fn describe(fields: Seq<Field>, wanted: Seq<FieldParts>) -> bool {
    &&& fields.len() <= wanted.len()
    &&& forall|c: int|
        0 <= c < fields.len() ==> field_parts(#[trigger] fields[c]) == wanted[c] && field_bare(
            fields[c],
        ) && wanted[c].1 !is Other
}

/// Appends the next field of a schema.
fn add_field(
    fields: &mut Vec<Field>,
    name: String,
    kind: Kind,
    nullable: bool,
    wanted: Ghost<Seq<FieldParts>>,
)
    requires
        kind !is Other,
        describe(old(fields)@, wanted@),
        old(fields)@.len() < wanted@.len(),
        wanted@[old(fields)@.len() as int] == (name@, kind, nullable),
    ensures
        final(fields)@.len() == old(fields)@.len() + 1,
        describe(final(fields)@, wanted@),
{
    fields.push(field(name, kind, nullable));
}

/// Appends the fields of the tag with this id.
fn add_tag_fields(fields: &mut Vec<Field>, id: usize, wanted: Ghost<Seq<FieldParts>>)
    requires
        describe(old(fields)@, wanted@),
        old(fields)@.len() + 4 <= wanted@.len(),
        forall|k: int|
            0 <= k < 4 ==> #[trigger] wanted@[old(fields)@.len() + k] == tag_field(id, k),
    ensures
        final(fields)@.len() == old(fields)@.len() + 4,
        describe(final(fields)@, wanted@),
{
    let ghost first = fields@.len() as int;
    assert(wanted@[first + 0] == tag_field(id, 0));
    assert(wanted@[first + 1] == tag_field(id, 1));
    assert(wanted@[first + 2] == tag_field(id, 2));
    assert(wanted@[first + 3] == tag_field(id, 3));
    let n: u64 = id as u64;
    add_field(fields, numbered("tag", n, "_pose"), Kind::Floats(POSE_LEN), true, wanted);
    add_field(fields, numbered("tag", n, "_err"), Kind::Float, true, wanted);
    add_field(fields, numbered("tag", n, "_alt_err"), Kind::Float, true, wanted);
    add_field(fields, numbered("tag", n, "_margin"), Kind::Float, true, wanted);
}

/// Field `c` of the frames table.
pub open spec fn frames_field(tag_ids: Seq<usize>, c: int) -> FieldParts {
    let tail = 5 + 4 * tag_ids.len();
    if c == 0 {
        ("frame"@, Kind::UInt64, false)
    } else if c == 1 {
        ("t_capture"@, Kind::Nanoseconds, false)
    } else if c == 2 {
        ("t_arrival"@, Kind::Nanoseconds, false)
    } else if c == 3 {
        ("t_detect_start"@, Kind::Nanoseconds, false)
    } else if c == 4 {
        ("t_detected"@, Kind::Nanoseconds, false)
    } else if c < tail {
        tag_field(tag_ids[(c - 5) / 4], (c - 5) % 4)
    } else if c == tail {
        ("acted"@, Kind::Boolean, false)
    } else if c == tail + 1 {
        ("t_policy_start"@, Kind::Nanoseconds, true)
    } else if c == tail + 2 {
        ("t_policy_done"@, Kind::Nanoseconds, true)
    } else if c == tail + 3 {
        ("t_sent"@, Kind::Nanoseconds, true)
    } else {
        ("action"@, Kind::Int8, false)
    }
}

/// The fields of the frames table, with columns for the tags with these ids.
pub open spec fn frames_fields(tag_ids: Seq<usize>) -> Seq<FieldParts> {
    Seq::new(10 + 4 * tag_ids.len(), |c: int| frames_field(tag_ids, c))
}

/// The schema of the frames table, with columns for the tags with these ids.
pub fn frames_schema(tag_ids: &[usize], metadata: HashMap<String, String>) -> (s: TableSchema)
    ensures
        s.fields() == frames_fields(tag_ids@),
        s.metadata() == metadata@,
        lists(s.entries(), metadata@),
{
    let wanted: Ghost<Seq<FieldParts>> = Ghost(frames_fields(tag_ids@));
    let mut fields: Vec<Field> = Vec::new();
    add_field(&mut fields, "frame".to_owned(), Kind::UInt64, false, wanted);
    add_field(&mut fields, "t_capture".to_owned(), Kind::Nanoseconds, false, wanted);
    add_field(&mut fields, "t_arrival".to_owned(), Kind::Nanoseconds, false, wanted);
    add_field(&mut fields, "t_detect_start".to_owned(), Kind::Nanoseconds, false, wanted);
    add_field(&mut fields, "t_detected".to_owned(), Kind::Nanoseconds, false, wanted);
    let mut t: usize = 0;
    while t < tag_ids.len()
        invariant
            t <= tag_ids@.len(),
            wanted@ == frames_fields(tag_ids@),
            fields@.len() == 5 + 4 * t,
            describe(fields@, wanted@),
        decreases tag_ids@.len() - t,
    {
        add_tag_fields(&mut fields, tag_ids[t], wanted);
        t = t + 1;
    }
    add_field(&mut fields, "acted".to_owned(), Kind::Boolean, false, wanted);
    add_field(&mut fields, "t_policy_start".to_owned(), Kind::Nanoseconds, true, wanted);
    add_field(&mut fields, "t_policy_done".to_owned(), Kind::Nanoseconds, true, wanted);
    add_field(&mut fields, "t_sent".to_owned(), Kind::Nanoseconds, true, wanted);
    add_field(&mut fields, "action".to_owned(), Kind::Int8, false, wanted);
    assert(fields@.map_values(|f: Field| field_parts(f)) =~= wanted@);
    TableSchema { schema: schema(fields, metadata) }
}

/// Field `c` of the observations table.
pub open spec fn observations_field(tag_ids: Seq<usize>, c: int) -> FieldParts {
    let tail = 3 + 4 * tag_ids.len();
    if c == 0 {
        ("frame"@, Kind::UInt64, false)
    } else if c == 1 {
        ("t_capture"@, Kind::Nanoseconds, false)
    } else if c == 2 {
        ("t_detected"@, Kind::Nanoseconds, false)
    } else if c < tail {
        tag_field(tag_ids[(c - 3) / 4], (c - 3) % 4)
    } else if c == tail {
        ("t_policy"@, Kind::Nanoseconds, true)
    } else if c == tail + 1 {
        ("t_plan"@, Kind::Nanoseconds, true)
    } else if c == tail + 2 {
        ("k_start"@, Kind::Int64, true)
    } else {
        ("plan"@, Kind::Int8s, true)
    }
}

/// The fields of the observations table, with columns for the tags with these ids.
pub open spec fn observations_fields(tag_ids: Seq<usize>) -> Seq<FieldParts> {
    Seq::new(7 + 4 * tag_ids.len(), |c: int| observations_field(tag_ids, c))
}

/// The schema of the observations table, with columns for the tags with these ids.
pub fn observations_schema(tag_ids: &[usize], metadata: HashMap<String, String>) -> (s: TableSchema)
    ensures
        s.fields() == observations_fields(tag_ids@),
        s.metadata() == metadata@,
        lists(s.entries(), metadata@),
{
    let wanted: Ghost<Seq<FieldParts>> = Ghost(observations_fields(tag_ids@));
    let mut fields: Vec<Field> = Vec::new();
    add_field(&mut fields, "frame".to_owned(), Kind::UInt64, false, wanted);
    add_field(&mut fields, "t_capture".to_owned(), Kind::Nanoseconds, false, wanted);
    add_field(&mut fields, "t_detected".to_owned(), Kind::Nanoseconds, false, wanted);
    let mut t: usize = 0;
    while t < tag_ids.len()
        invariant
            t <= tag_ids@.len(),
            wanted@ == observations_fields(tag_ids@),
            fields@.len() == 3 + 4 * t,
            describe(fields@, wanted@),
        decreases tag_ids@.len() - t,
    {
        add_tag_fields(&mut fields, tag_ids[t], wanted);
        t = t + 1;
    }
    add_field(&mut fields, "t_policy".to_owned(), Kind::Nanoseconds, true, wanted);
    add_field(&mut fields, "t_plan".to_owned(), Kind::Nanoseconds, true, wanted);
    add_field(&mut fields, "k_start".to_owned(), Kind::Int64, true, wanted);
    add_field(&mut fields, "plan".to_owned(), Kind::Int8s, true, wanted);
    assert(fields@.map_values(|f: Field| field_parts(f)) =~= wanted@);
    TableSchema { schema: schema(fields, metadata) }
}

/// Field `c` of the actions table.
pub open spec fn actions_field(c: int) -> FieldParts {
    if c == 0 {
        ("slot"@, Kind::Int64, false)
    } else if c == 1 {
        ("action"@, Kind::Int8, false)
    } else if c == 2 {
        ("frame"@, Kind::UInt64, true)
    } else {
        ("index"@, Kind::UInt8, true)
    }
}

/// The fields of the actions table.
pub open spec fn actions_fields() -> Seq<FieldParts> {
    Seq::new(4, |c: int| actions_field(c))
}

/// The schema of the actions table.
pub fn actions_schema(metadata: HashMap<String, String>) -> (s: TableSchema)
    ensures
        s.fields() == actions_fields(),
        s.metadata() == metadata@,
        lists(s.entries(), metadata@),
{
    let wanted: Ghost<Seq<FieldParts>> = Ghost(actions_fields());
    let mut fields: Vec<Field> = Vec::new();
    add_field(&mut fields, "slot".to_owned(), Kind::Int64, false, wanted);
    add_field(&mut fields, "action".to_owned(), Kind::Int8, false, wanted);
    add_field(&mut fields, "frame".to_owned(), Kind::UInt64, true, wanted);
    add_field(&mut fields, "index".to_owned(), Kind::UInt8, true, wanted);
    assert(fields@.map_values(|f: Field| field_parts(f)) =~= wanted@);
    TableSchema { schema: schema(fields, metadata) }
}

/// Frame rows with a tag for each of the schema's make a batch.
pub proof fn law_frame_rows_fit_their_schema(tag_ids: Seq<usize>, rows: Seq<FrameRow>)
    requires
        all_tagged(rows, tag_ids.len()),
    ensures
        FrameRow::tags_in(frames_fields(tag_ids).len()) == tag_ids.len(),
        fits(
            frames_fields(tag_ids),
            kinds_of::<FrameRow>(tag_ids.len()),
            columns_of(rows, tag_ids.len()),
        ),
{
    let columns = columns_of(rows, tag_ids.len());
    assert forall|c: int| 0 <= c < columns.len() && !frames_field(tag_ids, c).2 implies !(
    #[trigger] columns[c]).contains(Cell::Null) by {
        assert forall|i: int| 0 <= i < rows.len() implies columns[c][i] != Cell::Null by {
            assert(rows[i].tags().len() == tag_ids.len());
            assert(columns[c][i] == rows[i].cell(c));
        }
    }
}

/// Observations with a tag for each of the schema's make a batch.
pub proof fn law_observations_fit_their_schema(tag_ids: Seq<usize>, rows: Seq<ObsRow>)
    requires
        all_tagged(rows, tag_ids.len()),
    ensures
        ObsRow::tags_in(observations_fields(tag_ids).len()) == tag_ids.len(),
        fits(
            observations_fields(tag_ids),
            kinds_of::<ObsRow>(tag_ids.len()),
            columns_of(rows, tag_ids.len()),
        ),
{
    let columns = columns_of(rows, tag_ids.len());
    assert forall|c: int| 0 <= c < columns.len() && !observations_field(tag_ids, c).2 implies !(
    #[trigger] columns[c]).contains(Cell::Null) by {
        assert forall|i: int| 0 <= i < rows.len() implies columns[c][i] != Cell::Null by {
            assert(rows[i].tags().len() == tag_ids.len());
            assert(columns[c][i] == rows[i].cell(c));
        }
    }
}

/// Slots always make a batch.
pub proof fn law_actions_fit_their_schema(rows: Seq<ActRow>)
    ensures
        all_tagged(rows, 0),
        fits(actions_fields(), kinds_of::<ActRow>(0), columns_of(rows, 0)),
{
    let columns = columns_of(rows, 0);
    assert forall|c: int| 0 <= c < columns.len() && !actions_field(c).2 implies !(
    #[trigger] columns[c]).contains(Cell::Null) by {
        assert forall|i: int| 0 <= i < rows.len() implies columns[c][i] != Cell::Null by {
            assert(columns[c][i] == rows[i].cell(c));
        }
    }
}

/// Each column of the frames table holds what its name says, of the row it is
/// in, and every one of these names has its column.
pub proof fn law_a_frames_column_holds_what_it_is_named_for(
    tag_ids: Seq<usize>,
    row: FrameRow,
    c: int,
)
    requires
        row.tags@.len() == tag_ids.len(),
        0 <= c < frames_fields(tag_ids).len(),
    ensures
        frames_fields(tag_ids)[c].0 == "frame"@ ==> row.cell(c) == Cell::UInt64(row.frame),
        frames_fields(tag_ids)[c].0 == "t_capture"@
            ==> row.cell(c) == Cell::Nanoseconds(row.t_capture),
        frames_fields(tag_ids)[c].0 == "t_arrival"@
            ==> row.cell(c) == Cell::Nanoseconds(row.t_arrival),
        frames_fields(tag_ids)[c].0 == "t_detect_start"@
            ==> row.cell(c) == Cell::Nanoseconds(row.t_detect_start),
        frames_fields(tag_ids)[c].0 == "t_detected"@
            ==> row.cell(c) == Cell::Nanoseconds(row.t_detected),
        frames_fields(tag_ids)[c].0 == "acted"@ ==> row.cell(c) == Cell::Boolean(row.acted),
        frames_fields(tag_ids)[c].0 == "t_policy_start"@ && row.t_policy_start is Some
            ==> row.cell(c) == Cell::Nanoseconds(row.t_policy_start->0),
        frames_fields(tag_ids)[c].0 == "t_policy_start"@ && row.t_policy_start is None
            ==> row.cell(c) == Cell::Null,
        frames_fields(tag_ids)[c].0 == "t_policy_done"@ && row.t_policy_done is Some
            ==> row.cell(c) == Cell::Nanoseconds(row.t_policy_done->0),
        frames_fields(tag_ids)[c].0 == "t_policy_done"@ && row.t_policy_done is None
            ==> row.cell(c) == Cell::Null,
        frames_fields(tag_ids)[c].0 == "t_sent"@ && row.t_sent is Some
            ==> row.cell(c) == Cell::Nanoseconds(row.t_sent->0),
        frames_fields(tag_ids)[c].0 == "t_sent"@ && row.t_sent is None
            ==> row.cell(c) == Cell::Null,
        frames_fields(tag_ids)[c].0 == "action"@ ==> row.cell(c) == Cell::Int8(row.action),
        frames_fields(tag_ids)[0].0 == "frame"@,
        frames_fields(tag_ids)[1].0 == "t_capture"@,
        frames_fields(tag_ids)[2].0 == "t_arrival"@,
        frames_fields(tag_ids)[3].0 == "t_detect_start"@,
        frames_fields(tag_ids)[4].0 == "t_detected"@,
        frames_fields(tag_ids)[5 + 4 * tag_ids.len() as int].0 == "acted"@,
        frames_fields(tag_ids)[6 + 4 * tag_ids.len() as int].0 == "t_policy_start"@,
        frames_fields(tag_ids)[7 + 4 * tag_ids.len() as int].0 == "t_policy_done"@,
        frames_fields(tag_ids)[8 + 4 * tag_ids.len() as int].0 == "t_sent"@,
        frames_fields(tag_ids)[9 + 4 * tag_ids.len() as int].0 == "action"@,
        frames_fields(tag_ids).len() == 10 + 4 * tag_ids.len(),
{
    reveal_strlit("frame");
    reveal_strlit("t_capture");
    reveal_strlit("t_arrival");
    reveal_strlit("t_detect_start");
    reveal_strlit("t_detected");
    reveal_strlit("acted");
    reveal_strlit("t_policy_start");
    reveal_strlit("t_policy_done");
    reveal_strlit("t_sent");
    reveal_strlit("action");
    reveal_strlit("tag");
    assert("frame"@.len() == 5);
    assert("t_capture"@.len() == 9);
    assert("t_arrival"@.len() == 9);
    assert("t_detect_start"@.len() == 14);
    assert("t_detected"@.len() == 10);
    assert("acted"@.len() == 5);
    assert("t_policy_start"@.len() == 14);
    assert("t_policy_done"@.len() == 13);
    assert("t_sent"@.len() == 6);
    assert("action"@.len() == 6);
    assert("frame"@[0] != "acted"@[0]);
    assert("t_capture"@[2] != "t_arrival"@[2]);
    assert("t_detect_start"@[2] != "t_policy_start"@[2]);
    assert("t_sent"@[0] != "action"@[0]);
    assert("frame"@[0] != 't');
    assert("t_capture"@[1] != 'a');
    assert("t_arrival"@[1] != 'a');
    assert("t_detect_start"@[1] != 'a');
    assert("t_detected"@[1] != 'a');
    assert("acted"@[0] != 't');
    assert("t_policy_start"@[1] != 'a');
    assert("t_policy_done"@[1] != 'a');
    assert("t_sent"@[1] != 'a');
    assert("action"@[0] != 't');
    let name = frames_fields(tag_ids)[c].0;
    if 5 <= c < 5 + 4 * tag_ids.len() {
        let id = tag_ids[(c - 5) / 4];
        let k = (c - 5) % 4;
        assert(name == tag_field(id, k).0);
        assert(name[0] == 't' && name[1] == 'a' && name[2] == 'g' && name.len() >= 3);
    }
}

/// Each column of the observations table holds what its name says, of the row
/// it is in, and every one of these names has its column.
pub proof fn law_an_observations_column_holds_what_it_is_named_for(
    tag_ids: Seq<usize>,
    row: ObsRow,
    c: int,
)
    requires
        row.tags@.len() == tag_ids.len(),
        0 <= c < observations_fields(tag_ids).len(),
    ensures
        observations_fields(tag_ids)[c].0 == "frame"@ ==> row.cell(c) == Cell::UInt64(row.frame),
        observations_fields(tag_ids)[c].0 == "t_capture"@
            ==> row.cell(c) == Cell::Nanoseconds(row.t_capture),
        observations_fields(tag_ids)[c].0 == "t_detected"@
            ==> row.cell(c) == Cell::Nanoseconds(row.t_detected),
        observations_fields(tag_ids)[c].0 == "t_policy"@ && row.t_policy is Some
            ==> row.cell(c) == Cell::Nanoseconds(row.t_policy->0),
        observations_fields(tag_ids)[c].0 == "t_policy"@ && row.t_policy is None
            ==> row.cell(c) == Cell::Null,
        observations_fields(tag_ids)[c].0 == "t_plan"@ && row.t_plan is Some
            ==> row.cell(c) == Cell::Nanoseconds(row.t_plan->0),
        observations_fields(tag_ids)[c].0 == "t_plan"@ && row.t_plan is None
            ==> row.cell(c) == Cell::Null,
        observations_fields(tag_ids)[c].0 == "k_start"@ && row.k_start is Some
            ==> row.cell(c) == Cell::Int64(row.k_start->0),
        observations_fields(tag_ids)[c].0 == "k_start"@ && row.k_start is None
            ==> row.cell(c) == Cell::Null,
        observations_fields(tag_ids)[c].0 == "plan"@ && row.plan is Some
            ==> row.cell(c) == Cell::Int8s(row.plan->0@),
        observations_fields(tag_ids)[c].0 == "plan"@ && row.plan is None
            ==> row.cell(c) == Cell::Null,
        observations_fields(tag_ids)[0].0 == "frame"@,
        observations_fields(tag_ids)[1].0 == "t_capture"@,
        observations_fields(tag_ids)[2].0 == "t_detected"@,
        observations_fields(tag_ids)[3 + 4 * tag_ids.len() as int].0 == "t_policy"@,
        observations_fields(tag_ids)[4 + 4 * tag_ids.len() as int].0 == "t_plan"@,
        observations_fields(tag_ids)[5 + 4 * tag_ids.len() as int].0 == "k_start"@,
        observations_fields(tag_ids)[6 + 4 * tag_ids.len() as int].0 == "plan"@,
        observations_fields(tag_ids).len() == 7 + 4 * tag_ids.len(),
{
    reveal_strlit("frame");
    reveal_strlit("t_capture");
    reveal_strlit("t_detected");
    reveal_strlit("t_policy");
    reveal_strlit("t_plan");
    reveal_strlit("k_start");
    reveal_strlit("plan");
    reveal_strlit("tag");
    assert("frame"@.len() == 5);
    assert("t_capture"@.len() == 9);
    assert("t_detected"@.len() == 10);
    assert("t_policy"@.len() == 8);
    assert("t_plan"@.len() == 6);
    assert("k_start"@.len() == 7);
    assert("plan"@.len() == 4);
    assert("frame"@[0] != 't');
    assert("t_capture"@[1] != 'a');
    assert("t_detected"@[1] != 'a');
    assert("t_policy"@[1] != 'a');
    assert("t_plan"@[1] != 'a');
    assert("k_start"@[0] != 't');
    assert("plan"@[0] != 't');
    let name = observations_fields(tag_ids)[c].0;
    if 3 <= c < 3 + 4 * tag_ids.len() {
        let id = tag_ids[(c - 3) / 4];
        let k = (c - 3) % 4;
        assert(name == tag_field(id, k).0);
        assert(name[0] == 't' && name[1] == 'a' && name[2] == 'g' && name.len() >= 3);
    }
}

/// Each column of the actions table holds what its name says, of the row it is
/// in, and every one of these names has its column.
pub proof fn law_an_actions_column_holds_what_it_is_named_for(row: ActRow, c: int)
    requires
        0 <= c < actions_fields().len(),
    ensures
        actions_fields()[c].0 == "slot"@ ==> row.cell(c) == Cell::Int64(row.slot),
        actions_fields()[c].0 == "action"@ ==> row.cell(c) == Cell::Int8(row.action),
        actions_fields()[c].0 == "frame"@ && row.frame is Some
            ==> row.cell(c) == Cell::UInt64(row.frame->0),
        actions_fields()[c].0 == "frame"@ && row.frame is None
            ==> row.cell(c) == Cell::Null,
        actions_fields()[c].0 == "index"@ && row.index is Some
            ==> row.cell(c) == Cell::UInt8(row.index->0),
        actions_fields()[c].0 == "index"@ && row.index is None
            ==> row.cell(c) == Cell::Null,
        actions_fields()[0].0 == "slot"@,
        actions_fields()[1].0 == "action"@,
        actions_fields()[2].0 == "frame"@,
        actions_fields()[3].0 == "index"@,
{
    reveal_strlit("slot");
    reveal_strlit("action");
    reveal_strlit("frame");
    reveal_strlit("index");
    assert("slot"@.len() == 4);
    assert("action"@.len() == 6);
    assert("frame"@.len() == 5);
    assert("index"@.len() == 5);
    assert("frame"@[0] != "index"@[0]);
}

/// The columns of tag number `j` are named for its id, and hold its pose, its
/// errors and its margin, number by number; all are null where it was not
/// seen.
pub proof fn law_a_tags_columns_in_the_frames_table(
    tag_ids: Seq<usize>,
    row: FrameRow,
    j: int,
)
    requires
        row.tags@.len() == tag_ids.len(),
        0 <= j < tag_ids.len(),
    ensures
        frames_fields(tag_ids)[5 + 4 * j].0 == "tag"@ + decimal_digits(
            tag_ids[j] as nat,
        ) + "_pose"@,
        row.tags@[j] is Some ==> row.cell(5 + 4 * j) == Cell::Floats(row.tags@[j]->0.pose@),
        row.tags@[j] is None ==> row.cell(5 + 4 * j) == Cell::Null,
        frames_fields(tag_ids)[6 + 4 * j].0 == "tag"@ + decimal_digits(tag_ids[j] as nat) + "_err"@,
        row.tags@[j] is Some ==> row.cell(6 + 4 * j) == Cell::Float(row.tags@[j]->0.err),
        row.tags@[j] is None ==> row.cell(6 + 4 * j) == Cell::Null,
        frames_fields(tag_ids)[7 + 4 * j].0 == "tag"@ + decimal_digits(
            tag_ids[j] as nat,
        ) + "_alt_err"@,
        row.tags@[j] is Some && row.tags@[j]->0.alt_err is Some
            ==> row.cell(7 + 4 * j) == Cell::Float(row.tags@[j]->0.alt_err->0),
        row.tags@[j] is Some && row.tags@[j]->0.alt_err is None
            ==> row.cell(7 + 4 * j) == Cell::Null,
        row.tags@[j] is None ==> row.cell(7 + 4 * j) == Cell::Null,
        frames_fields(tag_ids)[8 + 4 * j].0 == "tag"@ + decimal_digits(
            tag_ids[j] as nat,
        ) + "_margin"@,
        row.tags@[j] is Some ==> row.cell(8 + 4 * j) == Cell::Float(row.tags@[j]->0.margin),
        row.tags@[j] is None ==> row.cell(8 + 4 * j) == Cell::Null,
{
    assert((4 * j + 0) / 4 == j && (4 * j + 0) % 4 == 0);
    assert((4 * j + 1) / 4 == j && (4 * j + 1) % 4 == 1);
    assert((4 * j + 2) / 4 == j && (4 * j + 2) % 4 == 2);
    assert((4 * j + 3) / 4 == j && (4 * j + 3) % 4 == 3);
}

/// The columns of tag number `j` are named for its id, and hold its pose, its
/// errors and its margin, number by number; all are null where it was not
/// seen.
pub proof fn law_a_tags_columns_in_the_observations_table(
    tag_ids: Seq<usize>,
    row: ObsRow,
    j: int,
)
    requires
        row.tags@.len() == tag_ids.len(),
        0 <= j < tag_ids.len(),
    ensures
        observations_fields(tag_ids)[3 + 4 * j].0 == "tag"@ + decimal_digits(
            tag_ids[j] as nat,
        ) + "_pose"@,
        row.tags@[j] is Some ==> row.cell(3 + 4 * j) == Cell::Floats(row.tags@[j]->0.pose@),
        row.tags@[j] is None ==> row.cell(3 + 4 * j) == Cell::Null,
        observations_fields(tag_ids)[4 + 4 * j].0 == "tag"@ + decimal_digits(
            tag_ids[j] as nat,
        ) + "_err"@,
        row.tags@[j] is Some ==> row.cell(4 + 4 * j) == Cell::Float(row.tags@[j]->0.err),
        row.tags@[j] is None ==> row.cell(4 + 4 * j) == Cell::Null,
        observations_fields(tag_ids)[5 + 4 * j].0 == "tag"@ + decimal_digits(
            tag_ids[j] as nat,
        ) + "_alt_err"@,
        row.tags@[j] is Some && row.tags@[j]->0.alt_err is Some
            ==> row.cell(5 + 4 * j) == Cell::Float(row.tags@[j]->0.alt_err->0),
        row.tags@[j] is Some && row.tags@[j]->0.alt_err is None
            ==> row.cell(5 + 4 * j) == Cell::Null,
        row.tags@[j] is None ==> row.cell(5 + 4 * j) == Cell::Null,
        observations_fields(tag_ids)[6 + 4 * j].0 == "tag"@ + decimal_digits(
            tag_ids[j] as nat,
        ) + "_margin"@,
        row.tags@[j] is Some ==> row.cell(6 + 4 * j) == Cell::Float(row.tags@[j]->0.margin),
        row.tags@[j] is None ==> row.cell(6 + 4 * j) == Cell::Null,
{
    assert((4 * j + 0) / 4 == j && (4 * j + 0) % 4 == 0);
    assert((4 * j + 1) / 4 == j && (4 * j + 1) % 4 == 1);
    assert((4 * j + 2) / 4 == j && (4 * j + 2) % 4 == 2);
    assert((4 * j + 3) / 4 == j && (4 * j + 3) % 4 == 3);
}

/// Why a table could not be written.
#[derive(Debug)]
pub enum TableError {
    /// The schema's names and metadata are too long to be written.
    Schema,
    /// The buffered rows do not make a batch.
    Batch(BatchError),
    /// The stream has ended.
    Stream(ArrowError),
}

/// Buffers rows and writes them to an IPC stream in batches.
///
/// The stream is written to memory; [`Table::take_bytes`] hands over what has
/// been written since it was last asked.
pub struct Table<R> {
    schema: Arc<Schema>,
    stream: Stream,
    rows: Vec<R>,
    written: u64,
    /// The rows of each batch written.
    flushed: Ghost<Seq<Seq<R>>>,
}

impl<R: Batched> Table<R> {
    pub closed spec fn schema(&self) -> Schema {
        *self.schema
    }

    /// The rows not yet written.
    pub closed spec fn pending(&self) -> Seq<R> {
        self.rows@
    }

    /// How many rows have been written.
    pub closed spec fn written(&self) -> u64 {
        self.written
    }

    /// The rows of each batch written, oldest first.
    pub closed spec fn flushed(&self) -> Seq<Seq<R>> {
        self.flushed@
    }

    /// Every row pushed, in order: those written, then those buffered.
    pub open spec fn recorded(&self) -> Seq<R> {
        self.flushed().flatten() + self.pending()
    }

    /// Whether the end of the stream has been written.
    pub closed spec fn ended(&self) -> bool {
        stream_ended(self.stream)
    }

    /// The bytes of the stream that have not been taken.
    pub closed spec fn bytes(&self) -> Seq<u8> {
        stream_bytes(self.stream)
    }

    /// The bytes of the stream that have been taken.
    pub closed spec fn taken(&self) -> Seq<u8> {
        stream_taken(self.stream)
    }

    /// Every byte of the stream so far.
    pub open spec fn output(&self) -> Seq<u8> {
        self.taken() + self.bytes()
    }

    /// The batches in the stream, column by column.
    pub closed spec fn batches(&self) -> Seq<Seq<Seq<Cell>>> {
        stream_batches(self.stream)
    }

    /// How many tags the table records.
    pub open spec fn n_tags(&self) -> nat {
        R::tags_in(schema_fields(self.schema()).len())
    }

    /// The schema the stream began with.
    pub closed spec fn stream_schema(&self) -> Schema {
        stream_schema(self.stream)
    }

    /// The stream is of the table's schema, begins with it and ends with its
    /// end, and holds the rows written, batch by batch.
    pub open spec fn wf(&self) -> bool {
        &&& self.stream_schema() == self.schema()
        &&& stream_start(self.schema()).is_prefix_of(self.output())
        &&& self.ended() ==> end_of_stream().is_suffix_of(self.output())
        &&& self.written() == self.flushed().flatten().len()
        &&& self.batches() == self.flushed().map_values(
            |rows: Seq<R>| columns_of(rows, self.n_tags()),
        )
    }

    /// Whether the buffered rows make a batch.
    pub open spec fn fitting(&self) -> bool {
        &&& all_tagged(self.pending(), self.n_tags())
        &&& fits(
            schema_fields(self.schema()),
            kinds_of::<R>(self.n_tags()),
            columns_of(self.pending(), self.n_tags()),
        )
    }

    /// Whether the buffered rows are few enough for one batch, and to count.
    pub open spec fn flushable(&self) -> bool {
        &&& R::batchable(self.pending(), schema_fields(self.schema()).len())
        &&& self.written() + self.pending().len() <= u64::MAX
    }

    /// Whether the buffered rows are few enough for one batch, and to count.
    pub fn can_flush(&self) -> (b: bool)
        ensures
            b == self.flushable(),
    {
        R::can_batch(self.rows.as_slice(), field_count(&self.schema)) && self.rows.len() as u64
            <= u64::MAX - self.written
    }

    /// Starts a table with this schema.
    pub fn create(schema: TableSchema) -> (r: Result<Self, TableError>)
        ensures
            r is Ok <==> schema.writable(),
            match r {
                Ok(t) => {
                    &&& t.wf()
                    &&& t.schema() == schema.schema()
                    &&& t.pending() == Seq::<R>::empty()
                    &&& t.flushed() == Seq::<Seq<R>>::empty()
                    &&& !t.ended()
                    &&& t.taken() == Seq::<u8>::empty()
                    &&& t.bytes() == stream_start(schema.schema())
                },
                Err(e) => e == TableError::Schema,
            },
    {
        if !schema.can_write() {
            return Err(TableError::Schema);
        }
        proof {
            use_type_invariant(&schema);
        }
        let schema: Arc<Schema> = schema.schema;
        match stream(&schema) {
            Ok(stream) => {
                let t = Table {
                    schema,
                    stream,
                    rows: Vec::new(),
                    written: 0,
                    flushed: Ghost(Seq::empty()),
                };
                assert(t.flushed().flatten() =~= Seq::<R>::empty());
                assert(t.batches() =~= t.flushed().map_values(
                    |rows: Seq<R>| columns_of(rows, t.n_tags()),
                ));
                assert(t.output() =~= t.bytes());
                Ok(t)
            },
            Err(e) => Err(TableError::Stream(e)),
        }
    }

    pub fn push(&mut self, row: R)
        requires
            old(self).wf(),
        ensures
            final(self).wf(),
            final(self).pending() == old(self).pending().push(row),
            final(self).recorded() == old(self).recorded().push(row),
            final(self).schema() == old(self).schema(),
            final(self).flushed() == old(self).flushed(),
            final(self).written() == old(self).written(),
            final(self).bytes() == old(self).bytes(),
            final(self).taken() == old(self).taken(),
            final(self).ended() == old(self).ended(),
    {
        self.rows.push(row);
        assert(self.recorded() =~= old(self).recorded().push(row));
    }

    /// Writes the buffered rows as one batch.
    pub fn flush(&mut self) -> (r: Result<(), TableError>)
        requires
            old(self).wf(),
            old(self).flushable(),
        ensures
            final(self).wf(),
            final(self).schema() == old(self).schema(),
            final(self).ended() == old(self).ended(),
            final(self).taken() == old(self).taken(),
            final(self).recorded() == old(self).recorded(),
            old(self).pending().len() == 0 ==> r is Ok && final(self).flushed() == old(
                self,
            ).flushed() && final(self).bytes() == old(self).bytes(),
            old(self).pending().len() > 0 ==> (r is Ok <==> old(self).fitting() && !old(
                self,
            ).ended()),
            match r {
                Ok(()) => {
                    &&& final(self).pending() == Seq::<R>::empty()
                    &&& final(self).written() == old(self).written() + old(self).pending().len()
                    &&& old(self).pending().len() > 0 ==> {
                        &&& final(self).flushed() == old(self).flushed().push(old(self).pending())
                        &&& old(self).bytes().len() < final(self).bytes().len()
                    }
                    &&& old(self).bytes().is_prefix_of(final(self).bytes())
                },
                Err(e) => {
                    &&& final(self).pending() == old(self).pending()
                    &&& final(self).written() == old(self).written()
                    &&& final(self).flushed() == old(self).flushed()
                    &&& final(self).bytes() == old(self).bytes()
                    &&& match e {
                        TableError::Schema => false,
                        TableError::Batch(e) => batched(
                            schema_fields(old(self).schema()),
                            old(self).pending(),
                            Err(e),
                        ),
                        TableError::Stream(_) => old(self).fitting(),
                    }
                },
            },
    {
        if self.rows.len() == 0 {
            return Ok(());
        }
        let batch = match R::batch(&self.schema, self.rows.as_slice()) {
            Ok(batch) => batch,
            Err(e) => return Err(TableError::Batch(e)),
        };
        match stream_write(&mut self.stream, &batch) {
            Ok(()) => {},
            Err(e) => return Err(TableError::Stream(e)),
        }
        proof {
            lemma_starts_still(
                stream_start(self.schema()),
                old(self).taken(),
                old(self).bytes(),
                self.bytes(),
            );
        }
        self.written = self.written + self.rows.len() as u64;
        proof {
            let before = old(self).flushed@;
            let rows = old(self).rows@;
            self.flushed@ = before.push(rows);
            lemma_flatten_push(before, rows);
            assert(self.flushed@.map_values(|rows: Seq<R>| columns_of(rows, self.n_tags()))
                =~= before.map_values(|rows: Seq<R>| columns_of(rows, self.n_tags())).push(
                columns_of(rows, self.n_tags()),
            ));
        }
        self.rows.clear();
        assert(self.recorded() =~= old(self).recorded());
        Ok(())
    }

    /// Flushes and writes the end-of-stream marker. Returns rows written.
    pub fn finish(&mut self) -> (r: Result<u64, TableError>)
        requires
            old(self).wf(),
            old(self).flushable(),
        ensures
            final(self).wf(),
            final(self).schema() == old(self).schema(),
            final(self).taken() == old(self).taken(),
            final(self).recorded() == old(self).recorded(),
            r is Ok <==> !old(self).ended() && (old(self).pending().len() == 0 || old(
                self,
            ).fitting()),
            match r {
                Ok(n) => {
                    &&& n == final(self).written()
                    &&& n == old(self).written() + old(self).pending().len()
                    &&& final(self).ended()
                    &&& final(self).pending() == Seq::<R>::empty()
                    &&& final(self).flushed() == (if old(self).pending().len() > 0 {
                        old(self).flushed().push(old(self).pending())
                    } else {
                        old(self).flushed()
                    })
                    &&& exists|batch: Seq<u8>|
                        final(self).bytes() == old(self).bytes() + batch + end_of_stream() && (
                        batch.len() > 0 <==> old(self).pending().len() > 0)
                },
                Err(_) => {
                    &&& final(self).pending() == old(self).pending()
                    &&& final(self).flushed() == old(self).flushed()
                    &&& final(self).written() == old(self).written()
                    &&& final(self).bytes() == old(self).bytes()
                    &&& final(self).ended() == old(self).ended()
                },
            },
            match r {
                Ok(_) => true,
                Err(TableError::Schema) => false,
                Err(TableError::Batch(e)) => {
                    &&& old(self).pending().len() > 0
                    &&& batched(
                        schema_fields(old(self).schema()),
                        old(self).pending(),
                        Err(e),
                    )
                },
                Err(TableError::Stream(_)) => old(self).pending().len() == 0 || old(
                    self,
                ).fitting(),
            },
    {
        match self.flush() {
            Ok(()) => {},
            Err(e) => return Err(e),
        }
        let ghost before = self.bytes();
        match stream_finish(&mut self.stream) {
            Ok(()) => {
                proof {
                    let already = old(self).bytes();
                    let batch = before.subrange(already.len() as int, before.len() as int);
                    assert(self.bytes() =~= already + batch + end_of_stream());
                    lemma_starts_still(
                        stream_start(self.schema()),
                        self.taken(),
                        before,
                        self.bytes(),
                    );
                    assert(self.output() =~= self.taken() + before + end_of_stream());
                }
                Ok(self.written)
            },
            Err(e) => Err(TableError::Stream(e)),
        }
    }

    /// Takes what has been written to the stream since it was last taken.
    pub fn take_bytes(&mut self) -> (bytes: Vec<u8>)
        requires
            old(self).wf(),
        ensures
            final(self).wf(),
            bytes@ == old(self).bytes(),
            final(self).bytes() == Seq::<u8>::empty(),
            final(self).taken() == old(self).taken() + bytes@,
            final(self).output() == old(self).output(),
            final(self).schema() == old(self).schema(),
            final(self).pending() == old(self).pending(),
            final(self).flushed() == old(self).flushed(),
            final(self).written() == old(self).written(),
            final(self).ended() == old(self).ended(),
    {
        let bytes: Vec<u8> = stream_take(&mut self.stream);
        assert(self.output() =~= old(self).output());
        bytes
    }
}

/// A stream that goes on still begins as it did.
proof fn lemma_starts_still(start: Seq<u8>, taken: Seq<u8>, before: Seq<u8>, after: Seq<u8>)
    requires
        start.is_prefix_of(taken + before),
        before.is_prefix_of(after),
    ensures
        start.is_prefix_of(taken + after),
{
    let now = (taken + after).take(start.len() as int);
    assert(start =~= (taken + before).take(start.len() as int));
    assert forall|i: int| 0 <= i < start.len() implies start[i] == now[i] by {
        if i >= taken.len() {
            assert(before[i - taken.len()] == after[i - taken.len()]);
        }
    }
    assert(start =~= now);
}

/// Flattening reaches one sequence further.
proof fn lemma_flatten_push<A>(s: Seq<Seq<A>>, x: Seq<A>)
    ensures
        s.push(x).flatten() == s.flatten() + x,
{
    s.push(x).lemma_flatten_and_flatten_alt_are_equivalent();
    s.lemma_flatten_and_flatten_alt_are_equivalent();
    assert(s.push(x).drop_last() =~= s);
}

/// A table's stream is given what was pushed: its batches are, one after the
/// other, of every row pushed but those still buffered, and row `i` of batch
/// `b` has in column `c` what that row holds there.
pub proof fn law_the_stream_holds_what_was_pushed<R: Batched>(t: Table<R>, b: int, c: int, i: int)
    requires
        t.wf(),
        0 <= b < t.flushed().len(),
        0 <= c < R::n_columns(t.n_tags()),
        0 <= i < t.flushed()[b].len(),
    ensures
        t.batches().len() == t.flushed().len(),
        t.batches()[b][c][i] == t.flushed()[b][i].cell(c),
        t.recorded() == t.flushed().flatten() + t.pending(),
        t.written() == t.recorded().len() - t.pending().len(),
{
    assert(t.batches()[b] == columns_of(t.flushed()[b], t.n_tags()));
}

/// Every byte a table hands out is of one stream, which begins with the schema
/// and, once the table is finished, ends with the end of the stream.
pub proof fn law_what_is_handed_out_is_one_stream<R: Batched>(t: Table<R>)
    requires
        t.wf(),
    ensures
        t.bytes().len() == 0 ==> stream_start(t.schema()).is_prefix_of(t.taken()),
        t.bytes().len() == 0 && t.ended() ==> end_of_stream().is_suffix_of(t.taken()),
        t.stream_schema() == t.schema(),
{
    if t.bytes().len() == 0 {
        assert(t.output() =~= t.taken());
    }
}

/// What a table's own schema takes up goes by how many tags it is for and how
/// long its metadata is.
pub proof fn law_the_schemas_are_short(tag_ids: Seq<usize>, entries: Seq<(Seq<char>, Seq<char>)>)
    ensures
        header_size(frames_fields(tag_ids), entries) <= 8192 + 2048 * tag_ids.len() + entries_size(
            entries,
        ),
        header_size(observations_fields(tag_ids), entries) <= 8192 + 2048 * tag_ids.len()
            + entries_size(entries),
        header_size(actions_fields(), entries) <= 8192 + entries_size(entries),
{
    reveal_strlit("frame");
    reveal_strlit("t_capture");
    reveal_strlit("t_arrival");
    reveal_strlit("t_detect_start");
    reveal_strlit("t_detected");
    reveal_strlit("acted");
    reveal_strlit("t_policy_start");
    reveal_strlit("t_policy_done");
    reveal_strlit("t_sent");
    reveal_strlit("action");
    reveal_strlit("t_policy");
    reveal_strlit("t_plan");
    reveal_strlit("k_start");
    reveal_strlit("plan");
    reveal_strlit("slot");
    reveal_strlit("index");
    assert forall|c: int| 0 <= c < frames_fields(tag_ids).len() implies (
    #[trigger] frames_fields(tag_ids)[c]).0.len() <= 31 by {
        if 5 <= c < 5 + 4 * tag_ids.len() {
            lemma_tag_name_length(tag_ids[(c - 5) / 4], (c - 5) % 4);
        }
    }
    assert forall|c: int| 0 <= c < observations_fields(tag_ids).len() implies (
    #[trigger] observations_fields(tag_ids)[c]).0.len() <= 31 by {
        if 3 <= c < 3 + 4 * tag_ids.len() {
            lemma_tag_name_length(tag_ids[(c - 3) / 4], (c - 3) % 4);
        }
    }
    lemma_short_names(frames_fields(tag_ids));
    lemma_short_names(observations_fields(tag_ids));
    lemma_short_names(actions_fields());
}

/// A tag's columns have short names.
proof fn lemma_tag_name_length(id: usize, k: int)
    ensures
        tag_field(id, k).0.len() <= 31,
{
    reveal_strlit("tag");
    reveal_strlit("_pose");
    reveal_strlit("_err");
    reveal_strlit("_alt_err");
    reveal_strlit("_margin");
    lemma_decimal_length(id as nat);
}

/// Short names take up little.
proof fn lemma_short_names(fields: Seq<FieldParts>)
    requires
        forall|c: int| 0 <= c < fields.len() ==> (#[trigger] fields[c]).0.len() <= 31,
    ensures
        names_size(fields) <= 380 * fields.len(),
    decreases fields.len(),
{
    if fields.len() > 0 {
        lemma_short_names(fields.drop_last());
        lemma_utf8_length(fields.last().0);
    }
}

/// No character takes up more than four bytes.
proof fn lemma_utf8_length(s: Seq<char>)
    ensures
        encode_utf8(s).len() <= 4 * s.len(),
    decreases s.len(),
{
    if s.len() > 0 {
        lemma_utf8_length(s.drop_first());
    }
}

} // verus!
