//! The rows of the tables a recording writes, and their batches of columns.
//!
//! All times are durations in nanoseconds relative to the recording's t0. A
//! grid slot's time is `slot * period`, so the actions table stores slots, not
//! times. A single-precision number stands as its 32 bits.

use crate::clock::{low_i64, nanos, wrap_i64};
use crate::columns::{
    batch, batch_cells, batch_fields, boolean_column, bytes_in, cells, field_count, fits,
    float_column, floats_column, int64_column, int8_column, int8s_cells, int8s_column, kind,
    nanoseconds_column, schema_fields, uint64_column, uint8_column, Batch, Cell, Column,
    FieldParts, Kind,
};
use arrow_schema::{ArrowError, Schema};
use std::sync::Arc;
use std::time::Duration;
use vstd::prelude::*;

verus! {

/// Position then orientation: x y z qw qx qy qz.
pub const POSE_LEN: i32 = 7;

/// Columns per recorded tag.
pub const PER_TAG: usize = 4;

/// Signed nanoseconds from `t0` to `t`, both on the monotonic clock. They fit
/// for centuries either way; beyond that they wrap.
pub fn rel_ns(t: Duration, t0: Duration) -> (ns: i64)
    ensures
        ns == wrap_i64(nanos(t) - nanos(t0)),
{
    low_i64(t.as_nanos() as i128 - t0.as_nanos() as i128)
}

/// One tag as seen in one frame.
#[derive(Clone, Copy, Debug)]
pub struct TagRow {
    /// x y z in metres, then the quaternion w x y z with w >= 0.
    pub pose: [u32; 7],
    pub err: u32,
    pub alt_err: Option<u32>,
    pub margin: u32,
}

/// What a tag's columns hold of it: its pose, error, alternative error and
/// margin.
pub open spec fn tag_cell(tag: Option<TagRow>, k: int) -> Cell {
    match tag {
        None => Cell::Null,
        Some(t) => if k == 0 {
            Cell::Floats(t.pose@)
        } else if k == 1 {
            Cell::Float(t.err)
        } else if k == 2 {
            match t.alt_err {
                Some(e) => Cell::Float(e),
                None => Cell::Null,
            }
        } else {
            Cell::Float(t.margin)
        },
    }
}

/// What kind of cells a tag's columns hold.
pub open spec fn tag_kind(k: int) -> Kind {
    if k == 0 {
        Kind::Floats(POSE_LEN)
    } else {
        Kind::Float
    }
}

/// Why some rows do not make a batch.
#[derive(Debug)]
pub enum BatchError {
    /// A row has another number of tags than the schema.
    TagCount { row: usize, schema: usize },
    /// The rows are not what the schema describes.
    Schema(ArrowError),
}

/// A row of a table.
pub trait Row: Sized {
    /// The recorded tags, in the order of the schema's columns.
    spec fn tags(&self) -> Seq<Option<TagRow>>;

    /// What the row holds in column `c`.
    spec fn cell(&self, c: int) -> Cell;

    /// How many tags a table with this many columns records.
    spec fn tags_in(width: nat) -> nat;

    /// How many columns a table that records this many tags has.
    spec fn n_columns(n_tags: nat) -> nat;

    /// What kind of cells column `c` holds.
    spec fn kind_of(n_tags: nat, c: int) -> Kind;

    /// Whether rows are few and small enough for one batch of a table with
    /// this many columns.
    spec fn batchable(rows: Seq<Self>, width: nat) -> bool;

    /// Whether rows are few and small enough for one batch of a table with
    /// this many columns.
    fn can_batch(rows: &[Self], width: usize) -> (b: bool)
        ensures
            b == Self::batchable(rows@, width as nat),
    ;

    fn tag_count(&self) -> (n: usize)
        ensures
            n == self.tags().len(),
    ;

    fn tag(&self, t: usize) -> (tag: Option<TagRow>)
        ensures
            tag == (if t < self.tags().len() {
                self.tags()[t as int]
            } else {
                None
            }),
    ;
}

/// Column `c` of some rows.
pub open spec fn column_of<R: Row>(rows: Seq<R>, c: int) -> Seq<Cell> {
    Seq::new(rows.len(), |i: int| rows[i].cell(c))
}

/// The columns of some rows of a table that records this many tags.
pub open spec fn columns_of<R: Row>(rows: Seq<R>, n_tags: nat) -> Seq<Seq<Cell>> {
    Seq::new(R::n_columns(n_tags), |c: int| column_of(rows, c))
}

/// The kinds of the columns of a table that records this many tags.
pub open spec fn kinds_of<R: Row>(n_tags: nat) -> Seq<Kind> {
    Seq::new(R::n_columns(n_tags), |c: int| R::kind_of(n_tags, c))
}

/// Whether every row has this many tags.
pub open spec fn all_tagged<R: Row>(rows: Seq<R>, n_tags: nat) -> bool {
    forall|i: int| 0 <= i < rows.len() ==> (#[trigger] rows[i]).tags().len() == n_tags
}

/// Whether row `i` is the first with another number of tags.
pub open spec fn first_mistagged<R: Row>(rows: Seq<R>, n_tags: nat, i: int) -> bool {
    &&& 0 <= i < rows.len()
    &&& rows[i].tags().len() != n_tags
    &&& all_tagged(rows.take(i), n_tags)
}

/// What becomes of rows, by the fields of the schema they are for.
pub open spec fn batched<R: Row>(
    fields: Seq<FieldParts>,
    rows: Seq<R>,
    r: Result<Batch, BatchError>,
) -> bool {
    let n_tags = R::tags_in(fields.len());
    match r {
        Ok(b) => {
            &&& all_tagged(rows, n_tags)
            &&& fits(fields, kinds_of::<R>(n_tags), columns_of(rows, n_tags))
            &&& batch_fields(b) == fields
            &&& batch_cells(b) == columns_of(rows, n_tags)
        },
        Err(BatchError::TagCount { row, schema }) => {
            &&& schema == n_tags
            &&& exists|i: int| #[trigger]
                first_mistagged(rows, n_tags, i) && row == rows[i].tags().len()
        },
        Err(BatchError::Schema(_)) => {
            &&& all_tagged(rows, n_tags)
            &&& !fits(fields, kinds_of::<R>(n_tags), columns_of(rows, n_tags))
        },
    }
}

/// A row that knows how to batch its kind.
pub trait Batched: Row {
    /// Makes a batch of rows.
    fn batch(schema: &Arc<Schema>, rows: &[Self]) -> (r: Result<Batch, BatchError>)
        requires
            Self::batchable(rows@, schema_fields(**schema).len()),
        ensures
            batched(schema_fields(**schema), rows@, r),
    ;
}

/// Checks that every row has `n_tags` tags.
fn check_tags<R: Row>(rows: &[R], n_tags: usize) -> (r: Result<(), BatchError>)
    ensures
        match r {
            Ok(()) => all_tagged(rows@, n_tags as nat),
            Err(BatchError::TagCount { row, schema }) => {
                &&& schema == n_tags
                &&& exists|i: int| #[trigger]
                    first_mistagged(rows@, n_tags as nat, i) && row == rows@[i].tags().len()
            },
            Err(BatchError::Schema(_)) => false,
        },
{
    let mut i: usize = 0;
    while i < rows.len()
        invariant
            i <= rows@.len(),
            all_tagged(rows@.take(i as int), n_tags as nat),
        decreases rows@.len() - i,
    {
        let row: usize = rows[i].tag_count();
        if row != n_tags {
            assert(first_mistagged(rows@, n_tags as nat, i as int));
            return Err(BatchError::TagCount { row, schema: n_tags });
        }
        assert forall|j: int| 0 <= j < i + 1 implies (#[trigger] rows@.take(
            i + 1,
        )[j]).tags().len() == n_tags by {
            if j < i {
                assert(rows@.take(i as int)[j] == rows@[j]);
            }
        }
        i = i + 1;
    }
    assert(rows@.take(i as int) =~= rows@);
    Ok(())
}

/// Whether these are the first columns of some rows.
spec fn holds<R: Row>(columns: Seq<Column>, rows: Seq<R>, n_tags: nat) -> bool {
    forall|c: int|
        0 <= c < columns.len() ==> kind(#[trigger] columns[c]) == R::kind_of(n_tags, c) && cells(
            columns[c],
        ) == column_of(rows, c)
}

/// Appends the next column of some rows.
fn add_column<R: Row>(columns: &mut Vec<Column>, column: Column, rows: &[R], n_tags: usize)
    requires
        holds(old(columns)@, rows@, n_tags as nat),
        kind(column) == R::kind_of(n_tags as nat, old(columns)@.len() as int),
        cells(column) == column_of(rows@, old(columns)@.len() as int),
    ensures
        final(columns)@ == old(columns)@.push(column),
        holds(final(columns)@, rows@, n_tags as nat),
{
    columns.push(column);
}

/// Makes a batch of the columns of some rows.
fn batch_of<R: Row>(
    schema: &Arc<Schema>,
    columns: Vec<Column>,
    rows: &[R],
    n_tags: usize,
) -> (r: Result<Batch, BatchError>)
    requires
        n_tags == R::tags_in(schema_fields(**schema).len()),
        all_tagged(rows@, n_tags as nat),
        columns@.len() == R::n_columns(n_tags as nat),
        holds(columns@, rows@, n_tags as nat),
    ensures
        batched(schema_fields(**schema), rows@, r),
{
    assert(columns@.map_values(|c: Column| kind(c)) =~= kinds_of::<R>(n_tags as nat));
    assert(columns@.map_values(|c: Column| cells(c)) =~= columns_of(rows@, n_tags as nat));
    match batch(schema, columns) {
        Ok(b) => Ok(b),
        Err(e) => Err(BatchError::Schema(e)),
    }
}

/// Appends the columns of tag `t`.
fn add_tag<R: Row>(columns: &mut Vec<Column>, rows: &[R], t: usize, n_tags: usize)
    requires
        holds(old(columns)@, rows@, n_tags as nat),
        all_tagged(rows@, n_tags as nat),
        t < n_tags,
        forall|k: int|
            0 <= k < 4 ==> R::kind_of(n_tags as nat, #[trigger] (old(columns)@.len() + k))
                == tag_kind(k),
        forall|k: int, i: int|
            0 <= k < 4 && 0 <= i < rows@.len() ==> (#[trigger] rows@[i]).cell(
                #[trigger] (old(columns)@.len() + k),
            ) == tag_cell(rows@[i].tags()[t as int], k),
    ensures
        final(columns)@.len() == old(columns)@.len() + 4,
        holds(final(columns)@, rows@, n_tags as nat),
{
    let mut poses: Vec<Option<u32>> = Vec::new();
    let mut seen: Vec<bool> = Vec::new();
    let mut errs: Vec<Option<u32>> = Vec::new();
    let mut alts: Vec<Option<u32>> = Vec::new();
    let mut margins: Vec<Option<u32>> = Vec::new();
    let mut i: usize = 0;
    while i < rows.len()
        invariant
            i <= rows@.len(),
            t < n_tags,
            all_tagged(rows@, n_tags as nat),
            seen@.len() == i,
            errs@.len() == i,
            alts@.len() == i,
            margins@.len() == i,
            poses@.len() == i * 7,
            forall|j: int| 0 <= j < i ==> #[trigger] seen@[j] == rows@[j].tags()[t as int] is Some,
            forall|j: int, k: int|
                0 <= j < i && 0 <= k < 7 ==> #[trigger] poses@[j * 7 + k] == (
                match rows@[j].tags()[t as int] {
                    Some(tag) => Some(tag.pose@[k]),
                    None => None,
                }),
            forall|j: int|
                0 <= j < i ==> #[trigger] errs@[j] == (match rows@[j].tags()[t as int] {
                    Some(tag) => Some(tag.err),
                    None => None,
                }),
            forall|j: int|
                0 <= j < i ==> #[trigger] alts@[j] == (match rows@[j].tags()[t as int] {
                    Some(tag) => tag.alt_err,
                    None => None,
                }),
            forall|j: int|
                0 <= j < i ==> #[trigger] margins@[j] == (match rows@[j].tags()[t as int] {
                    Some(tag) => Some(tag.margin),
                    None => None,
                }),
        decreases rows@.len() - i,
    {
        let tag: Option<TagRow> = rows[i].tag(t);
        let ghost before = poses@;
        // A null list still takes up its slots.
        let mut k: usize = 0;
        while k < 7
            invariant
                k <= 7,
                before.len() == i * 7,
                poses@.len() == before.len() + k,
                poses@.take(before.len() as int) == before,
                forall|m: int|
                    0 <= m < k ==> #[trigger] poses@[i * 7 + m] == (match tag {
                        Some(tag) => Some(tag.pose@[m]),
                        None => None,
                    }),
            decreases 7 - k,
        {
            let ghost earlier = poses@;
            match tag {
                Some(tag) => poses.push(Some(tag.pose[k])),
                None => poses.push(None),
            }
            assert(poses@.take(before.len() as int) =~= earlier.take(before.len() as int));
            k = k + 1;
        }
        assert forall|j: int, k: int| 0 <= j < i && 0 <= k < 7 implies #[trigger] poses@[j * 7 + k]
            == before[j * 7 + k] by {
            assert(poses@.take(before.len() as int)[j * 7 + k] == poses@[j * 7 + k]);
        }
        match tag {
            Some(tag) => {
                seen.push(true);
                errs.push(Some(tag.err));
                alts.push(tag.alt_err);
                margins.push(Some(tag.margin));
            },
            None => {
                seen.push(false);
                errs.push(None);
                alts.push(None);
                margins.push(None);
            },
        }
        i = i + 1;
    }
    let ghost first = columns@.len() as int;
    let values: Column = float_column(poses);
    let pose: Column = floats_column(values, POSE_LEN, seen);
    assert(cells(pose) =~= column_of(rows@, first + 0)) by {
        assert forall|j: int| 0 <= j < rows@.len() implies cells(pose)[j] == (#[trigger] rows@[j]).cell(
            first + 0,
        ) by {
            if rows@[j].tags()[t as int] is Some {
                let p = rows@[j].tags()[t as int]->0.pose@;
                let row = cells(pose)[j]->Floats_0;
                assert forall|k: int| 0 <= k < 7 implies row[k] == p[k] by {
                    assert(cells(values)[j * 7 + k] == Cell::Float(p[k]));
                }
                assert(row =~= p);
            }
        }
    }
    add_column(columns, pose, rows, n_tags);
    let err: Column = float_column(errs);
    assert(cells(err) =~= column_of(rows@, first + 1));
    add_column(columns, err, rows, n_tags);
    let alt: Column = float_column(alts);
    assert(cells(alt) =~= column_of(rows@, first + 2));
    add_column(columns, alt, rows, n_tags);
    let margin: Column = float_column(margins);
    assert(cells(margin) =~= column_of(rows@, first + 3));
    add_column(columns, margin, rows, n_tags);
}

/// One frame that went through detection.
#[derive(Debug)]
pub struct FrameRow {
    pub frame: u64,
    pub t_capture: i64,
    /// When the frame reached this program.
    pub t_arrival: i64,
    pub t_detect_start: i64,
    pub t_detected: i64,
    /// One entry per recorded tag id, in the order of the schema's columns.
    pub tags: Vec<Option<TagRow>>,
    /// Whether the policy acted on this frame. A frame that arrived while
    /// the policy was busy with an earlier one is skipped: its policy times
    /// are null and `action` is the one carried over.
    pub acted: bool,
    pub t_policy_start: Option<i64>,
    pub t_policy_done: Option<i64>,
    /// When the action was written to the serial port.
    pub t_sent: Option<i64>,
    /// The action in effect after this frame.
    pub action: i8,
}

/// A time that may be missing.
pub open spec fn time_cell(t: Option<i64>) -> Cell {
    match t {
        Some(t) => Cell::Nanoseconds(t),
        None => Cell::Null,
    }
}

impl Row for FrameRow {
    open spec fn tags(&self) -> Seq<Option<TagRow>> {
        self.tags@
    }

    open spec fn cell(&self, c: int) -> Cell {
        let tail = 5 + 4 * self.tags@.len();
        if c == 0 {
            Cell::UInt64(self.frame)
        } else if c == 1 {
            Cell::Nanoseconds(self.t_capture)
        } else if c == 2 {
            Cell::Nanoseconds(self.t_arrival)
        } else if c == 3 {
            Cell::Nanoseconds(self.t_detect_start)
        } else if c == 4 {
            Cell::Nanoseconds(self.t_detected)
        } else if c < tail {
            tag_cell(self.tags@[(c - 5) / 4], (c - 5) % 4)
        } else if c == tail {
            Cell::Boolean(self.acted)
        } else if c == tail + 1 {
            time_cell(self.t_policy_start)
        } else if c == tail + 2 {
            time_cell(self.t_policy_done)
        } else if c == tail + 3 {
            time_cell(self.t_sent)
        } else {
            Cell::Int8(self.action)
        }
    }

    open spec fn tags_in(width: nat) -> nat {
        ((width - 10) / 4) as nat
    }

    open spec fn n_columns(n_tags: nat) -> nat {
        10 + 4 * n_tags
    }

    open spec fn kind_of(n_tags: nat, c: int) -> Kind {
        let tail = 5 + 4 * n_tags;
        if c == 0 {
            Kind::UInt64
        } else if c < 5 {
            Kind::Nanoseconds
        } else if c < tail {
            tag_kind((c - 5) % 4)
        } else if c == tail {
            Kind::Boolean
        } else if c < tail + 4 {
            Kind::Nanoseconds
        } else {
            Kind::Int8
        }
    }

    open spec fn batchable(rows: Seq<Self>, width: nat) -> bool {
        width >= 10
    }

    fn can_batch(rows: &[Self], width: usize) -> (b: bool) {
        width >= 10
    }

    fn tag_count(&self) -> (n: usize) {
        self.tags.len()
    }

    fn tag(&self, t: usize) -> (tag: Option<TagRow>) {
        if t < self.tags.len() {
            self.tags[t]
        } else {
            None
        }
    }
}

/// Makes a batch of frame rows.
pub fn frames_batch(schema: &Arc<Schema>, rows: &[FrameRow]) -> (r: Result<Batch, BatchError>)
    requires
        schema_fields(**schema).len() >= 10,
    ensures
        batched(schema_fields(**schema), rows@, r),
{
    let n_tags: usize = (field_count(schema) - 10) / PER_TAG;
    match check_tags(rows, n_tags) {
        Ok(()) => {},
        Err(e) => return Err(e),
    }
    let mut frame: Vec<Option<u64>> = Vec::new();
    let mut t_capture: Vec<Option<i64>> = Vec::new();
    let mut t_arrival: Vec<Option<i64>> = Vec::new();
    let mut t_detect_start: Vec<Option<i64>> = Vec::new();
    let mut t_detected: Vec<Option<i64>> = Vec::new();
    let mut acted: Vec<Option<bool>> = Vec::new();
    let mut t_policy_start: Vec<Option<i64>> = Vec::new();
    let mut t_policy_done: Vec<Option<i64>> = Vec::new();
    let mut t_sent: Vec<Option<i64>> = Vec::new();
    let mut action: Vec<Option<i8>> = Vec::new();
    let mut i: usize = 0;
    while i < rows.len()
        invariant
            i <= rows@.len(),
            frame@.len() == i,
            t_capture@.len() == i,
            t_arrival@.len() == i,
            t_detect_start@.len() == i,
            t_detected@.len() == i,
            acted@.len() == i,
            t_policy_start@.len() == i,
            t_policy_done@.len() == i,
            t_sent@.len() == i,
            action@.len() == i,
            forall|j: int| 0 <= j < i ==> #[trigger] frame@[j] == Some(rows@[j].frame),
            forall|j: int| 0 <= j < i ==> #[trigger] t_capture@[j] == Some(rows@[j].t_capture),
            forall|j: int| 0 <= j < i ==> #[trigger] t_arrival@[j] == Some(rows@[j].t_arrival),
            forall|j: int|
                0 <= j < i ==> #[trigger] t_detect_start@[j] == Some(rows@[j].t_detect_start),
            forall|j: int| 0 <= j < i ==> #[trigger] t_detected@[j] == Some(rows@[j].t_detected),
            forall|j: int| 0 <= j < i ==> #[trigger] acted@[j] == Some(rows@[j].acted),
            forall|j: int| 0 <= j < i ==> #[trigger] t_policy_start@[j] == rows@[j].t_policy_start,
            forall|j: int| 0 <= j < i ==> #[trigger] t_policy_done@[j] == rows@[j].t_policy_done,
            forall|j: int| 0 <= j < i ==> #[trigger] t_sent@[j] == rows@[j].t_sent,
            forall|j: int| 0 <= j < i ==> #[trigger] action@[j] == Some(rows@[j].action),
        decreases rows@.len() - i,
    {
        let r: &FrameRow = &rows[i];
        frame.push(Some(r.frame));
        t_capture.push(Some(r.t_capture));
        t_arrival.push(Some(r.t_arrival));
        t_detect_start.push(Some(r.t_detect_start));
        t_detected.push(Some(r.t_detected));
        acted.push(Some(r.acted));
        t_policy_start.push(r.t_policy_start);
        t_policy_done.push(r.t_policy_done);
        t_sent.push(r.t_sent);
        action.push(Some(r.action));
        i = i + 1;
    }
    let mut columns: Vec<Column> = Vec::new();
    let frame: Column = uint64_column(frame);
    assert(cells(frame) =~= column_of(rows@, 0));
    add_column(&mut columns, frame, rows, n_tags);
    let t_capture: Column = nanoseconds_column(t_capture);
    assert(cells(t_capture) =~= column_of(rows@, 1));
    add_column(&mut columns, t_capture, rows, n_tags);
    let t_arrival: Column = nanoseconds_column(t_arrival);
    assert(cells(t_arrival) =~= column_of(rows@, 2));
    add_column(&mut columns, t_arrival, rows, n_tags);
    let t_detect_start: Column = nanoseconds_column(t_detect_start);
    assert(cells(t_detect_start) =~= column_of(rows@, 3));
    add_column(&mut columns, t_detect_start, rows, n_tags);
    let t_detected: Column = nanoseconds_column(t_detected);
    assert(cells(t_detected) =~= column_of(rows@, 4));
    add_column(&mut columns, t_detected, rows, n_tags);
    let mut t: usize = 0;
    while t < n_tags
        invariant
            t <= n_tags,
            all_tagged(rows@, n_tags as nat),
            columns@.len() == 5 + 4 * t,
            holds(columns@, rows@, n_tags as nat),
        decreases n_tags - t,
    {
        add_tag(&mut columns, rows, t, n_tags);
        t = t + 1;
    }
    let ghost tail = columns@.len() as int;
    let acted: Column = boolean_column(acted);
    assert(cells(acted) =~= column_of(rows@, tail));
    add_column(&mut columns, acted, rows, n_tags);
    let t_policy_start: Column = nanoseconds_column(t_policy_start);
    assert(cells(t_policy_start) =~= column_of(rows@, tail + 1));
    add_column(&mut columns, t_policy_start, rows, n_tags);
    let t_policy_done: Column = nanoseconds_column(t_policy_done);
    assert(cells(t_policy_done) =~= column_of(rows@, tail + 2));
    add_column(&mut columns, t_policy_done, rows, n_tags);
    let t_sent: Column = nanoseconds_column(t_sent);
    assert(cells(t_sent) =~= column_of(rows@, tail + 3));
    add_column(&mut columns, t_sent, rows, n_tags);
    let action: Column = int8_column(action);
    assert(cells(action) =~= column_of(rows@, tail + 4));
    add_column(&mut columns, action, rows, n_tags);
    batch_of(schema, columns, rows, n_tags)
}

impl Batched for FrameRow {
    fn batch(schema: &Arc<Schema>, rows: &[Self]) -> (r: Result<Batch, BatchError>) {
        frames_batch(schema, rows)
    }
}

/// One frame that went through detection, and the plan made on it, if one
/// was.
#[derive(Debug)]
pub struct ObsRow {
    pub frame: u64,
    pub t_capture: i64,
    pub t_detected: i64,
    /// One entry per recorded tag id, in the order of the schema's columns.
    pub tags: Vec<Option<TagRow>>,
    pub t_policy: Option<i64>,
    pub t_plan: Option<i64>,
    pub k_start: Option<i64>,
    pub plan: Option<Vec<i8>>,
}

/// How many actions the plans of these rows hold between them.
pub open spec fn planned(rows: Seq<ObsRow>) -> nat
    decreases rows.len(),
{
    if rows.len() == 0 {
        0
    } else {
        planned(rows.drop_last()) + match rows.last().plan {
            Some(p) => p@.len(),
            None => 0,
        }
    }
}

/// More rows hold no fewer actions.
proof fn lemma_planned_grows(rows: Seq<ObsRow>, n: int)
    requires
        0 <= n <= rows.len(),
    ensures
        planned(rows.take(n)) <= planned(rows),
    decreases rows.len(),
{
    if n < rows.len() {
        lemma_planned_grows(rows.drop_last(), n);
        assert(rows.drop_last().take(n) =~= rows.take(n));
    } else {
        assert(rows.take(n) =~= rows);
    }
}

impl Row for ObsRow {
    open spec fn tags(&self) -> Seq<Option<TagRow>> {
        self.tags@
    }

    open spec fn cell(&self, c: int) -> Cell {
        let tail = 3 + 4 * self.tags@.len();
        if c == 0 {
            Cell::UInt64(self.frame)
        } else if c == 1 {
            Cell::Nanoseconds(self.t_capture)
        } else if c == 2 {
            Cell::Nanoseconds(self.t_detected)
        } else if c < tail {
            tag_cell(self.tags@[(c - 3) / 4], (c - 3) % 4)
        } else if c == tail {
            time_cell(self.t_policy)
        } else if c == tail + 1 {
            time_cell(self.t_plan)
        } else if c == tail + 2 {
            match self.k_start {
                Some(k) => Cell::Int64(k),
                None => Cell::Null,
            }
        } else {
            match self.plan {
                Some(p) => Cell::Int8s(p@),
                None => Cell::Null,
            }
        }
    }

    open spec fn tags_in(width: nat) -> nat {
        ((width - 7) / 4) as nat
    }

    open spec fn n_columns(n_tags: nat) -> nat {
        7 + 4 * n_tags
    }

    open spec fn kind_of(n_tags: nat, c: int) -> Kind {
        let tail = 3 + 4 * n_tags;
        if c == 0 {
            Kind::UInt64
        } else if c < 3 {
            Kind::Nanoseconds
        } else if c < tail {
            tag_kind((c - 3) % 4)
        } else if c < tail + 2 {
            Kind::Nanoseconds
        } else if c == tail + 2 {
            Kind::Int64
        } else {
            Kind::Int8s
        }
    }

    open spec fn batchable(rows: Seq<Self>, width: nat) -> bool {
        width >= 7 && planned(rows) <= i32::MAX
    }

    fn can_batch(rows: &[Self], width: usize) -> (b: bool) {
        let mut left: usize = i32::MAX as usize;
        let mut i: usize = 0;
        while i < rows.len()
            invariant
                i <= rows@.len(),
                left == i32::MAX - planned(rows@.take(i as int)),
            decreases rows@.len() - i,
        {
            proof {
                lemma_planned_grows(rows@, i + 1);
                assert(rows@.take(i + 1).drop_last() =~= rows@.take(i as int));
            }
            if let Some(plan) = &rows[i].plan {
                if plan.len() > left {
                    return false;
                }
                left = left - plan.len();
            }
            i = i + 1;
        }
        assert(rows@.take(i as int) =~= rows@);
        width >= 7
    }

    fn tag_count(&self) -> (n: usize) {
        self.tags.len()
    }

    fn tag(&self, t: usize) -> (tag: Option<TagRow>) {
        if t < self.tags.len() {
            self.tags[t]
        } else {
            None
        }
    }
}

/// A copy of some actions.
pub fn copied(actions: &Vec<i8>) -> (c: Vec<i8>)
    ensures
        c@ == actions@,
{
    let mut c: Vec<i8> = Vec::new();
    let mut i: usize = 0;
    while i < actions.len()
        invariant
            i <= actions@.len(),
            c@ == actions@.take(i as int),
        decreases actions@.len() - i,
    {
        c.push(actions[i]);
        i = i + 1;
        assert(c@ =~= actions@.take(i as int));
    }
    assert(c@ =~= actions@);
    c
}

/// The plans of some rows.
fn plans(rows: &[ObsRow]) -> (plans: Vec<Option<Vec<i8>>>)
    ensures
        plans@.len() == rows@.len(),
        forall|j: int|
            0 <= j < rows@.len() ==> int8s_cells(plans@)[j] == (match (#[trigger] rows@[j]).plan {
                Some(p) => Cell::Int8s(p@),
                None => Cell::Null,
            }),
        bytes_in(plans@) == planned(rows@),
{
    let mut plans: Vec<Option<Vec<i8>>> = Vec::new();
    let mut i: usize = 0;
    while i < rows.len()
        invariant
            i <= rows@.len(),
            plans@.len() == i,
            forall|j: int|
                0 <= j < i ==> (#[trigger] plans@[j] is Some <==> rows@[j].plan is Some) && (
                plans@[j] is Some ==> plans@[j]->0@ == rows@[j].plan->0@),
            bytes_in(plans@) == planned(rows@.take(i as int)),
        decreases rows@.len() - i,
    {
        let ghost before = plans@;
        match &rows[i].plan {
            Some(p) => {
                plans.push(Some(copied(p)));
            },
            None => plans.push(None),
        }
        assert(plans@.drop_last() =~= before);
        assert(rows@.take(i + 1).drop_last() =~= rows@.take(i as int));
        i = i + 1;
    }
    assert(rows@.take(i as int) =~= rows@);
    plans
}

/// Makes a batch of observations.
pub fn observations_batch(schema: &Arc<Schema>, rows: &[ObsRow]) -> (r: Result<Batch, BatchError>)
    requires
        schema_fields(**schema).len() >= 7,
        planned(rows@) <= i32::MAX,
    ensures
        batched(schema_fields(**schema), rows@, r),
{
    let n_tags: usize = (field_count(schema) - 7) / PER_TAG;
    match check_tags(rows, n_tags) {
        Ok(()) => {},
        Err(e) => return Err(e),
    }
    let mut frame: Vec<Option<u64>> = Vec::new();
    let mut t_capture: Vec<Option<i64>> = Vec::new();
    let mut t_detected: Vec<Option<i64>> = Vec::new();
    let mut t_policy: Vec<Option<i64>> = Vec::new();
    let mut t_plan: Vec<Option<i64>> = Vec::new();
    let mut k_start: Vec<Option<i64>> = Vec::new();
    let mut i: usize = 0;
    while i < rows.len()
        invariant
            i <= rows@.len(),
            frame@.len() == i,
            t_capture@.len() == i,
            t_detected@.len() == i,
            t_policy@.len() == i,
            t_plan@.len() == i,
            k_start@.len() == i,
            forall|j: int| 0 <= j < i ==> #[trigger] frame@[j] == Some(rows@[j].frame),
            forall|j: int| 0 <= j < i ==> #[trigger] t_capture@[j] == Some(rows@[j].t_capture),
            forall|j: int| 0 <= j < i ==> #[trigger] t_detected@[j] == Some(rows@[j].t_detected),
            forall|j: int| 0 <= j < i ==> #[trigger] t_policy@[j] == rows@[j].t_policy,
            forall|j: int| 0 <= j < i ==> #[trigger] t_plan@[j] == rows@[j].t_plan,
            forall|j: int| 0 <= j < i ==> #[trigger] k_start@[j] == rows@[j].k_start,
        decreases rows@.len() - i,
    {
        let r: &ObsRow = &rows[i];
        frame.push(Some(r.frame));
        t_capture.push(Some(r.t_capture));
        t_detected.push(Some(r.t_detected));
        t_policy.push(r.t_policy);
        t_plan.push(r.t_plan);
        k_start.push(r.k_start);
        i = i + 1;
    }
    let mut columns: Vec<Column> = Vec::new();
    let frame: Column = uint64_column(frame);
    assert(cells(frame) =~= column_of(rows@, 0));
    add_column(&mut columns, frame, rows, n_tags);
    let t_capture: Column = nanoseconds_column(t_capture);
    assert(cells(t_capture) =~= column_of(rows@, 1));
    add_column(&mut columns, t_capture, rows, n_tags);
    let t_detected: Column = nanoseconds_column(t_detected);
    assert(cells(t_detected) =~= column_of(rows@, 2));
    add_column(&mut columns, t_detected, rows, n_tags);
    let mut t: usize = 0;
    while t < n_tags
        invariant
            t <= n_tags,
            all_tagged(rows@, n_tags as nat),
            columns@.len() == 3 + 4 * t,
            holds(columns@, rows@, n_tags as nat),
        decreases n_tags - t,
    {
        add_tag(&mut columns, rows, t, n_tags);
        t = t + 1;
    }
    let ghost tail = columns@.len() as int;
    let t_policy: Column = nanoseconds_column(t_policy);
    assert(cells(t_policy) =~= column_of(rows@, tail));
    add_column(&mut columns, t_policy, rows, n_tags);
    let t_plan: Column = nanoseconds_column(t_plan);
    assert(cells(t_plan) =~= column_of(rows@, tail + 1));
    add_column(&mut columns, t_plan, rows, n_tags);
    let k_start: Column = int64_column(k_start);
    assert(cells(k_start) =~= column_of(rows@, tail + 2));
    add_column(&mut columns, k_start, rows, n_tags);
    let plan: Column = int8s_column(plans(rows));
    assert(cells(plan) =~= column_of(rows@, tail + 3));
    add_column(&mut columns, plan, rows, n_tags);
    batch_of(schema, columns, rows, n_tags)
}

impl Batched for ObsRow {
    fn batch(schema: &Arc<Schema>, rows: &[Self]) -> (r: Result<Batch, BatchError>) {
        observations_batch(schema, rows)
    }
}

/// One grid slot.
#[derive(Clone, Copy, Debug)]
pub struct ActRow {
    pub slot: i64,
    pub action: i8,
    /// The frame whose plan supplied the action; None for a gap.
    pub frame: Option<u64>,
    pub index: Option<u8>,
}

impl Row for ActRow {
    open spec fn tags(&self) -> Seq<Option<TagRow>> {
        Seq::empty()
    }

    open spec fn cell(&self, c: int) -> Cell {
        if c == 0 {
            Cell::Int64(self.slot)
        } else if c == 1 {
            Cell::Int8(self.action)
        } else if c == 2 {
            match self.frame {
                Some(f) => Cell::UInt64(f),
                None => Cell::Null,
            }
        } else {
            match self.index {
                Some(i) => Cell::UInt8(i),
                None => Cell::Null,
            }
        }
    }

    open spec fn tags_in(width: nat) -> nat {
        0
    }

    open spec fn n_columns(n_tags: nat) -> nat {
        4
    }

    open spec fn kind_of(n_tags: nat, c: int) -> Kind {
        if c == 0 {
            Kind::Int64
        } else if c == 1 {
            Kind::Int8
        } else if c == 2 {
            Kind::UInt64
        } else {
            Kind::UInt8
        }
    }

    open spec fn batchable(rows: Seq<Self>, width: nat) -> bool {
        true
    }

    fn can_batch(rows: &[Self], width: usize) -> (b: bool) {
        true
    }

    fn tag_count(&self) -> (n: usize) {
        0
    }

    fn tag(&self, t: usize) -> (tag: Option<TagRow>) {
        None
    }
}

/// Makes a batch of slots.
pub fn actions_batch(schema: &Arc<Schema>, rows: &[ActRow]) -> (r: Result<Batch, BatchError>)
    ensures
        batched(schema_fields(**schema), rows@, r),
{
    let mut slot: Vec<Option<i64>> = Vec::new();
    let mut action: Vec<Option<i8>> = Vec::new();
    let mut frame: Vec<Option<u64>> = Vec::new();
    let mut index: Vec<Option<u8>> = Vec::new();
    let mut i: usize = 0;
    while i < rows.len()
        invariant
            i <= rows@.len(),
            slot@.len() == i,
            action@.len() == i,
            frame@.len() == i,
            index@.len() == i,
            forall|j: int| 0 <= j < i ==> #[trigger] slot@[j] == Some(rows@[j].slot),
            forall|j: int| 0 <= j < i ==> #[trigger] action@[j] == Some(rows@[j].action),
            forall|j: int| 0 <= j < i ==> #[trigger] frame@[j] == rows@[j].frame,
            forall|j: int| 0 <= j < i ==> #[trigger] index@[j] == rows@[j].index,
        decreases rows@.len() - i,
    {
        let r: ActRow = rows[i];
        slot.push(Some(r.slot));
        action.push(Some(r.action));
        frame.push(r.frame);
        index.push(r.index);
        i = i + 1;
    }
    let mut columns: Vec<Column> = Vec::new();
    let slot: Column = int64_column(slot);
    assert(cells(slot) =~= column_of(rows@, 0));
    add_column(&mut columns, slot, rows, 0);
    let action: Column = int8_column(action);
    assert(cells(action) =~= column_of(rows@, 1));
    add_column(&mut columns, action, rows, 0);
    let frame: Column = uint64_column(frame);
    assert(cells(frame) =~= column_of(rows@, 2));
    add_column(&mut columns, frame, rows, 0);
    let index: Column = uint8_column(index);
    assert(cells(index) =~= column_of(rows@, 3));
    add_column(&mut columns, index, rows, 0);
    batch_of(schema, columns, rows, 0)
}

impl Batched for ActRow {
    fn batch(schema: &Arc<Schema>, rows: &[Self]) -> (r: Result<Batch, BatchError>) {
        actions_batch(schema, rows)
    }
}

/// The actions of some rows' plans are those of each row together, and a row
/// without a plan has none.
pub proof fn law_planned_actions_add_up(rows: Seq<ObsRow>, row: ObsRow)
    ensures
        row.plan is Some ==> planned(rows.push(row)) == planned(rows) + row.plan->0@.len(),
        row.plan is None ==> planned(rows.push(row)) == planned(rows),
        planned(Seq::empty()) == 0,
{
    assert(rows.push(row).drop_last() =~= rows);
}

/// A column has a cell for each row, in their order.
pub proof fn law_a_column_has_a_cell_for_each_row<R: Row>(
    rows: Seq<R>,
    n_tags: nat,
    c: int,
    i: int,
)
    requires
        0 <= c < R::n_columns(n_tags),
        0 <= i < rows.len(),
    ensures
        columns_of(rows, n_tags).len() == R::n_columns(n_tags),
        columns_of(rows, n_tags)[c].len() == rows.len(),
        columns_of(rows, n_tags)[c][i] == rows[i].cell(c),
{
}

} // verus!
