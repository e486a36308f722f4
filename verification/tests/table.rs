use arrow_array::cast::AsArray;
use arrow_array::types::{
    DurationNanosecondType, Float32Type, Int64Type, Int8Type, UInt64Type, UInt8Type,
};
use arrow_array::{Array, RecordBatch};
use arrow_ipc::reader::StreamReader;
use harness::record::{rel_ns, ActRow, BatchError, FrameRow, ObsRow, TagRow};
use harness::table::{
    actions_schema, frames_schema, observations_schema, Table, TableError, TableSchema,
};
use std::collections::HashMap;
use std::time::Duration;

fn seen() -> TagRow {
    let pose: [f32; 7] = [0.1, 0.2, 0.9, 1.0, 0.0, 0.0, 0.0];
    TagRow {
        pose: pose.map(f32::to_bits),
        err: 1e-6f32.to_bits(),
        alt_err: None,
        margin: 80.0f32.to_bits(),
    }
}

fn frame(frame: u64, tags: Vec<Option<TagRow>>) -> FrameRow {
    FrameRow {
        frame,
        t_capture: -5,
        t_arrival: 10,
        t_detect_start: 11,
        t_detected: 12,
        tags,
        acted: true,
        t_policy_start: Some(13),
        t_policy_done: Some(14),
        t_sent: Some(15),
        action: -30,
    }
}

#[test]
fn the_frames_table_survives_a_round_trip() {
    let meta = HashMap::from([("seed".to_string(), "1".to_string())]);
    let mut table: Table<FrameRow> = Table::create(frames_schema(&[0, 2], meta)).unwrap();
    let mut file = table.take_bytes();
    table.push(FrameRow {
        frame: 7,
        t_capture: -5,
        t_arrival: 10,
        t_detect_start: 11,
        t_detected: 12,
        tags: vec![Some(seen()), None],
        acted: true,
        t_policy_start: Some(13),
        t_policy_done: Some(14),
        t_sent: Some(15),
        action: -30,
    });
    table.flush().unwrap(); // two batches, to prove the stream concatenates
    file.extend(table.take_bytes());
    table.push(FrameRow {
        frame: 8,
        t_capture: 30,
        t_arrival: 31,
        t_detect_start: 32,
        t_detected: 40,
        tags: vec![None, Some(seen())],
        acted: false,
        t_policy_start: None,
        t_policy_done: None,
        t_sent: None,
        action: -30,
    });
    assert_eq!(table.finish().unwrap(), 2);
    file.extend(table.take_bytes());

    let reader = StreamReader::try_new(file.as_slice(), None).unwrap();
    assert_eq!(&reader.schema().metadata()["seed"], "1");
    let batches: Vec<_> = reader.map(|b| b.unwrap()).collect();
    assert_eq!(batches.len(), 2);
    let (b, c) = (&batches[0], &batches[1]);
    let t = |b: &RecordBatch, n: &str| {
        b.column_by_name(n).unwrap().as_primitive::<DurationNanosecondType>().value(0)
    };
    assert_eq!(t(b, "t_capture"), -5);
    assert_eq!(t(b, "t_arrival"), 10);
    assert_eq!(t(c, "t_detected"), 40);
    assert_eq!(t(b, "t_sent"), 15);
    let pose = b.column_by_name("tag0_pose").unwrap().as_fixed_size_list();
    assert_eq!(pose.value(0).as_primitive::<Float32Type>().value(2), 0.9);
    assert!(b.column_by_name("tag2_pose").unwrap().is_null(0));
    assert!(b.column_by_name("tag0_alt_err").unwrap().is_null(0));
    assert!(c.column_by_name("tag0_pose").unwrap().is_null(0));
    assert!(b.column_by_name("acted").unwrap().as_boolean().value(0));
    assert!(!c.column_by_name("acted").unwrap().as_boolean().value(0));
    assert!(c.column_by_name("t_policy_start").unwrap().is_null(0));
    assert_eq!(c.column_by_name("action").unwrap().as_primitive::<Int8Type>().value(0), -30);

    // Every other cell of the first row, too.
    assert_eq!(b.column_by_name("frame").unwrap().as_primitive::<UInt64Type>().value(0), 7);
    assert_eq!(t(b, "t_detect_start"), 11);
    assert_eq!(t(b, "t_policy_start"), 13);
    assert_eq!(t(b, "t_policy_done"), 14);
    let f = |n: &str| b.column_by_name(n).unwrap().as_primitive::<Float32Type>().value(0);
    assert_eq!(f("tag0_err"), 1e-6);
    assert_eq!(f("tag0_margin"), 80.0);
    assert_eq!(b.num_columns(), 18);
}

#[test]
fn both_tables_survive_a_round_trip() {
    let meta = HashMap::from([("period_ns".to_string(), "20000000".to_string())]);

    let mut obs: Table<ObsRow> =
        Table::create(observations_schema(&[0, 2], meta.clone())).unwrap();
    obs.push(ObsRow {
        frame: 7,
        t_capture: -5,
        t_detected: 12,
        tags: vec![Some(seen()), None],
        t_policy: Some(13),
        t_plan: Some(14),
        k_start: Some(3),
        plan: Some(vec![1, -2, 3]),
    });
    obs.flush().unwrap(); // two batches, to prove the stream concatenates
    obs.push(ObsRow {
        frame: 8,
        t_capture: 30,
        t_detected: 40,
        tags: vec![None, Some(seen())],
        t_policy: None,
        t_plan: None,
        k_start: None,
        plan: None,
    });
    assert_eq!(obs.finish().unwrap(), 2);

    let mut act: Table<ActRow> = Table::create(actions_schema(meta)).unwrap();
    act.push(ActRow { slot: 0, action: 0, frame: None, index: None });
    act.push(ActRow { slot: 1, action: -30, frame: Some(7), index: Some(4) });
    assert_eq!(act.finish().unwrap(), 2);

    let file = obs.take_bytes();
    let reader = StreamReader::try_new(file.as_slice(), None).unwrap();
    assert_eq!(&reader.schema().metadata()["period_ns"], "20000000");
    let batches: Vec<_> = reader.map(|b| b.unwrap()).collect();
    assert_eq!(batches.len(), 2);
    let b = &batches[0];
    assert_eq!(
        b.column_by_name("t_capture").unwrap().as_primitive::<DurationNanosecondType>().value(0),
        -5
    );
    let pose = b.column_by_name("tag0_pose").unwrap().as_fixed_size_list();
    assert_eq!(pose.value(0).as_primitive::<Float32Type>().value(2), 0.9);
    assert!(b.column_by_name("tag2_pose").unwrap().is_null(0));
    assert!(b.column_by_name("tag0_alt_err").unwrap().is_null(0));
    let plan = b.column_by_name("plan").unwrap().as_list::<i32>();
    assert_eq!(plan.value(0).as_primitive::<Int8Type>().values(), &[1, -2, 3]);
    assert!(batches[1].column_by_name("plan").unwrap().is_null(0));
    assert!(batches[1].column_by_name("tag0_pose").unwrap().is_null(0));
    assert_eq!(b.column_by_name("k_start").unwrap().as_primitive::<Int64Type>().value(0), 3);

    let file = act.take_bytes();
    let reader = StreamReader::try_new(file.as_slice(), None).unwrap();
    let b = reader.map(|b| b.unwrap()).next().unwrap();
    assert!(b.column_by_name("frame").unwrap().is_null(0));
    assert_eq!(b.column_by_name("action").unwrap().as_primitive::<Int8Type>().value(1), -30);
    assert_eq!(b.column_by_name("slot").unwrap().as_primitive::<Int64Type>().value(1), 1);
    assert_eq!(b.column_by_name("index").unwrap().as_primitive::<UInt8Type>().value(1), 4);
}

#[test]
fn a_stream_cut_short_reads_up_to_its_last_batch() {
    let mut table: Table<FrameRow> = Table::create(frames_schema(&[0], HashMap::new())).unwrap();
    for i in 0..3 {
        table.push(frame(i, vec![Some(seen())]));
        table.push(frame(100 + i, vec![None]));
        table.flush().unwrap();
    }
    let mut file = table.take_bytes();
    file.truncate(file.len() - 20);
    let batches: Vec<RecordBatch> =
        StreamReader::try_new(file.as_slice(), None).unwrap().map_while(|b| b.ok()).collect();
    assert_eq!(batches.len(), 2);
    assert_eq!(batches[1].column(0).as_primitive::<UInt64Type>().values(), &[1, 101]);
}

#[test]
fn a_row_with_another_number_of_tags_is_refused_and_kept() {
    let mut table: Table<FrameRow> =
        Table::create(frames_schema(&[0, 1, 2], HashMap::new())).unwrap();
    table.push(frame(1, vec![None, None, None]));
    table.push(frame(2, vec![None]));
    let refused = table.flush();
    assert!(matches!(
        refused,
        Err(TableError::Batch(BatchError::TagCount { row: 1, schema: 3 }))
    ));
    assert!(table.finish().is_err());
}

#[test]
fn rows_that_the_schema_does_not_describe_are_refused() {
    // A frames table of an observations schema with as many columns.
    let schema = observations_schema(&[0], HashMap::new());
    let mut table: Table<FrameRow> = Table::create(schema).unwrap();
    table.push(frame(1, vec![]));
    assert!(matches!(table.flush(), Err(TableError::Batch(BatchError::Schema(_)))));
}

#[test]
fn an_empty_flush_writes_nothing() {
    let mut table: Table<ActRow> = Table::create(actions_schema(HashMap::new())).unwrap();
    assert!(!table.take_bytes().is_empty());
    table.flush().unwrap();
    assert!(table.take_bytes().is_empty());
    assert_eq!(table.finish().unwrap(), 0);
    assert_eq!(table.take_bytes(), [255, 255, 255, 255, 0, 0, 0, 0]);
    assert!(matches!(table.finish(), Err(TableError::Stream(_))));
}

#[test]
fn columns_come_in_the_order_of_the_tags() {
    let s = frames_schema(&[3, 17], HashMap::new());
    let s = s.arrow();
    let names: Vec<&str> = s.fields().iter().map(|f| f.name().as_str()).collect();
    assert_eq!(
        names,
        [
            "frame", "t_capture", "t_arrival", "t_detect_start", "t_detected", "tag3_pose",
            "tag3_err", "tag3_alt_err", "tag3_margin", "tag17_pose", "tag17_err", "tag17_alt_err",
            "tag17_margin", "acted", "t_policy_start", "t_policy_done", "t_sent", "action"
        ]
    );
    let nullable: Vec<bool> = s.fields().iter().map(|f| f.is_nullable()).collect();
    assert_eq!(nullable.iter().filter(|n| **n).count(), 8 + 3);
    assert!(!nullable[17] && nullable[16] && !nullable[13]);
}

#[test]
fn a_schema_too_long_to_write_is_refused() {
    let long = String::from_utf8(vec![0; i32::MAX as usize]).unwrap();
    let schema = actions_schema(HashMap::from([("note".to_string(), long)]));
    assert!(!schema.can_write());
    let refused: Result<Table<ActRow>, TableError> = Table::create(schema);
    assert!(matches!(refused, Err(TableError::Schema)));
    assert!(actions_schema(HashMap::new()).can_write());
}

#[test]
fn a_table_starts_with_its_schema_alone() {
    let meta = |seed: &str| HashMap::from([("seed".to_string(), seed.to_string())]);
    let start = |seed: &str| {
        let mut t: Table<ActRow> = Table::create(actions_schema(meta(seed))).unwrap();
        t.take_bytes()
    };
    assert_eq!(start("1"), start("1"));
    assert_ne!(start("1"), start("2"));
    // What is handed out later goes on from there.
    let mut t: Table<ActRow> = Table::create(actions_schema(meta("1"))).unwrap();
    t.push(ActRow { slot: 0, action: 1, frame: None, index: None });
    t.flush().unwrap();
    let file = t.take_bytes();
    assert!(file.len() > start("1").len());
    assert_eq!(file[..start("1").len()], start("1"));
}

/// How many bytes a table starts with, and how many there is room for.
fn header(schema: TableSchema) -> (usize, usize) {
    let s = schema.arrow();
    let names: usize = s.fields().iter().map(|f| f.name().len() + 256).sum();
    let texts: usize = s.metadata().iter().map(|(k, v)| k.len() + v.len() + 64).sum();
    let room = 1024 + names + texts;
    let mut t: Table<ActRow> = Table::create(schema).unwrap();
    (t.take_bytes().len(), room)
}

#[test]
fn a_schema_takes_up_no_more_than_is_counted() {
    for n in [0, 1, 7, 8, 9, 63, 64, 65, 1000] {
        let meta: HashMap<String, String> =
            (0..n).map(|i| (i.to_string(), "v".repeat(i % 11))).collect();
        let ids: Vec<usize> = (0..n).map(|i| usize::MAX - i).collect();
        for schema in [
            actions_schema(meta.clone()),
            frames_schema(&ids, meta.clone()),
            observations_schema(&ids, meta.clone()),
        ] {
            let (bytes, room) = header(schema);
            assert!(bytes <= room);
        }
        let (bytes, room) = header(frames_schema(&ids, HashMap::new()));
        assert!(bytes <= room && room <= 8192 + 2048 * n);
    }
}

#[test]
fn times_are_relative_to_t0() {
    let t0 = Duration::from_secs(100);
    assert_eq!(rel_ns(Duration::from_secs(101), t0), 1_000_000_000);
    assert_eq!(rel_ns(Duration::from_nanos(99_999_999_999), t0), -1);
}

#[test]
fn a_table_that_has_ended_takes_no_more() {
    let mut t: Table<ActRow> = Table::create(actions_schema(HashMap::new())).unwrap();
    t.push(ActRow { slot: 0, action: 1, frame: None, index: None });
    assert_eq!(t.finish().unwrap(), 1);
    assert!(t.flush().is_ok()); // there is nothing to write
    assert!(matches!(t.finish(), Err(TableError::Stream(_))));
    let ended = t.take_bytes();
    t.push(ActRow { slot: 1, action: 2, frame: None, index: None });
    assert!(matches!(t.flush(), Err(TableError::Stream(_))));
    assert!(t.take_bytes().is_empty());
    let read = StreamReader::try_new(ended.as_slice(), None).unwrap();
    let rows: usize = read.map(|b| b.unwrap().num_rows()).sum();
    assert_eq!(rows, 1);
}

#[test]
fn a_batch_holds_only_so_many_planned_actions() {
    let t: Table<ObsRow> = Table::create(observations_schema(&[0], HashMap::new())).unwrap();
    assert!(t.can_flush());
    // A table needs the columns its rows fill.
    let t: Table<ObsRow> = Table::create(actions_schema(HashMap::new())).unwrap();
    assert!(!t.can_flush());
}
