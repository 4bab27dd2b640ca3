//! Spilling, page-cache hygiene and configured numbers.
use std::io::Cursor;
use std::sync::Arc;

use arrow::ipc::reader::StreamReader;
use arrow::ipc::writer::StreamWriter;
use arrow_array::{Int32Array, RecordBatch, StringArray};
use arrow_schema::{DataType, Field, Schema, SchemaRef};
use sedona_core::decimal::{decimal_text, parse_up_to};
use sedona_core::runtime::worker_threads;
use sedona_core::spill::{RecordBatchSpillWriter, RowRange, SpillMetrics};
use sedona_core::spill_writeback::{
    chunk_bytes, SpillWritebackAdvisor, WritebackAction, DEFAULT_CHUNK_BYTES, MAX_LAG_CHUNKS,
};

const NONE: SpillMetrics = SpillMetrics {
    spill_file_count: 0,
    spilled_bytes: 0,
    spilled_rows: 0,
};

fn ranges(pairs: &[(usize, usize)]) -> Vec<RowRange> {
    pairs
        .iter()
        .map(|(offset, length)| RowRange {
            offset: *offset,
            length: *length,
        })
        .collect()
}

fn create_test_schema() -> SchemaRef {
    Arc::new(Schema::new(vec![
        Field::new("id", DataType::Int32, false),
        Field::new("name", DataType::Utf8, true),
    ]))
}

fn create_test_record_batch(num_rows: usize) -> RecordBatch {
    let ids: Int32Array = (0..num_rows as i32).collect();
    let names: StringArray = (0..num_rows)
        .map(|i| {
            if i % 3 == 0 {
                None
            } else {
                Some(format!("name_{i}"))
            }
        })
        .collect();
    RecordBatch::try_new(create_test_schema(), vec![Arc::new(ids), Arc::new(names)]).unwrap()
}

/// Spills batches to memory in Arrow IPC format, as the writer says.
fn spill(threshold: Option<usize>, batches: Vec<RecordBatch>) -> (SpillMetrics, Vec<u8>) {
    let mut ipc = StreamWriter::try_new(Vec::new(), create_test_schema().as_ref()).unwrap();
    let mut writer = RecordBatchSpillWriter::try_new(NONE, threshold, false);
    for batch in batches {
        let slices = writer.write_batch(batch.num_rows(), batch.get_array_memory_size());
        for range in slices {
            let slice = batch.slice(range.offset, range.length);
            ipc.write(&slice).unwrap();
            let written = ipc.get_ref().len() as u64;
            writer.write_one_batch(slice.num_rows(), Some(written), DEFAULT_CHUNK_BYTES);
        }
    }
    ipc.finish().unwrap();
    let file = ipc.into_inner().unwrap();
    let (metrics, _) = writer.finish(file.len() as u64, true, DEFAULT_CHUNK_BYTES);
    (metrics, file)
}

fn read_back(file: Vec<u8>) -> StreamReader<Cursor<Vec<u8>>> {
    StreamReader::try_new(Cursor::new(file), None).unwrap()
}

#[test]
fn test_record_batch_spill_empty_batch_round_trip() {
    let schema = create_test_schema();
    let (metrics, file) = spill(None, vec![create_test_record_batch(0)]);

    assert_eq!(metrics.spill_file_count, 1);
    assert_eq!(metrics.spilled_rows, 0);

    let mut reader = read_back(file);
    let read = reader.next().unwrap().unwrap();
    assert_eq!(read.num_rows(), 0);
    assert_eq!(read.schema(), schema);
    assert!(reader.next().is_none());
}

#[test]
fn test_record_batch_spill_round_trip() {
    let schema = create_test_schema();
    let (batch1, batch2) = (create_test_record_batch(5), create_test_record_batch(3));
    let (metrics, file) = spill(None, vec![batch1.clone(), batch2.clone()]);

    assert_eq!(metrics.spill_file_count, 1);
    assert_eq!(metrics.spilled_rows, 8);
    assert!(metrics.spilled_bytes > 0);
    assert_eq!(metrics.spilled_bytes, file.len());

    let mut reader = read_back(file);
    assert_eq!(reader.schema(), schema);
    let read1 = reader.next().unwrap().unwrap();
    assert_eq!(read1.num_rows(), 5);
    assert_eq!(read1, batch1);
    let read2 = reader.next().unwrap().unwrap();
    assert_eq!(read2.num_rows(), 3);
    assert_eq!(read2, batch2);
    assert!(reader.next().is_none());
}

#[test]
fn test_record_batch_spill_auto_splitting() {
    let batch = create_test_record_batch(10);
    let (metrics, file) = spill(Some(1), vec![batch.clone()]);

    assert_eq!(metrics.spilled_rows, 10);
    assert!(metrics.spilled_bytes > 0);

    let mut total_rows = 0;
    for read in read_back(file) {
        let read = read.unwrap();
        assert_eq!(read, batch.slice(total_rows, read.num_rows()));
        total_rows += read.num_rows();
    }
    assert_eq!(total_rows, 10);
}

#[test]
fn batches_over_the_threshold_are_cut() {
    let writer = RecordBatchSpillWriter::try_new(NONE, Some(100), true);
    assert!(writer.compacts());
    assert_eq!(writer.calculate_rows_per_split(250, 10), 4);
    assert_eq!(
        writer.write_batch(10, 250),
        ranges(&[(0, 4), (4, 4), (8, 2)])
    );
    assert_eq!(writer.write_batch(10, 100), ranges(&[(0, 10)]));
    assert_eq!(writer.write_batch(10, 101), ranges(&[(0, 5), (5, 5)]));
    assert_eq!(writer.write_batch(2, 100_000), ranges(&[(0, 1), (1, 1)]));
    assert_eq!(writer.write_batch(0, 100_000), ranges(&[(0, 0)]));
    assert!(writer.needs_memory_size(1));
    assert!(!writer.needs_memory_size(0));
}

#[test]
fn batches_are_whole_without_a_threshold() {
    for threshold in [None, Some(0)] {
        let writer = RecordBatchSpillWriter::try_new(NONE, threshold, false);
        assert!(!writer.compacts());
        assert!(!writer.needs_memory_size(7));
        assert_eq!(writer.write_batch(7, usize::MAX), ranges(&[(0, 7)]));
    }
}

#[test]
fn counters_wrap_around() {
    let metrics = SpillMetrics {
        spill_file_count: usize::MAX,
        spilled_bytes: usize::MAX - 1,
        spilled_rows: usize::MAX,
    };
    let mut writer = RecordBatchSpillWriter::try_new(metrics, None, false);
    assert_eq!(writer.metrics().spill_file_count, 0);
    assert!(writer.write_one_batch(3, None, 1).is_empty());
    assert_eq!(writer.metrics().spilled_rows, 2);
    let (metrics, actions) = writer.finish(5, false, 1);
    assert_eq!(metrics.spilled_bytes, 3);
    assert!(actions.is_empty());
}

#[test]
fn a_spill_file_is_tended() {
    let mut writer = RecordBatchSpillWriter::try_new(NONE, None, false);
    assert_eq!(
        writer.write_one_batch(1, Some(25), 10),
        vec![
            WritebackAction::Queue { offset: 0, len: 10 },
            WritebackAction::Queue { offset: 10, len: 10 },
        ]
    );
    let (_, actions) = writer.finish(27, true, 10);
    assert_eq!(
        actions,
        vec![
            WritebackAction::Queue { offset: 20, len: 7 },
            WritebackAction::Drop { offset: 0, len: 0 },
        ]
    );
}

#[test]
fn advises_written_file_in_chunks() {
    let chunk = chunk_bytes(None);
    assert_eq!(chunk, 8 * 1024 * 1024);

    let mut advisor = SpillWritebackAdvisor::new();
    let payload = 1024 * 1024;
    let mut written = 0u64;
    while written < (MAX_LAG_CHUNKS + 1) * chunk {
        written += payload;
        advisor.advise_written(chunk, written);
    }
    assert_eq!(advisor.synced(), (MAX_LAG_CHUNKS + 1) * chunk);
    assert_eq!(advisor.dropped(), MAX_LAG_CHUNKS * chunk);

    advisor.advise_finished(chunk, written);
    assert_eq!(advisor.synced(), written);
    assert_eq!(advisor.dropped(), written);
}

#[test]
fn a_full_lag_window_is_waited_for_and_dropped() {
    let mut advisor = SpillWritebackAdvisor::new();
    assert!(advisor.advise_written(10, 9).is_empty());
    let actions = advisor.advise_written(10, 49);
    assert_eq!(
        actions,
        vec![
            WritebackAction::Queue { offset: 0, len: 10 },
            WritebackAction::Queue { offset: 10, len: 10 },
            WritebackAction::Queue { offset: 20, len: 10 },
            WritebackAction::Queue { offset: 30, len: 10 },
            WritebackAction::Wait { offset: 0, len: 40 },
            WritebackAction::Drop { offset: 0, len: 40 },
        ]
    );
    assert_eq!((advisor.synced(), advisor.dropped()), (40, 40));
}

#[test]
fn reports_in_steps_do_the_same() {
    let mut stepwise = SpillWritebackAdvisor::new();
    let mut actions = Vec::new();
    for written in [3, 17, 17, 58, 99] {
        actions.extend(stepwise.advise_written(10, written));
    }
    let mut at_once = SpillWritebackAdvisor::new();
    assert_eq!(actions, at_once.advise_written(10, 99));
}

#[test]
fn small_files_and_disabled_hygiene_are_left_alone() {
    let mut advisor = SpillWritebackAdvisor::new();
    assert!(advisor.advise_finished(10, 9).is_empty());
    assert!(advisor.advise_written(0, 1 << 40).is_empty());
    assert!(advisor.advise_finished(0, 1 << 40).is_empty());
    assert_eq!((advisor.synced(), advisor.dropped()), (0, 0));
    assert_eq!(
        advisor.advise_finished(10, 10),
        vec![
            WritebackAction::Queue { offset: 0, len: 10 },
            WritebackAction::Drop { offset: 0, len: 0 },
        ]
    );
}

#[test]
fn configured_numbers_are_read() {
    assert_eq!(chunk_bytes(Some("0")), 0);
    assert_eq!(chunk_bytes(Some("+4096")), 4096);
    assert_eq!(chunk_bytes(Some("4k")), DEFAULT_CHUNK_BYTES);
    assert_eq!(worker_threads(None), 4);
    assert_eq!(worker_threads(Some("16")), 16);
    assert_eq!(worker_threads(Some("0")), 4);
    assert_eq!(worker_threads(Some("-1")), 4);
    assert_eq!(worker_threads(Some("")), 4);
}

#[test]
fn numerals_are_read_as_std_reads_them() {
    for text in ["", "+", "-0", "0", "007", "255", "256", " 1", "1 ", "+12", "++1", "1_0"] {
        assert_eq!(
            parse_up_to(text, 255),
            text.parse::<u8>().ok().map(|n| n as u64),
            "{text}"
        );
    }
    for n in [0, 9, 10, 1234567890, u64::MAX] {
        assert_eq!(decimal_text(n), n.to_string());
        assert_eq!(parse_up_to(&decimal_text(n), u64::MAX), Some(n));
    }
}
