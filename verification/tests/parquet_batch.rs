use databend_core::error::ErrorCode;
use databend_core::parquet_batch::check_memory;
use databend_core::parquet_batch::collect_batches;
use databend_core::parquet_batch::plan_batches;
use databend_core::parquet_batch::MetasBatch;
use databend_core::parquet_batch::MIN_FREE_MEMORY;

fn sizes(n: usize) -> Vec<usize> {
    plan_batches((0..n).collect::<Vec<usize>>()).iter().map(|batch| batch.len()).collect()
}

#[test]
fn batches_hold_a_hundred_files() {
    assert_eq!(sizes(0), vec![0]);
    assert_eq!(sizes(1), vec![1]);
    assert_eq!(sizes(100), vec![100]);
    assert_eq!(sizes(101), vec![100, 1]);
    assert_eq!(sizes(200), vec![100, 100]);
    assert_eq!(sizes(250), vec![100, 100, 50]);
}

#[test]
fn batches_keep_order() {
    let batches = plan_batches((0..250).collect::<Vec<usize>>());
    let outcomes = batches.into_iter().map(|batch| Ok(batch)).collect();
    assert_eq!(collect_batches(outcomes).unwrap(), (0..250).collect::<Vec<usize>>());
}

#[test]
fn the_first_failing_batch_is_reported() {
    let outcomes: Vec<Result<Vec<u8>, ErrorCode>> = vec![
        Ok(vec![1]),
        Err(ErrorCode::Service("first".to_string())),
        Err(ErrorCode::Service("second".to_string())),
    ];
    assert_eq!(collect_batches(outcomes).unwrap_err().message(), "first");
}

#[test]
fn no_batch_gives_nothing() {
    let outcomes: Vec<Result<Vec<u8>, ErrorCode>> = vec![];
    assert_eq!(collect_batches(outcomes).unwrap(), vec![]);
}

#[test]
fn memory_has_to_be_left() {
    assert_eq!(MIN_FREE_MEMORY, 100 * 1024 * 1024);
    assert!(check_memory(104_857_600, 0).is_ok());
    assert!(check_memory(104_857_600, -1).is_ok());
    match check_memory(104_857_600, 1) {
        Err(ErrorCode::Internal(text)) => assert_eq!(
            text,
            "not enough memory to load parquet file metas, max_memory_usage = 104857600, used = 1."
        ),
        other => panic!("{:?}", other),
    }
}

#[test]
fn a_limit_beyond_the_signed_range_wraps() {
    match check_memory(u64::MAX, -5) {
        Err(ErrorCode::Internal(text)) => assert_eq!(
            text,
            "not enough memory to load parquet file metas, max_memory_usage = 18446744073709551615, used = -5."
        ),
        other => panic!("{:?}", other),
    }
    assert!(check_memory(i64::MAX as u64, 0).is_ok());
}

fn files() -> Vec<(String, u64)> {
    vec![("a".to_string(), 10), ("b".to_string(), 20)]
}

#[test]
fn a_batch_reads_its_files_in_order() {
    let batch: MetasBatch<u8> = MetasBatch::start(files());
    assert_eq!(batch.file(), Some(("a", 10)));
    let batch = batch.on_read(Ok(1));
    assert_eq!(batch.file(), Some(("b", 20)));
    let batch = batch.on_read(Ok(2));
    assert_eq!(batch.file(), None);
    match batch.on_memory(200_000_000, 0) {
        MetasBatch::Done(Ok(metas)) => assert_eq!(metas, vec![1, 2]),
        _ => panic!("the batch should be done"),
    }
}

#[test]
fn a_failing_file_ends_the_batch() {
    let batch: MetasBatch<u8> = MetasBatch::start(files());
    let batch = batch.on_read(Ok(1)).on_read(Err(ErrorCode::Service("b is gone".to_string())));
    match batch {
        MetasBatch::Done(Err(error)) => assert_eq!(error.message(), "b is gone"),
        _ => panic!("the batch should have failed"),
    }
}

#[test]
fn a_batch_without_memory_fails() {
    let batch: MetasBatch<u8> = MetasBatch::start(vec![]);
    assert_eq!(batch.file(), None);
    match batch.on_memory(100, 7) {
        MetasBatch::Done(Err(ErrorCode::Internal(text))) => assert_eq!(
            text,
            "not enough memory to load parquet file metas, max_memory_usage = 100, used = 7."
        ),
        _ => panic!("the batch should have failed"),
    }
}
