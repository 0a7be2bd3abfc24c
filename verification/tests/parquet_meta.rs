use std::sync::Arc;

use arrow_schema::DataType;
use arrow_schema::Field;
use arrow_schema::Schema;
use databend_core::arrow_conversion::infer_schema_with_extension;
use databend_core::error::map_parquet_error;
use databend_core::error::ErrorCode;
use databend_core::metadata_walk::is_decodable;
use databend_core::parquet_meta::check_footer_size;
use databend_core::parquet_meta::check_meta_size;
use databend_core::parquet_meta::finish_metadata;
use databend_core::parquet_meta::schema_error;
use databend_core::parquet_meta::schema_of_read;
use databend_core::parquet_meta::MetadataRead;
use databend_core::parquet_meta::ReadEvent;
use databend_core::parquet_meta::FOOTER_SIZE;
use parquet::arrow::ArrowWriter;
use parquet::file::metadata::ParquetMetaData;

fn schema() -> Schema {
    Schema::new(vec![
        Field::new("id", DataType::Int32, false),
        Field::new("name", DataType::Utf8, true),
    ])
}

fn parquet_file() -> Vec<u8> {
    let writer = ArrowWriter::try_new(Vec::new(), Arc::new(schema()), None).unwrap();
    writer.into_inner().unwrap()
}

/// Reads from memory. Gives the ranges that were asked for along with the outcome.
fn read(
    file: &[u8],
    size_known: bool,
) -> (Vec<(u64, u64)>, Result<ParquetMetaData, ErrorCode>) {
    let mut state = MetadataRead::start(if size_known { Some(file.len() as u64) } else { None });
    let mut ranges = vec![];
    loop {
        let event = match state.range() {
            Some((start, end)) => {
                ranges.push((start, end));
                ReadEvent::Bytes(file[start as usize..end as usize].to_vec())
            }
            None => match state {
                MetadataRead::Done(outcome) => return (ranges, outcome),
                _ => ReadEvent::Size(file.len() as u64),
            },
        };
        state = state.next(event);
    }
}

#[test]
fn reads_the_metadata_of_a_file() {
    let file = parquet_file();
    for size_known in [true, false] {
        let (ranges, meta) = read(&file, size_known);
        let meta = meta.unwrap();
        assert_eq!(meta.file_metadata().schema_descr().num_columns(), 2);
        assert_eq!(meta.file_metadata().num_rows(), 0);
        let size = file.len() as u64;
        let len = u32::from_le_bytes([
            file[file.len() - 8],
            file[file.len() - 7],
            file[file.len() - 6],
            file[file.len() - 5],
        ]) as u64;
        assert_eq!(ranges, vec![(size - 8, size), (size - 8 - len, size)]);
    }
}

#[test]
fn infers_the_arrow_schema() {
    let (_, meta) = read(&parquet_file(), true);
    let inferred = infer_schema_with_extension(&meta.unwrap()).unwrap();
    assert_eq!(inferred.fields(), schema().fields());
}

#[test]
fn schema_of_a_file_that_was_read() {
    let (_, meta) = read(&parquet_file(), true);
    let inferred = schema_of_read("t.parquet", meta).unwrap();
    assert_eq!(inferred.fields(), schema().fields());
}

#[test]
fn schema_of_a_file_that_could_not_be_read() {
    let (_, meta) = read(b"short", true);
    match schema_of_read("t.parquet", meta) {
        Err(ErrorCode::Internal(text)) => assert_eq!(
            text,
            "Read parquet file 't.parquet''s meta error: Invalid Parquet file. Size is smaller than footer."
        ),
        other => panic!("{:?}", other),
    }
}

#[test]
fn schema_error_names_path_and_cause() {
    match schema_error("p", "c") {
        ErrorCode::Internal(text) => {
            assert_eq!(text, "Read parquet file 'p''s meta error: c")
        }
        other => panic!("{:?}", other),
    }
}

#[test]
fn a_file_smaller_than_a_footer_is_rejected() {
    let (ranges, meta) = read(&[0; 7], false);
    assert!(ranges.is_empty());
    match meta {
        Err(ErrorCode::BadBytes(text)) => {
            assert_eq!(text, "Invalid Parquet file. Size is smaller than footer.")
        }
        other => panic!("{:?}", other),
    }
}

#[test]
fn a_corrupt_footer_is_rejected() {
    let (ranges, meta) = read(&[1, 2, 3, 4, 5, 6, 7, 8, 9], true);
    assert_eq!(ranges, vec![(1, 9)]);
    let error = meta.unwrap_err();
    assert!(matches!(error, ErrorCode::Parquet(_)));
    assert_eq!(error.message(), "Parquet error: Invalid Parquet file. Corrupt footer");
}

#[test]
fn metadata_longer_than_the_file_is_rejected() {
    let (ranges, meta) = read(&[255, 0, 0, 0, b'P', b'A', b'R', b'1'], true);
    assert_eq!(ranges, vec![(0, 8)]);
    match meta {
        Err(ErrorCode::BadBytes(text)) => assert_eq!(
            text,
            "Invalid Parquet file. Reported metadata length of 255 + 8 byte footer, but file is only 8 bytes"
        ),
        other => panic!("{:?}", other),
    }
}

#[test]
fn the_metadata_length_is_little_endian() {
    let (_, meta) = read(&[1, 2, 3, 4, b'P', b'A', b'R', b'1'], true);
    assert_eq!(
        meta.unwrap_err().message(),
        "Invalid Parquet file. Reported metadata length of 67305985 + 8 byte footer, but file is only 8 bytes"
    );
}

#[test]
fn an_encrypted_footer_is_rejected() {
    let (ranges, meta) = read(&[0, 1, 0, 0, 0, b'P', b'A', b'R', b'E'], true);
    assert_eq!(ranges, vec![(1, 9)]);
    let error = meta.unwrap_err();
    assert!(matches!(error, ErrorCode::Parquet(_)));
    assert_eq!(error.message(), "Parquet error: Invalid Parquet file. Corrupt footer");
}

#[test]
fn a_footer_that_is_enough_is_not_read_again() {
    let file = [1, 2, 0, 0, 0, 0, b'P', b'A', b'R', b'1'];
    for size_known in [true, false] {
        let (ranges, meta) = read(&file, size_known);
        assert_eq!(ranges, vec![(2, 10)]);
        let error = meta.unwrap_err();
        assert!(matches!(error, ErrorCode::Parquet(_)));
        assert_eq!(error.message(), finish_metadata(&file[2..]).unwrap_err().message());
    }
}

#[test]
fn metadata_that_does_not_decode_is_an_error() {
    for bytes in [&[][..], &[0], &[255; 20], &[0x15, 0x02]] {
        assert!(is_decodable(bytes));
        let error = finish_metadata(bytes).unwrap_err();
        assert!(matches!(error, ErrorCode::Parquet(_)));
        assert!(!error.message().is_empty());
    }
    assert_eq!(finish_metadata(&[]).unwrap_err().message(), "EOF: Unexpected EOF");
}

#[test]
fn a_failing_storage_ends_the_read() {
    let failed = || ReadEvent::Failed(ErrorCode::Service("gone".to_string()));
    for state in [
        MetadataRead::start(None),
        MetadataRead::start(Some(8)),
        MetadataRead::NeedMetadata { file_size: 20, metadata_len: 12 },
    ] {
        match state.next(failed()) {
            MetadataRead::Done(Err(ErrorCode::Service(text))) => assert_eq!(text, "gone"),
            _ => panic!("the read goes on"),
        }
    }
}

#[test]
fn footer_size_bounds() {
    assert_eq!(FOOTER_SIZE, 8);
    assert!(check_footer_size(8).is_ok());
    assert!(matches!(check_footer_size(7), Err(ErrorCode::BadBytes(_))));
}

#[test]
fn meta_size_bounds() {
    assert!(check_meta_size(20, 12).is_ok());
    match check_meta_size(20, 13) {
        Err(ErrorCode::BadBytes(text)) => assert_eq!(
            text,
            "Invalid Parquet file. Reported metadata length of 13 + 8 byte footer, but file is only 20 bytes"
        ),
        other => panic!("{:?}", other),
    }
}

#[test]
fn a_metadata_length_can_be_anything() {
    match check_meta_size(100, u64::MAX) {
        Err(ErrorCode::BadBytes(text)) => assert_eq!(
            text,
            "Invalid Parquet file. Reported metadata length of 18446744073709551615 + 8 byte footer, but file is only 100 bytes"
        ),
        other => panic!("{:?}", other),
    }
    assert!(matches!(check_meta_size(7, 0), Err(ErrorCode::BadBytes(_))));
    assert!(check_meta_size(u64::MAX, u64::MAX - 8).is_ok());
    assert!(check_meta_size(u64::MAX, u64::MAX - 7).is_err());
}

#[test]
fn parquet_errors_keep_their_text() {
    let ok: Result<u8, String> = Ok(3);
    assert_eq!(map_parquet_error(ok).unwrap(), 3);
    let nyi: Result<u8, String> = Err("NYI: later".to_string());
    let error = map_parquet_error(nyi).unwrap_err();
    assert!(matches!(error, ErrorCode::Parquet(_)));
    assert_eq!(error.message(), "NYI: later");
    assert_eq!(ErrorCode::UnknownSequence("s".to_string()).message(), "s");
}
