use std::sync::Arc;

use arrow_schema::DataType;
use arrow_schema::Field;
use arrow_schema::Schema;
use arrow_schema::TimeUnit;
use databend_core::error::ErrorCode;
use databend_core::metadata_walk::is_decodable;
use databend_core::parquet_meta::finish_metadata;
use parquet::arrow::ArrowWriter;

fn number(bytes: &mut Vec<u8>, mut value: usize) {
    while value >= 0x80 {
        bytes.push((value % 0x80) as u8 | 0x80);
        value /= 0x80;
    }
    bytes.push(value as u8);
}

/// Metadata whose schema is a chain of groups below the root, each with a repetition, and
/// then a leaf that is optional. The text of a key comes last.
fn chain(repetitions: &[u8], text: &[u8]) -> Vec<u8> {
    let mut bytes = vec![0x15, 0x02, 0x19, 0xfc];
    number(&mut bytes, repetitions.len() + 2);
    bytes.extend([0x48, 1, b'r', 0x15, 0x02, 0]);
    for repetition in repetitions {
        bytes.extend([0x35, 2 * repetition, 0x18, 1, b'g', 0x15, 0x02, 0]);
    }
    bytes.extend([0x15, 0x02, 0x25, 0x02, 0x18, 1, b'l', 0]);
    bytes.extend([0x16, 0, 0x19, 0x0c]);
    bytes.extend([0x19, 0x1c, 0x18]);
    number(&mut bytes, text.len());
    bytes.extend(text);
    bytes.extend([0, 0]);
    bytes
}

fn parquet_metadata() -> Vec<u8> {
    let schema = Schema::new(vec![
        Field::new("id", DataType::Int32, false),
        Field::new("at", DataType::Timestamp(TimeUnit::Microsecond, None), true),
        Field::new_list("names", Field::new_list_field(DataType::Utf8, true), true),
    ]);
    let writer = ArrowWriter::try_new(Vec::new(), Arc::new(schema), None).unwrap();
    let file = writer.into_inner().unwrap();
    file[4..].to_vec()
}

#[test]
fn metadata_of_a_file_is_decodable() {
    let bytes = parquet_metadata();
    assert!(is_decodable(&bytes));
    assert_eq!(finish_metadata(&bytes).unwrap().file_metadata().schema_descr().num_columns(), 3);
}

#[test]
fn a_chain_of_groups_is_decoded() {
    let meta = finish_metadata(&chain(&[1, 0, 2], b"key")).unwrap();
    let column = meta.file_metadata().schema_descr().column(0);
    assert_eq!(column.max_def_level(), 3);
    assert_eq!(column.max_rep_level(), 1);
    assert_eq!(meta.file_metadata().key_value_metadata().unwrap()[0].key, "key");
}

#[test]
fn levels_end_at_the_deepest() {
    for repetition in [1, 2] {
        let deepest = vec![repetition; 32766];
        assert!(is_decodable(&chain(&deepest, b"")));
        let too_deep = vec![repetition; 32767];
        assert!(!is_decodable(&chain(&too_deep, b"")));
        match finish_metadata(&chain(&too_deep, b"")) {
            Err(ErrorCode::BadBytes(text)) => assert_eq!(
                text,
                "Invalid Parquet file. Metadata goes beyond what can be decoded."
            ),
            other => panic!("{:?}", other.is_ok()),
        }
    }
    // Required groups add no level.
    assert!(is_decodable(&chain(&vec![0; 40000], b"")));
}

#[test]
fn fields_side_by_side_add_no_levels() {
    let mut bytes = vec![0x15, 0x02, 0x19, 0xfc];
    number(&mut bytes, 40001);
    bytes.extend([0x48, 1, b'r', 0x15]);
    number(&mut bytes, 80000);
    bytes.push(0);
    for _ in 0..40000 {
        bytes.extend([0x15, 0x02, 0x25, 0x02, 0x18, 1, b'l', 0]);
    }
    bytes.extend([0x16, 0, 0x19, 0x0c, 0]);
    assert!(is_decodable(&bytes));
    let meta = finish_metadata(&bytes).unwrap();
    assert_eq!(meta.file_metadata().schema_descr().num_columns(), 40000);
}

#[test]
fn a_text_may_hold_any_number_of_high_bytes() {
    let text = "\u{20ac}".repeat(1_000_000);
    let bytes = chain(&[], text.as_bytes());
    assert!(is_decodable(&bytes));
    let meta = finish_metadata(&bytes).unwrap();
    assert_eq!(meta.file_metadata().key_value_metadata().unwrap()[0].key, text);
}

#[test]
fn a_number_may_be_longer_than_needed() {
    let mut bytes = vec![0x15];
    bytes.extend(vec![0x80; 1000]);
    bytes.extend(&chain(&[1], b"")[1..]);
    assert!(is_decodable(&bytes));
    assert!(finish_metadata(&bytes).is_ok());
}

#[test]
fn a_field_is_read_as_what_its_id_stands_for() {
    // The version declares itself to be a text.
    let mut bytes = chain(&[1, 1], b"");
    bytes[0] = 0x18;
    assert!(is_decodable(&bytes));
    assert_eq!(finish_metadata(&bytes).unwrap().file_metadata().version(), 1);
    let mut too_deep = chain(&vec![1; 32767], b"");
    too_deep[0] = 0x18;
    assert!(!is_decodable(&too_deep));
}

#[test]
fn unknown_fields_are_skipped() {
    // A map from numbers to lists of flags in front of a chain, under an id of its own.
    let skipped = [0xdb, 2, 0x59, 0x02, 0x21, 0x04, 0x31];
    let version = [0x05, 0x02, 0x02];
    let mut bytes = skipped.to_vec();
    bytes.extend(version);
    bytes.extend(&chain(&vec![1; 32767], b"")[2..]);
    assert!(!is_decodable(&bytes));
    let mut bytes = skipped.to_vec();
    bytes.extend(version);
    bytes.extend(&chain(&[1, 1], b"")[2..]);
    assert!(is_decodable(&bytes));
    assert!(finish_metadata(&bytes).is_ok());
}

#[test]
fn malformed_metadata_is_an_error() {
    let bytes = parquet_metadata();
    let mut state: u64 = 1;
    for _ in 0..3000 {
        let mut changed = bytes.clone();
        for _ in 0..3 {
            state = state.wrapping_mul(6364136223846793005).wrapping_add(1442695040888963407);
            let at = (state >> 33) as usize % changed.len();
            changed[at] = (state >> 24) as u8;
        }
        if let Err(error) = finish_metadata(&changed) {
            assert!(matches!(error, ErrorCode::Parquet(_)));
        }
    }
    for end in 0..bytes.len() - 9 {
        assert!(is_decodable(&bytes[..end]));
        assert!(finish_metadata(&bytes[..end]).is_err());
    }
}
