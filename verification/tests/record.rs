use minikeyvalue::digest::to_lower_hex;
use minikeyvalue::digest::to_upper_hex_padded;
use minikeyvalue::record::get_record;
use minikeyvalue::record::get_record_or_default;
use minikeyvalue::record::get_remote_path;
use minikeyvalue::record::key_is_short_enough;
use minikeyvalue::record::leveldb_key_from_hash;
use minikeyvalue::record::leveldb_key_from_str;
use minikeyvalue::record::put_record;
use minikeyvalue::record::DecodeError;
use minikeyvalue::record::Deleted;
use minikeyvalue::record::Record;

const SAMPLE_BYTES: [u8; 54] = [
    2, 0, 0, 0, 10, 0, 0, 0, 0, 0, 0, 0, 49, 50, 51, 52, 53, 54, 55, 56, 57, 48, 2, 0, 0, 0, 0, 0,
    0, 0, 4, 0, 0, 0, 0, 0, 0, 0, 118, 111, 108, 49, 4, 0, 0, 0, 0, 0, 0, 0, 118, 111, 108, 50,
];

fn sample_record() -> Record {
    Record::new(
        Deleted::Hard,
        "1234567890".to_string(),
        vec!["vol1".to_string(), "vol2".to_string()],
    )
}

#[test]
fn test_record_to_and_from_bytes() {
    let record = sample_record();
    let bytes = record.to_bytes();
    let deserialized_record = Record::from_bytes(&bytes).unwrap();
    assert_eq!(record, deserialized_record);
}

#[test]
fn test_record_from_slice_bytes() {
    let bytes = [
        2, 0, 0, 0, 10, 0, 0, 0, 0, 0, 0, 0, 49, 50, 51, 52, 53, 54, 55, 56, 57, 48, 2, 0, 0, 0,
        0, 0, 0, 0, 4, 0, 0, 0, 0, 0, 0, 0, 118, 111, 108, 49, 4, 0, 0, 0, 0, 0, 0, 0, 118, 111,
        108, 50,
    ];
    let record = Record::from_bytes(&bytes).unwrap();

    let expected_record = Record::new(
        Deleted::Hard,
        "1234567890".to_string(),
        vec!["vol1".to_string(), "vol2".to_string()],
    );

    assert_eq!(record, expected_record);
}

#[test]
fn test_record_default() {
    let record = Record::default();
    let expected_record = Record::new(Deleted::Init, String::new(), Vec::new());
    assert_eq!(record, expected_record);
}

#[test]
fn test_record_with_empty_read_volumes() {
    let record = Record::new(Deleted::Hard, "1234567890".to_string(), Vec::new());
    let bytes = record.to_bytes();
    let deserialized_record = Record::from_bytes(&bytes).unwrap();
    assert_eq!(record, deserialized_record);
}

#[test]
fn test_get_remote_path() {
    let tests = vec![
        ("hello", "/5d/41/aGVsbG8="),
        ("helloworld", "/fc/5e/aGVsbG93b3JsZA=="),
    ];

    for (key, expected_path) in tests {
        let path = get_remote_path(key);
        assert_eq!(path, expected_path);
    }
}

#[test]
fn keys_of_any_practical_length_have_a_remote_path() {
    assert!(key_is_short_enough(""));
    assert!(key_is_short_enough("hello"));
    assert!(key_is_short_enough(&"k".repeat(100_000)));
}

#[test]
fn remote_path_uses_the_url_safe_alphabet() {
    // in the standard alphabet these six bytes read "Pz8/Pj4+"
    let path = get_remote_path("???>>>");
    assert_eq!(&path[6..], "/Pz8_Pj4-");
    assert_eq!(path.len(), 15);
}

#[test]
fn encoding_is_byte_exact() {
    assert_eq!(sample_record().to_bytes(), SAMPLE_BYTES.to_vec());
    let empty = Record::new(Deleted::No, String::new(), Vec::new());
    assert_eq!(empty.to_bytes(), vec![0u8; 20]);
    assert_eq!(Record::default().to_bytes()[..4], [3, 0, 0, 0]);
    let soft = Record::new(Deleted::Soft, "é".to_string(), vec![String::new()]);
    assert_eq!(
        soft.to_bytes(),
        vec![
            1, 0, 0, 0, 2, 0, 0, 0, 0, 0, 0, 0, 0xc3, 0xa9, 1, 0, 0, 0, 0, 0, 0, 0, 0, 0, 0, 0,
            0, 0, 0, 0
        ]
    );
}

#[test]
fn encoding_agrees_with_bincode() {
    let record = sample_record();
    let as_tuple = (
        2u32,
        "1234567890".to_string(),
        vec!["vol1".to_string(), "vol2".to_string()],
    );
    assert_eq!(record.to_bytes(), bincode::serialize(&as_tuple).unwrap());
    let back: (u32, String, Vec<String>) = bincode::deserialize(&record.to_bytes()).unwrap();
    assert_eq!(back, as_tuple);
}

#[test]
fn round_trip_of_empty_record() {
    let record = Record::new(Deleted::Init, String::new(), Vec::new());
    let bytes = record.to_bytes();
    assert_eq!(Record::from_bytes(&bytes), Ok(record));
}

#[test]
fn decode_then_encode_gives_the_bytes_back() {
    let record = Record::from_bytes(&SAMPLE_BYTES).unwrap();
    assert_eq!(record.to_bytes(), SAMPLE_BYTES.to_vec());
}

#[test]
fn every_status_round_trips() {
    for status in [Deleted::No, Deleted::Soft, Deleted::Hard, Deleted::Init] {
        let record = Record::new(status, "abc".to_string(), vec!["a/sv01".to_string()]);
        let back = Record::from_bytes(&record.to_bytes()).unwrap();
        assert_eq!(back.deleted(), status);
        assert_eq!(back.hash(), "abc");
        assert_eq!(back.read_volumes(), &vec!["a/sv01".to_string()]);
    }
}

#[test]
fn decode_errors() {
    assert_eq!(Record::from_bytes(&[]), Err(DecodeError::UnexpectedEnd));
    assert_eq!(Record::from_bytes(&[0, 0, 0]), Err(DecodeError::UnexpectedEnd));
    assert_eq!(
        Record::from_bytes(&[4, 0, 0, 0, 0, 0, 0, 0, 0, 0, 0, 0, 0, 0, 0, 0, 0, 0, 0, 0]),
        Err(DecodeError::InvalidStatus)
    );
    assert_eq!(
        Record::from_bytes(&[0, 0, 0, 1, 0, 0, 0, 0, 0, 0, 0, 0, 0, 0, 0, 0, 0, 0, 0, 0]),
        Err(DecodeError::InvalidStatus)
    );
    // hash announced as 5 bytes, 2 present
    assert_eq!(
        Record::from_bytes(&[0, 0, 0, 0, 5, 0, 0, 0, 0, 0, 0, 0, 97, 98]),
        Err(DecodeError::UnexpectedEnd)
    );
    // hash is not UTF-8
    assert_eq!(
        Record::from_bytes(&[0, 0, 0, 0, 1, 0, 0, 0, 0, 0, 0, 0, 0xff, 0, 0, 0, 0, 0, 0, 0, 0]),
        Err(DecodeError::InvalidUtf8)
    );
    // volume count missing
    assert_eq!(
        Record::from_bytes(&[0, 0, 0, 0, 0, 0, 0, 0, 0, 0, 0, 0, 0, 0, 0]),
        Err(DecodeError::UnexpectedEnd)
    );
    // more volumes announced than present
    let mut bytes = vec![0u8; 12];
    bytes.extend_from_slice(&[0xff; 8]);
    assert_eq!(Record::from_bytes(&bytes), Err(DecodeError::UnexpectedEnd));
    // a length that exceeds the input by far
    let mut bytes = vec![0u8; 4];
    bytes.extend_from_slice(&[0xff; 8]);
    bytes.extend_from_slice(&[0; 8]);
    assert_eq!(Record::from_bytes(&bytes), Err(DecodeError::UnexpectedEnd));
    // one byte too many
    let mut bytes = SAMPLE_BYTES.to_vec();
    bytes.push(0);
    assert_eq!(Record::from_bytes(&bytes), Err(DecodeError::TrailingBytes));
}

#[test]
fn index_key_masks_the_top_bit() {
    assert_eq!(leveldb_key_from_hash(0), 0);
    assert_eq!(leveldb_key_from_hash(0x7FFF_FFFF), 0x7FFF_FFFF);
    assert_eq!(leveldb_key_from_hash(0x8000_0000), 0);
    assert_eq!(leveldb_key_from_hash(0xFFFF_FFFF), 0x7FFF_FFFF);
    assert_eq!(leveldb_key_from_hash(0x8000_1234), 0x1234);
}

#[test]
fn index_key_is_the_masked_hash_of_the_key() {
    for key in ["", "hello", "helloworld", "k", "a key that is longer than one block of sixteen bytes"] {
        let expected = (gxhash::gxhash32(key.as_bytes(), 0) & 0x7FFF_FFFF) as i32;
        assert_eq!(leveldb_key_from_str(key), expected);
        assert!(leveldb_key_from_str(key) >= 0);
    }
    assert_ne!(leveldb_key_from_str("hello"), leveldb_key_from_str("world"));
    assert_eq!(leveldb_key_from_str("hello"), 2143776916);
}

#[test]
fn put_record_gives_key_and_bytes() {
    let (key, bytes) = put_record("hello", &sample_record());
    assert_eq!(key, leveldb_key_from_str("hello"));
    assert_eq!(bytes, SAMPLE_BYTES.to_vec());
}

#[test]
fn get_record_on_absent_key() {
    assert_eq!(get_record(None), Ok(None));
    assert_eq!(get_record_or_default(None), Ok(Record::default()));
    assert_eq!(get_record_or_default(None).unwrap().deleted(), Deleted::Init);
}

#[test]
fn get_record_on_stored_bytes() {
    assert_eq!(get_record(Some(SAMPLE_BYTES.to_vec())), Ok(Some(sample_record())));
    assert_eq!(get_record_or_default(Some(SAMPLE_BYTES.to_vec())), Ok(sample_record()));
    assert_eq!(get_record(Some(vec![9])), Err(DecodeError::UnexpectedEnd));
    assert_eq!(get_record_or_default(Some(vec![9, 0, 0, 0])), Err(DecodeError::InvalidStatus));
}

#[test]
fn hexadecimal_rendering() {
    assert_eq!(to_lower_hex(&[]), "");
    assert_eq!(to_lower_hex(&[0x00, 0x0a, 0xf0, 0xff]), "000af0ff");
    assert_eq!(to_upper_hex_padded(0), "00");
    assert_eq!(to_upper_hex_padded(10), "0A");
    assert_eq!(to_upper_hex_padded(255), "FF");
    assert_eq!(to_upper_hex_padded(256), "100");
    assert_eq!(to_upper_hex_padded(0xDEADBEEF), "DEADBEEF");
}
