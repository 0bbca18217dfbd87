use edf_reader::{get_sample, ErrorKind};

// Tests successful conversion of little-endian byte pairs to i16.
#[test]
fn test_get_sample_le_conversion_success() {
    // Bytes [200, 1] in little-endian correspond to 0x01C8 = 456
    let data1 = vec![200, 1];
    let result1 = get_sample(&data1, 0);
    assert!(
        result1.is_ok(),
        "Expected Ok for data1, got Err: {:?}",
        result1.err()
    );
    assert_eq!(456, result1.unwrap());

    // Bytes [44, 238] in little-endian correspond to 0xEE2C = -4564 (signed 16-bit)
    let data2 = vec![44, 238];
    let result2 = get_sample(&data2, 0);
    assert!(
        result2.is_ok(),
        "Expected Ok for data2, got Err: {:?}",
        result2.err()
    );
    assert_eq!(-4564, result2.unwrap());

    // Multiple samples in one vector
    let data3 = vec![200, 1, 44, 238];
    let result3a = get_sample(&data3, 0);
    assert!(
        result3a.is_ok(),
        "Expected Ok for data3[0], got Err: {:?}",
        result3a.err()
    );
    assert_eq!(456, result3a.unwrap());

    let result3b = get_sample(&data3, 1);
    assert!(
        result3b.is_ok(),
        "Expected Ok for data3[1], got Err: {:?}",
        result3b.err()
    );
    assert_eq!(-4564, result3b.unwrap());
}

// Tests that attempting to read beyond the bounds of the data vector returns an error.
#[test]
fn test_get_sample_out_of_bounds() {
    // Index requires bytes beyond vector length
    let data1 = vec![200, 1];
    let result1 = get_sample(&data1, 1);
    assert!(
        result1.is_err(),
        "Expected Err when reading index 1 from data of length 2"
    );
    match result1 {
        Err(e) => assert_eq!(
            e.kind(),
            ErrorKind::UnexpectedEof,
            "Expected UnexpectedEof error kind"
        ),
        Ok(_) => panic!("Expected error but got Ok"),
    }

    // Index is valid, but requires second byte which is out of bounds
    let data2 = vec![200]; // Length 1. Index 0 needs bytes 0, 1.
    let result2 = get_sample(&data2, 0);
    assert!(
        result2.is_err(),
        "Expected Err when reading index 0 from data of length 1"
    );
    match result2 {
        Err(e) => assert_eq!(
            e.kind(),
            ErrorKind::UnexpectedEof,
            "Expected UnexpectedEof error kind"
        ),
        Ok(_) => panic!("Expected error but got Ok"),
    }
}

/// Tests that calling get_sample on an empty data vector returns an error.
#[test]
fn test_get_sample_empty_data() {
    let data: Vec<u8> = vec![];
    let result = get_sample(&data, 0);
    assert!(result.is_err(), "Expected Err when reading from empty data");
    match result {
        Err(e) => assert_eq!(
            e.kind(),
            ErrorKind::UnexpectedEof,
            "Expected UnexpectedEof error kind"
        ),
        Ok(_) => panic!("Expected error but got Ok"),
    }
}

#[test]
fn truncated_sample_reports_its_index() {
    let data = vec![1, 2, 3];
    assert_eq!(
        get_sample(&data, 1),
        Err(edf_reader::EdfError::Truncated { sample_index: 1 })
    );
    assert_eq!(get_sample(&data, 0), Ok(0x0201));
}

#[test]
fn extreme_sample_values() {
    let data = vec![0xff, 0x7f, 0x00, 0x80, 0xff, 0xff];
    assert_eq!(get_sample(&data, 0), Ok(32767));
    assert_eq!(get_sample(&data, 1), Ok(-32768));
    assert_eq!(get_sample(&data, 2), Ok(-1));
}
