use edf_reader::{
    check_bounds, decode_window, plan_read, AsyncEDFReader, ChannelHeader, Decimal, EDFHeader,
    EdfError, ErrorKind, ReadPlan,
};

fn pad(text: &str, width: usize) -> Vec<u8> {
    let mut field = text.as_bytes().to_vec();
    while field.len() < width {
        field.push(b' ');
    }
    field
}

fn general_header(blocks: &str, duration: &str, signals: &str) -> Vec<u8> {
    general_header_sized("768", blocks, duration, signals)
}

fn general_header_sized(size: &str, blocks: &str, duration: &str, signals: &str) -> Vec<u8> {
    let mut raw = Vec::new();
    raw.extend(pad("0", 8));
    raw.extend(pad("patient", 80));
    raw.extend(pad("recording", 80));
    raw.extend(pad("01.02.03", 8));
    raw.extend(pad("04.05.06", 8));
    raw.extend(pad(size, 8));
    raw.extend(pad("", 44));
    raw.extend(pad(blocks, 8));
    raw.extend(pad(duration, 8));
    raw.extend(pad(signals, 4));
    raw
}

struct Chan {
    label: &'static str,
    pmin: &'static str,
    pmax: &'static str,
    dmin: &'static str,
    dmax: &'static str,
    samples: &'static str,
}

fn channel_block(chans: &[Chan]) -> Vec<u8> {
    let mut raw = Vec::new();
    for c in chans {
        raw.extend(pad(c.label, 16));
    }
    for _ in chans {
        raw.extend(pad("AgAgCl electrode", 80));
    }
    for _ in chans {
        raw.extend(pad("uV", 8));
    }
    for c in chans {
        raw.extend(pad(c.pmin, 8));
    }
    for c in chans {
        raw.extend(pad(c.pmax, 8));
    }
    for c in chans {
        raw.extend(pad(c.dmin, 8));
    }
    for c in chans {
        raw.extend(pad(c.dmax, 8));
    }
    for _ in chans {
        raw.extend(pad("HP:0.1Hz", 80));
    }
    for c in chans {
        raw.extend(pad(c.samples, 8));
    }
    for _ in chans {
        raw.extend(pad("", 32));
    }
    raw
}

fn two_channels() -> Vec<Chan> {
    vec![
        Chan { label: "EEG Fpz", pmin: "-200.0", pmax: "200.0", dmin: "-2048", dmax: "2047", samples: "2" },
        Chan { label: "ECG", pmin: "-3.5", pmax: "3.5", dmin: "-32768", dmax: "32767", samples: "3" },
    ]
}

fn two_channel_header() -> EDFHeader {
    let general = EDFHeader::build_general_header(&general_header("10", "1", "2")).unwrap();
    general.build_channel_headers(&channel_block(&two_channels())).unwrap()
}

fn encode(values: &[i16]) -> Vec<u8> {
    let mut out = Vec::new();
    for v in values {
        out.extend(v.to_le_bytes());
    }
    out
}

#[test]
fn general_header_fields() {
    let h = EDFHeader::build_general_header(&general_header("1800", "1", "2")).unwrap();
    assert_eq!(h.number_of_blocks, 1800);
    assert_eq!(h.block_duration, 1000);
    assert_eq!(h.number_of_signals, 2);
    assert_eq!(h.byte_size_header, 768);
    assert!(h.channels.is_empty());
}

#[test]
fn fractional_record_duration_in_ms() {
    let h = EDFHeader::build_general_header(&general_header("4", "0.5", "1")).unwrap();
    assert_eq!(h.block_duration, 500);
}

#[test]
fn general_header_rejects_bad_input() {
    let short = vec![b' '; 255];
    assert_eq!(EDFHeader::build_general_header(&short).err(), Some(EdfError::Format));
    let bad = general_header("ten", "1", "2");
    assert_eq!(EDFHeader::build_general_header(&bad).err(), Some(EdfError::Format));
    let zero = general_header("10", "0", "2");
    assert_eq!(EDFHeader::build_general_header(&zero).err(), Some(EdfError::Format));
    let sub_ms = general_header("10", "0.0001", "2");
    assert_eq!(EDFHeader::build_general_header(&sub_ms).err(), Some(EdfError::Format));
    assert_eq!(EdfError::Format.kind(), ErrorKind::InvalidData);
}

#[test]
fn header_byte_size_field_must_be_a_number() {
    let bad = general_header_sized("x", "10", "1", "2");
    assert_eq!(EDFHeader::build_general_header(&bad).err(), Some(EdfError::Format));
    let blank = general_header_sized("", "10", "1", "2");
    assert_eq!(EDFHeader::build_general_header(&blank).err(), Some(EdfError::Format));
    let padded = general_header_sized("  768", "10", "1", "2");
    let h = EDFHeader::build_general_header(&padded).unwrap();
    assert_eq!(h.byte_size_header, 768);
}

#[test]
fn channel_headers_are_read_column_by_column() {
    let h = two_channel_header();
    assert_eq!(h.channels.len(), 2);
    let a = &h.channels[0];
    let b = &h.channels[1];
    assert_eq!(a.label, b"EEG Fpz".to_vec());
    assert_eq!(b.label, b"ECG".to_vec());
    assert_eq!(a.transducer_type, b"AgAgCl electrode".to_vec());
    assert_eq!(a.physical_dimension, b"uV".to_vec());
    assert_eq!(a.prefiltering, b"HP:0.1Hz".to_vec());
    assert_eq!(a.physical_minimum, Decimal { mantissa: -2000, exponent: 1 });
    assert_eq!(a.physical_maximum, Decimal { mantissa: 2000, exponent: 1 });
    assert_eq!(b.physical_minimum, Decimal { mantissa: -35, exponent: 1 });
    assert_eq!(a.digital_minimum, -2048);
    assert_eq!(a.digital_maximum, 2047);
    assert_eq!(b.digital_minimum, -32768);
    assert_eq!(b.digital_maximum, 32767);
    assert_eq!(a.number_of_samples_in_data_record, 2);
    assert_eq!(b.number_of_samples_in_data_record, 3);
    assert!(h.is_valid());
}

#[test]
fn channel_block_of_wrong_length_is_rejected() {
    let general = EDFHeader::build_general_header(&general_header("10", "1", "2")).unwrap();
    let mut raw = channel_block(&two_channels());
    raw.pop();
    assert_eq!(general.build_channel_headers(&raw).err(), Some(EdfError::Format));
    let mut longer = channel_block(&two_channels());
    longer.push(b' ');
    assert_eq!(general.build_channel_headers(&longer).err(), Some(EdfError::Format));
}

#[test]
fn equal_digital_bounds_are_rejected() {
    let general = EDFHeader::build_general_header(&general_header("10", "1", "1")).unwrap();
    let chans = vec![Chan { label: "X", pmin: "0", pmax: "1", dmin: "5", dmax: "5", samples: "1" }];
    assert_eq!(general.build_channel_headers(&channel_block(&chans)).err(), Some(EdfError::Format));
    let chans = vec![Chan { label: "X", pmin: "0", pmax: "1", dmin: "0", dmax: "40000", samples: "1" }];
    assert_eq!(general.build_channel_headers(&channel_block(&chans)).err(), Some(EdfError::Format));
    let chans = vec![Chan { label: "X", pmin: "1.2.3", pmax: "1", dmin: "0", dmax: "4", samples: "1" }];
    assert_eq!(general.build_channel_headers(&channel_block(&chans)).err(), Some(EdfError::Format));
}

#[test]
fn record_size_counts_every_channel() {
    let h = two_channel_header();
    assert_eq!(h.get_size_of_data_block(), 10);
    assert_eq!(h.channel_headers_range(), (256, 512));
}

#[test]
fn bounds_check_accepts_exact_end() {
    let h = two_channel_header();
    assert_eq!(check_bounds(0, 10000, &h), Ok(()));
    assert_eq!(check_bounds(4000, 6000, &h), Ok(()));
    assert_eq!(check_bounds(4000, 6001, &h), Err(EdfError::OutOfRange));
    assert_eq!(check_bounds(u64::MAX, u64::MAX, &h), Err(EdfError::OutOfRange));
    assert_eq!(EdfError::OutOfRange.kind(), ErrorKind::InvalidInput);
}

#[test]
fn first_window_reads_one_record() {
    let h = two_channel_header();
    let plan = plan_read(0, h.block_duration, &h).unwrap();
    assert_eq!(plan, ReadPlan { offset: 768, length: 10, blocks: 1 });
}

#[test]
fn boundary_start_includes_that_record() {
    let h = two_channel_header();
    let plan = plan_read(3000, 1000, &h).unwrap();
    assert_eq!(plan, ReadPlan { offset: 768 + 3 * 10, length: 10, blocks: 1 });
    let inside = plan_read(3999, 1, &h).unwrap();
    assert_eq!(inside.offset, 768 + 3 * 10);
    let partial = plan_read(500, 1500, &h).unwrap();
    assert_eq!(partial, ReadPlan { offset: 768, length: 20, blocks: 2 });
    assert_eq!(plan_read(9000, 1001, &h), Err(EdfError::OutOfRange));
}

#[test]
fn decode_keeps_channels_apart() {
    let h = two_channel_header();
    // Two records: channel 0 holds two samples per record, channel 1 three.
    let data = encode(&[1, 2, 10, 20, 30, 3, 4, 40, 50, 60]);
    let out = decode_window(&data, &h, 2).unwrap();
    assert_eq!(out, vec![vec![1, 2, 3, 4], vec![10, 20, 30, 40, 50, 60]]);
}

#[test]
fn decode_reports_truncation() {
    let h = two_channel_header();
    let data = encode(&[1, 2, 10, 20, 30, 3, 4]);
    let out = decode_window(&data, &h, 2);
    assert_eq!(out, Err(EdfError::Truncated { sample_index: 7 }));
    let mut odd = encode(&[1, 2, 10, 20, 30]);
    odd.pop();
    assert_eq!(decode_window(&odd, &h, 1), Err(EdfError::Truncated { sample_index: 4 }));
    assert_eq!(decode_window(&Vec::new(), &h, 0), Ok(vec![vec![], vec![]]));
}

#[test]
fn physical_values_follow_the_calibration() {
    let h = two_channel_header();
    let reader = AsyncEDFReader::with_header(h, ()).unwrap();
    let plan = reader.plan_window(0, 1000).unwrap();
    let data = encode(&[0, 2047, -32768, 0, 32767]);
    let digital = reader.decode_window(&plan, &data).unwrap();
    let ch = &reader.edf_header.channels[0];
    let (num, den) = ch.scale_fraction();
    assert_eq!((num, den), (40000, 100 * 4095));
    let scale = num as f32 / den as f32;
    let pmin = -200.0f32;
    let physical = (digital[0][0] as f32 - ch.digital_minimum as f32) * scale + pmin;
    assert!((physical - 0.0489).abs() < 0.001);
    let top = (digital[0][1] as f32 - ch.digital_minimum as f32) * scale + pmin;
    assert!((top - 200.0).abs() < 0.001);
}

#[test]
fn reader_needs_a_complete_header() {
    let general = EDFHeader::build_general_header(&general_header("10", "1", "2")).unwrap();
    assert!(AsyncEDFReader::with_header(general, ()).is_err());
    let flat = ChannelHeader {
        label: vec![],
        transducer_type: vec![],
        physical_dimension: vec![],
        physical_minimum: Decimal { mantissa: 0, exponent: 0 },
        physical_maximum: Decimal { mantissa: 0, exponent: 0 },
        digital_minimum: -1,
        digital_maximum: 1,
        prefiltering: vec![],
        number_of_samples_in_data_record: 1,
    };
    assert_eq!(flat.scale_fraction(), (0, 2));
    assert!(flat.is_valid());
}
