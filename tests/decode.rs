use orc_column::{
    convert_date, new_binary_iterator, new_boolean_iter, new_date_iter, new_present_iter,
    BooleanDecoder, ByteRleDecoder, ByteSource, Column, Date, Error, RunLengthDecoder, Stream,
    StreamKind, StreamMap, Stripe, Values,
};

fn column(rows: usize) -> Column {
    Column { id: 1, name: String::from("col"), number_of_rows: rows }
}

fn stripe(streams: Vec<(StreamKind, Vec<u8>)>) -> Stripe {
    let streams = streams
        .into_iter()
        .map(|(kind, data)| Stream { column: 1, kind, data })
        .collect();
    Stripe { stream_map: StreamMap { streams } }
}

fn ints(bytes: Vec<u8>, signed: bool) -> Vec<Result<i128, Error>> {
    let mut d = RunLengthDecoder::new(ByteSource::new(bytes), signed);
    let mut out = Vec::new();
    while let Some(v) = d.next() {
        let stop = v.is_err();
        out.push(v);
        if stop {
            break;
        }
    }
    out
}

fn ok_ints(bytes: Vec<u8>, signed: bool) -> Vec<i128> {
    ints(bytes, signed).into_iter().map(|r| r.unwrap()).collect()
}

#[test]
fn present_mask_without_stream_is_all_present() {
    let mask = new_present_iter(&column(4), &stripe(vec![])).unwrap();
    assert_eq!(mask, vec![true, true, true, true]);
}

#[test]
fn present_mask_from_stream_has_row_count_length() {
    // one literal byte 0b1010_0000, three rows
    let s = stripe(vec![(StreamKind::Present, vec![0xff, 0b1010_0000])]);
    let mask = new_present_iter(&column(3), &s).unwrap();
    assert_eq!(mask, vec![true, false, true]);
}

#[test]
fn present_mask_short_stream_fails() {
    let s = stripe(vec![(StreamKind::Present, vec![0xff, 0xff])]);
    assert!(new_present_iter(&column(9), &s).is_err());
}

#[test]
fn boolean_unpacking_msb_first() {
    let s = stripe(vec![(StreamKind::Data, vec![0xff, 0b1011_0000])]);
    let mut it = new_boolean_iter(&column(5), &s).unwrap();
    let mut got = Vec::new();
    while let Some(v) = it.next() {
        got.push(v.unwrap().unwrap());
    }
    assert_eq!(got, vec![true, false, true, true, false]);
}

#[test]
fn boolean_decoder_row_budget() {
    let mut d = BooleanDecoder::new(ByteSource::new(vec![0xff, 0b1011_0000]), 5);
    let mut got = Vec::new();
    while let Some(v) = d.next() {
        got.push(v.unwrap());
    }
    assert_eq!(got, vec![true, false, true, true, false]);
}

#[test]
fn boolean_column_pulls_values_for_present_rows_only() {
    let s = stripe(vec![
        (StreamKind::Present, vec![0xff, 0b1010_0000]),
        (StreamKind::Data, vec![0xff, 0b0100_0000]),
    ]);
    let mut it = new_boolean_iter(&column(3), &s).unwrap();
    assert_eq!(it.next().unwrap().unwrap(), Some(false));
    assert_eq!(it.next().unwrap().unwrap(), None);
    assert_eq!(it.next().unwrap().unwrap(), Some(true));
    assert!(it.next().is_none());
}

#[test]
fn boolean_column_values_run_short() {
    // a repeated run of three 0xff bytes gives 24 bits, 30 are needed
    let s = stripe(vec![(StreamKind::Data, vec![0x00, 0xff])]);
    let mut it = new_boolean_iter(&column(30), &s).unwrap();
    for _ in 0..24 {
        assert_eq!(it.next().unwrap().unwrap(), Some(true));
    }
    assert!(it.next().unwrap().is_err());
}

#[test]
fn byte_rle_repeated_and_literal_runs() {
    let mut d = ByteRleDecoder::new(ByteSource::new(vec![0x00, 7, 0xfe, 1, 2]));
    let mut got = Vec::new();
    while let Some(v) = d.next() {
        got.push(v.unwrap());
    }
    assert_eq!(got, vec![7, 7, 7, 1, 2]);
}

#[test]
fn byte_rle_truncated_literal_fails() {
    let mut d = ByteRleDecoder::new(ByteSource::new(vec![0xfd, 1, 2]));
    assert!(matches!(d.next(), Some(Err(Error::UnexpectedEof))));
    assert!(matches!(d.next(), Some(Err(_))));
}

#[test]
fn rle_round_trip_unsigned_literals() {
    // literal run of four values: 0, 1, 127, 300 (300 = 0xac 0x02)
    let got = ok_ints(vec![0xfc, 0x00, 0x01, 0x7f, 0xac, 0x02], false);
    assert_eq!(got, vec![0, 1, 127, 300]);
}

#[test]
fn rle_round_trip_signed_literals() {
    // zig-zag values 0, 1, 2, 127, 2000 stand for 0, -1, 1, -64, 1000
    let got = ok_ints(vec![0xfb, 0x00, 0x01, 0x02, 0x7f, 0xd0, 0x0f], true);
    assert_eq!(got, vec![0, -1, 1, -64, 1000]);
}

#[test]
fn rle_round_trip_repeated_runs() {
    // five values from 10 step 1, then three from 2 step -1 (signed)
    assert_eq!(ok_ints(vec![0x02, 0x01, 0x0a], false), vec![10, 11, 12, 13, 14]);
    assert_eq!(ok_ints(vec![0x00, 0xff, 0x04], true), vec![2, 1, 0]);
    assert_eq!(ok_ints(vec![0x00, 0x00, 0x07, 0xfe, 0x01, 0x02], false), vec![7, 7, 7, 1, 2]);
}

#[test]
fn rle_largest_values() {
    let max = vec![0xff, 0xff, 0xff, 0xff, 0xff, 0xff, 0xff, 0xff, 0xff, 0x01];
    let mut bytes = vec![0xff];
    bytes.extend(max.clone());
    assert_eq!(ok_ints(bytes.clone(), false), vec![u64::MAX as i128]);
    assert_eq!(ok_ints(bytes, true), vec![i64::MIN as i128]);
}

#[test]
fn rle_varint_too_long_fails() {
    let mut bytes = vec![0xff];
    bytes.extend(vec![0x80; 10]);
    bytes.push(0x00);
    assert!(matches!(ints(bytes, false).last(), Some(Err(Error::MalformedRun))));
}

#[test]
fn rle_value_out_of_range_fails() {
    // 2^64 does not fit
    let bytes = vec![0xff, 0x80, 0x80, 0x80, 0x80, 0x80, 0x80, 0x80, 0x80, 0x80, 0x02];
    assert!(matches!(ints(bytes, false).last(), Some(Err(Error::MalformedRun))));
    // a repeated run that steps below zero
    assert!(matches!(ints(vec![0x00, 0xff, 0x01], false).last(), Some(Err(Error::MalformedRun))));
}

#[test]
fn rle_truncated_run_fails() {
    let got = ints(vec![0xff, 0x05, 0xfe, 0x01], false);
    assert_eq!(got.len(), 2);
    assert_eq!(*got[0].as_ref().unwrap(), 5);
    assert!(matches!(got[1], Err(Error::UnexpectedEof)));
}

#[test]
fn variable_length_slicing() {
    let mut v = Values::new(ByteSource::new(vec![1, 2, 3, 4, 5, 6, 7, 8]));
    assert_eq!(v.next(3).unwrap(), vec![1, 2, 3]);
    assert_eq!(v.next(0).unwrap(), Vec::<u8>::new());
    assert_eq!(v.next(5).unwrap(), vec![4, 5, 6, 7, 8]);
    assert_eq!(v.remaining(), 0);
    assert!(matches!(v.next(1), Err(Error::UnexpectedEof)));
}

#[test]
fn binary_column_lengths_three_zero_five() {
    let s = stripe(vec![
        (StreamKind::Data, vec![1, 2, 3, 4, 5, 6, 7, 8]),
        (StreamKind::Length, vec![0xfd, 3, 0, 5]),
    ]);
    let mut it = new_binary_iterator(&column(3), &s).unwrap();
    assert_eq!(it.next().unwrap().unwrap(), Some(vec![1, 2, 3]));
    assert_eq!(it.next().unwrap().unwrap(), Some(vec![]));
    assert_eq!(it.next().unwrap().unwrap(), Some(vec![4, 5, 6, 7, 8]));
    assert!(it.next().is_none());
}

#[test]
fn binary_values_end_after_lengths() {
    let s = stripe(vec![
        (StreamKind::Data, vec![1, 2, 3, 4, 5, 6, 7, 8]),
        (StreamKind::Length, vec![0xfd, 3, 0, 5]),
    ]);
    let mut it = new_binary_iterator(&column(4), &s).unwrap();
    for _ in 0..3 {
        assert!(it.next().unwrap().is_ok());
    }
    assert!(it.next().unwrap().is_err());
}

#[test]
fn binary_length_beyond_values_fails() {
    let s = stripe(vec![
        (StreamKind::Data, vec![1, 2]),
        (StreamKind::Length, vec![0xfe, 1, 4]),
    ]);
    let mut it = new_binary_iterator(&column(2), &s).unwrap();
    assert_eq!(it.next().unwrap().unwrap(), Some(vec![1]));
    assert!(matches!(it.next(), Some(Err(Error::UnexpectedEof))));
}

#[test]
fn binary_column_with_nulls() {
    let s = stripe(vec![
        (StreamKind::Present, vec![0xff, 0b0110_0000]),
        (StreamKind::Data, vec![9, 8, 7]),
        (StreamKind::Length, vec![0xfe, 1, 2]),
    ]);
    let mut it = new_binary_iterator(&column(3), &s).unwrap();
    assert_eq!(it.next().unwrap().unwrap(), None);
    assert_eq!(it.next().unwrap().unwrap(), Some(vec![9]));
    assert_eq!(it.next().unwrap().unwrap(), Some(vec![8, 7]));
    assert!(it.next().is_none());
}

#[test]
fn missing_data_stream_is_invalid_column() {
    let s = stripe(vec![(StreamKind::Length, vec![0xff, 1])]);
    match new_binary_iterator(&column(1), &s) {
        Err(Error::InvalidColumn { name }) => assert_eq!(name, "col"),
        _ => panic!("expected an invalid column"),
    }
    match new_boolean_iter(&column(1), &stripe(vec![])) {
        Err(Error::InvalidColumn { name }) => assert_eq!(name, "col"),
        _ => panic!("expected an invalid column"),
    }
    match new_date_iter(&column(1), &stripe(vec![])) {
        Err(Error::InvalidColumn { name }) => assert_eq!(name, "col"),
        _ => panic!("expected an invalid column"),
    }
}

#[test]
fn missing_length_stream_is_invalid_column() {
    let s = stripe(vec![(StreamKind::Data, vec![1])]);
    assert!(matches!(new_binary_iterator(&column(1), &s), Err(Error::InvalidColumn { .. })));
}

#[test]
fn date_conversion_around_epoch() {
    assert_eq!(convert_date(0).unwrap(), Date { year: 1970, month: 1, day: 1 });
    assert_eq!(convert_date(-1).unwrap(), Date { year: 1969, month: 12, day: 31 });
    assert_eq!(convert_date(1).unwrap(), Date { year: 1970, month: 1, day: 2 });
    assert_eq!(convert_date(365).unwrap(), Date { year: 1971, month: 1, day: 1 });
    assert_eq!(convert_date(-719_162).unwrap(), Date { year: 1, month: 1, day: 1 });
}

#[test]
fn date_conversion_out_of_range() {
    assert!(matches!(convert_date(i64::MAX), Err(Error::AddDays)));
    assert!(matches!(convert_date(i64::MIN), Err(Error::AddDays)));
    assert!(matches!(convert_date(1_000_000_000), Err(Error::AddDays)));
}

#[test]
fn date_column_with_nulls() {
    // present: 1, 0, 1; day counts -1 and 1 (zig-zag 1 and 2)
    let s = stripe(vec![
        (StreamKind::Present, vec![0xff, 0b1010_0000]),
        (StreamKind::Data, vec![0xfe, 0x01, 0x02]),
    ]);
    let mut it = new_date_iter(&column(3), &s).unwrap();
    assert_eq!(it.next().unwrap().unwrap(), Some(Date { year: 1969, month: 12, day: 31 }));
    assert_eq!(it.next().unwrap().unwrap(), None);
    assert_eq!(it.next().unwrap().unwrap(), Some(Date { year: 1970, month: 1, day: 2 }));
    assert!(it.next().is_none());
}

#[test]
fn date_column_bad_day_count() {
    // i64::MAX as zig-zag: 2^64 - 2
    let s = stripe(vec![(
        StreamKind::Data,
        vec![0xff, 0xfe, 0xff, 0xff, 0xff, 0xff, 0xff, 0xff, 0xff, 0xff, 0x01],
    )]);
    let mut it = new_date_iter(&column(1), &s).unwrap();
    assert!(matches!(it.next(), Some(Err(Error::AddDays))));
}

#[test]
fn early_drop_reads_no_further() {
    // two good rows, then a truncated run that is never reached
    let s = stripe(vec![(StreamKind::Data, vec![0xfe, 0x00, 0x02, 0xfd, 0x01])]);
    let mut it = new_date_iter(&column(5), &s).unwrap();
    assert!(it.next().unwrap().is_ok());
    assert!(it.next().unwrap().is_ok());
    drop(it);
}

#[test]
fn error_messages() {
    let e = Error::InvalidColumn { name: String::from("c") };
    assert_eq!(e.message(), "invalid column: c");
    assert_eq!(Error::AddDays.message(), "date out of range");
}
