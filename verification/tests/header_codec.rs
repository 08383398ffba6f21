use ar::header::encode_record;
use ar::numeric::{format_field, format_number, parse_digits, parse_field, Radix};
use ar::{ArError, Header, Variant};

fn sample() -> Header {
    let mut header = Header::new(b"foo.txt".to_vec(), 7);
    header.set_mtime(1487552916);
    header.set_uid(501);
    header.set_gid(20);
    header.set_mode(0o100644);
    header
}

#[test]
fn new_header_has_zero_fields() {
    let header = Header::new(b"foo.txt".to_vec(), 37);
    assert_eq!(header.identifier(), b"foo.txt");
    assert_eq!(header.size(), 37);
    assert_eq!(header.mtime(), 0);
    assert_eq!(header.uid(), 0);
    assert_eq!(header.gid(), 0);
    assert_eq!(header.mode(), 0);
}

#[test]
fn setters_change_one_field_each() {
    let mut header = Header::new(b"a".to_vec(), 1);
    header.set_identifier(b"b".to_vec());
    assert_eq!(header.identifier(), b"b");
    assert_eq!(header.size(), 1);
    header.set_mtime(11);
    header.set_uid(22);
    header.set_gid(33);
    header.set_mode(44);
    header.set_size(55);
    assert_eq!(header.mtime(), 11);
    assert_eq!(header.uid(), 22);
    assert_eq!(header.gid(), 33);
    assert_eq!(header.mode(), 44);
    assert_eq!(header.size(), 55);
    assert_eq!(header.identifier(), b"b");
}

#[test]
fn duplicate_is_equal() {
    let header = sample();
    assert_eq!(header.duplicate(), header);
}

#[test]
fn format_number_decimal_and_octal() {
    assert_eq!(format_number(0, Radix::Decimal), b"0".to_vec());
    assert_eq!(format_number(1487552916, Radix::Decimal), b"1487552916".to_vec());
    assert_eq!(format_number(0o100644, Radix::Octal), b"100644".to_vec());
    assert_eq!(format_number(8, Radix::Octal), b"10".to_vec());
    assert_eq!(format_number(u64::MAX, Radix::Decimal), b"18446744073709551615".to_vec());
}

#[test]
fn format_field_pads_with_spaces() {
    assert_eq!(format_field(501, Radix::Decimal, 6), Some(b"501   ".to_vec()));
    assert_eq!(format_field(999999, Radix::Decimal, 6), Some(b"999999".to_vec()));
    assert_eq!(format_field(0, Radix::Octal, 8), Some(b"0       ".to_vec()));
}

#[test]
fn format_field_refuses_what_does_not_fit() {
    assert_eq!(format_field(1000000, Radix::Decimal, 6), None);
    assert_eq!(format_field(0o100000000, Radix::Octal, 8), None);
}

#[test]
fn parse_field_trims_spaces_and_nuls() {
    assert_eq!(parse_field(b"501   ", Radix::Decimal), Some(501));
    assert_eq!(parse_field(b"501\0\0 ", Radix::Decimal), Some(501));
    assert_eq!(parse_field(b"100644  ", Radix::Octal), Some(0o100644));
    assert_eq!(parse_field(b"0007", Radix::Decimal), Some(7));
}

#[test]
fn parse_field_of_padding_is_zero() {
    assert_eq!(parse_field(b"      ", Radix::Decimal), Some(0));
    assert_eq!(parse_field(b"", Radix::Octal), Some(0));
}

#[test]
fn parse_field_refuses_what_is_no_number() {
    assert_eq!(parse_field(b"12a   ", Radix::Decimal), None);
    assert_eq!(parse_field(b" 12   ", Radix::Decimal), None);
    assert_eq!(parse_field(b"1 2   ", Radix::Decimal), None);
    assert_eq!(parse_field(b"+12   ", Radix::Decimal), None);
    assert_eq!(parse_field(b"-1    ", Radix::Decimal), None);
    assert_eq!(parse_field(b"8     ", Radix::Octal), None);
}

#[test]
fn parse_field_refuses_what_no_u64_holds() {
    assert_eq!(parse_field(b"18446744073709551615", Radix::Decimal), Some(u64::MAX));
    assert_eq!(parse_field(b"18446744073709551616", Radix::Decimal), None);
    assert_eq!(parse_field(b"99999999999999999999", Radix::Decimal), None);
}

#[test]
fn parse_digits_wants_a_digit() {
    assert_eq!(parse_digits(b"23", Radix::Decimal), Some(23));
    assert_eq!(parse_digits(b"", Radix::Decimal), None);
    assert_eq!(parse_digits(b"23 ", Radix::Decimal), None);
}

#[test]
fn parse_inverts_format() {
    for n in [0u64, 1, 7, 8, 9, 10, 63, 64, 65, 99, 100, 12345, 4294967295, 9999999999] {
        let decimal = format_field(n, Radix::Decimal, 20).unwrap();
        assert_eq!(parse_field(&decimal, Radix::Decimal), Some(n));
        let octal = format_field(n, Radix::Octal, 22).unwrap();
        assert_eq!(parse_field(&octal, Radix::Octal), Some(n));
    }
}

#[test]
fn encode_record_lays_out_the_fields() {
    let header = sample();
    let record = encode_record(b"foo.txt/", &header, 7).unwrap();
    assert_eq!(
        record,
        b"foo.txt/        1487552916  501   20    100644  7         `\n".to_vec()
    );
    assert_eq!(record.len(), 60);
}

#[test]
fn encode_record_refuses_a_long_field() {
    let header = sample();
    assert_eq!(
        encode_record(b"seventeen bytes!!", &header, 7),
        Err(ArError::UnsupportedLongName)
    );
}

#[test]
fn encode_record_refuses_numbers_that_do_not_fit() {
    let mut header = sample();
    assert_eq!(encode_record(b"a/", &header, 10_000_000_000), Err(ArError::MalformedField));
    header.set_uid(1_000_000);
    assert_eq!(encode_record(b"a/", &header, 1), Err(ArError::MalformedField));
    header.set_uid(0);
    header.set_gid(1_000_000);
    assert_eq!(encode_record(b"a/", &header, 1), Err(ArError::MalformedField));
    header.set_gid(0);
    header.set_mode(0o100000000);
    assert_eq!(encode_record(b"a/", &header, 1), Err(ArError::MalformedField));
    header.set_mode(0);
    header.set_mtime(1_000_000_000_000);
    assert_eq!(encode_record(b"a/", &header, 1), Err(ArError::MalformedField));
    header.set_mtime(999_999_999_999);
    assert!(encode_record(b"a/", &header, 9_999_999_999).is_ok());
}

#[test]
fn decode_reads_the_fields() {
    let raw = b"foo.txt/        1487552916  501   20    100644  7         `\n";
    let header = Header::decode(raw).unwrap();
    assert_eq!(header.identifier(), b"foo.txt/");
    assert_eq!(header.mtime(), 1487552916);
    assert_eq!(header.uid(), 501);
    assert_eq!(header.gid(), 20);
    assert_eq!(header.mode(), 0o100644);
    assert_eq!(header.size(), 7);
}

#[test]
fn decode_takes_blank_numbers_for_zero() {
    let raw = b"//                                              104       `\n";
    let header = Header::decode(raw).unwrap();
    assert_eq!(header.identifier(), b"//");
    assert_eq!(header.mtime(), 0);
    assert_eq!(header.uid(), 0);
    assert_eq!(header.gid(), 0);
    assert_eq!(header.mode(), 0);
    assert_eq!(header.size(), 104);
}

#[test]
fn decode_wants_sixty_bytes() {
    let raw = b"foo.txt/        1487552916  501   20    100644  7         `\n";
    assert_eq!(Header::decode(&raw[..59]), Err(ArError::TruncatedHeader));
    assert_eq!(Header::decode(b""), Err(ArError::TruncatedHeader));
    let mut longer = raw.to_vec();
    longer.push(b'\n');
    assert_eq!(Header::decode(&longer), Err(ArError::TruncatedHeader));
}

#[test]
fn decode_wants_the_end_marker() {
    let raw = b"foo.txt/        1487552916  501   20    100644  7         `\r";
    assert_eq!(Header::decode(raw), Err(ArError::MalformedField));
    let raw = b"foo.txt/        1487552916  501   20    100644  7         '\n";
    assert_eq!(Header::decode(raw), Err(ArError::MalformedField));
}

#[test]
fn decode_refuses_a_field_that_is_no_number() {
    let raw = b"foo.txt/        14875x2916  501   20    100644  7         `\n";
    assert_eq!(Header::decode(raw), Err(ArError::MalformedField));
    let raw = b"foo.txt/        1487552916  501   20    100648  7         `\n";
    assert_eq!(Header::decode(raw), Err(ArError::MalformedField));
    let raw = b"foo.txt/        1487552916  501   20    100644  seven     `\n";
    assert_eq!(Header::decode(raw), Err(ArError::MalformedField));
}

#[test]
fn header_encode_counts_the_bsd_name() {
    let header = Header::new(b"this is a long name.txt".to_vec(), 5);
    let record = header.encode(Variant::BSD, b"#1/23").unwrap();
    assert_eq!(&record[0..16], b"#1/23           ");
    assert_eq!(&record[48..58], b"28        ");
    let record = header.encode(Variant::GNU, b"/0").unwrap();
    assert_eq!(&record[0..16], b"/0              ");
    assert_eq!(&record[48..58], b"5         ");
}

#[test]
fn header_round_trips_in_every_variant() {
    let header = sample();
    for variant in [Variant::Common, Variant::BSD, Variant::GNU] {
        let mut written = header.write(variant, 0).unwrap();
        assert_eq!(written.len(), 60);
        written.extend_from_slice(b"payload");
        assert_eq!(Header::read(variant, &written, b""), Ok((header.duplicate(), 60)));
    }
}

#[test]
fn long_name_round_trips_in_bsd() {
    let mut header = sample();
    header.set_identifier(b"this is a long name.txt".to_vec());
    let mut written = header.write(Variant::BSD, 0).unwrap();
    assert_eq!(written.len(), 83);
    assert_eq!(&written[0..16], b"#1/23           ");
    assert_eq!(&written[48..58], b"30        ");
    assert_eq!(&written[60..], b"this is a long name.txt");
    written.extend_from_slice(b"payload");
    assert_eq!(Header::read(Variant::BSD, &written, b""), Ok((header, 83)));
}

#[test]
fn long_name_round_trips_in_gnu() {
    let mut header = sample();
    header.set_identifier(b"this is a long name.txt".to_vec());
    let table = b"other long name here.o/\nthis is a long name.txt/\n";
    let written = header.write(Variant::GNU, 24).unwrap();
    assert_eq!(written.len(), 60);
    assert_eq!(&written[0..16], b"/24             ");
    assert_eq!(Header::read(Variant::GNU, &written, table), Ok((header, 60)));
}

#[test]
fn long_name_is_unsupported_in_common() {
    let header = Header::new(b"this is a long name.txt".to_vec(), 5);
    assert_eq!(header.write(Variant::Common, 0), Err(ArError::UnsupportedLongName));
    let header = Header::new(b"seventeen bytes!!".to_vec(), 5);
    assert_eq!(header.write(Variant::Common, 0), Err(ArError::UnsupportedLongName));
    let header = Header::new(b"sixteen bytes!!!".to_vec(), 5);
    assert!(header.write(Variant::Common, 0).is_ok());
}

#[test]
fn read_wants_the_whole_bsd_name() {
    let header = Header::new(b"this is a long name.txt".to_vec(), 5);
    let written = header.write(Variant::BSD, 0).unwrap();
    assert_eq!(
        Header::read(Variant::BSD, &written[..82], b""),
        Err(ArError::TruncatedHeader)
    );
    assert_eq!(Header::read(Variant::BSD, &written[..59], b""), Err(ArError::TruncatedHeader));
}

#[test]
fn read_refuses_a_bsd_name_longer_than_the_size() {
    let raw = b"#1/20           0           0     0     0       7         `\nabcdefghijklmnopqrst";
    assert_eq!(Header::read(Variant::BSD, raw, b""), Err(ArError::MalformedField));
}

#[test]
fn read_refuses_an_offset_beyond_the_table() {
    let raw = b"/25             0           0     0     0       7         `\n";
    let table = b"this is a long name.txt/\n";
    assert_eq!(Header::read(Variant::GNU, raw, table), Err(ArError::NameTableOffsetOutOfRange));
    assert_eq!(Header::read(Variant::GNU, raw, b""), Err(ArError::NameTableOffsetOutOfRange));
    let raw = b"/0              0           0     0     0       7         `\n";
    assert_eq!(Header::read(Variant::GNU, raw, b""), Err(ArError::NameTableOffsetOutOfRange));
}
