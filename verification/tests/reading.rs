use ar::reader::{Demand, Phase, Reader, Step};
use ar::symbols::{decode_bsd_symbols, decode_gnu_symbols, ByteOrder, Symbol};
use ar::{read_archive, ArError, Header, Variant};

fn record_header(field: &[u8], size: &[u8]) -> Vec<u8> {
    let mut out = field.to_vec();
    out.resize(16, b' ');
    out.extend_from_slice(b"0           0     0     0       ");
    out.extend_from_slice(size);
    out.resize(58, b' ');
    out.extend_from_slice(b"`\n");
    out
}

fn started(variant: Variant) -> Reader {
    let mut reader = Reader::new(variant, ByteOrder::Little);
    assert_eq!(reader.feed(b"!<arch>\n"), Ok(Step::More));
    reader
}

fn gnu_symbol_payload() -> Vec<u8> {
    let mut payload = vec![0, 0, 0, 2, 0, 0, 0, 60, 0, 0, 0, 188];
    payload.extend_from_slice(b"foo\0bar\0");
    payload
}

#[test]
fn new_reader_wants_the_magic() {
    let reader = Reader::new(Variant::GNU, ByteOrder::Big);
    assert_eq!(reader.phase(), Phase::AtMagic);
    assert_eq!(reader.demand(), Demand::Exactly(8));
    assert_eq!(reader.amount(), 8);
    assert_eq!(reader.variant(), Variant::GNU);
    assert!(!reader.is_done());
    assert_eq!(reader.symbols().len(), 0);
    assert_eq!(reader.name_table(), b"");
}

#[test]
fn malformed_magic() {
    let mut reader = Reader::new(Variant::Common, ByteOrder::Little);
    assert_eq!(reader.feed(b"!<arch>\r"), Err(ArError::InvalidMagic));
    assert_eq!(reader.phase(), Phase::Failed);
    assert!(reader.is_done());
    assert_eq!(reader.demand(), Demand::Nothing);
    assert_eq!(reader.feed(b"!<arch>\n"), Ok(Step::End));
    for variant in [Variant::Common, Variant::BSD, Variant::GNU] {
        assert_eq!(
            read_archive(b"?<arch>\nfoo.txt/", variant, ByteOrder::Little),
            Err(ArError::InvalidMagic)
        );
        assert_eq!(read_archive(b"!<arch>", variant, ByteOrder::Little), Err(ArError::InvalidMagic));
        assert_eq!(read_archive(b"", variant, ByteOrder::Little), Err(ArError::InvalidMagic));
    }
}

#[test]
fn magic_alone_is_an_empty_archive() {
    let archive = read_archive(b"!<arch>\n", Variant::Common, ByteOrder::Little).unwrap();
    assert_eq!(archive.entries().len(), 0);
    let mut reader = started(Variant::Common);
    assert_eq!(reader.phase(), Phase::BetweenEntries);
    assert_eq!(reader.demand(), Demand::Exactly(60));
    assert_eq!(reader.feed(b""), Ok(Step::End));
    assert_eq!(reader.phase(), Phase::Exhausted);
    assert!(reader.is_done());
}

#[test]
fn reader_takes_no_more_than_it_wants() {
    let mut reader = Reader::new(Variant::Common, ByteOrder::Little);
    assert_eq!(reader.feed(b"!<arch>\nfoo.txt/ and more"), Ok(Step::More));
    assert_eq!(reader.phase(), Phase::BetweenEntries);
}

#[test]
fn truncated_header() {
    let mut reader = started(Variant::Common);
    let header = record_header(b"foo.txt/", b"4");
    assert_eq!(reader.feed(&header[..59]), Err(ArError::TruncatedHeader));
    assert_eq!(reader.phase(), Phase::Failed);
    let mut bytes = b"!<arch>\n".to_vec();
    bytes.extend_from_slice(&header[..30]);
    assert_eq!(
        read_archive(&bytes, Variant::Common, ByteOrder::Little),
        Err(ArError::TruncatedHeader)
    );
}

#[test]
fn malformed_header_field() {
    let mut reader = started(Variant::Common);
    let mut header = record_header(b"foo.txt/", b"4");
    header[50] = b'x';
    assert_eq!(reader.feed(&header), Err(ArError::MalformedField));
    assert_eq!(reader.phase(), Phase::Failed);
}

#[test]
fn entry_is_handed_out_with_its_resolved_name() {
    let mut reader = started(Variant::Common);
    let step = reader.feed(&record_header(b"foo.txt/", b"4")).unwrap();
    assert_eq!(step, Step::Entry(Header::new(b"foo.txt".to_vec(), 4)));
    assert_eq!(reader.phase(), Phase::StreamingEntry { remaining: 4, padded: false });
    assert_eq!(reader.demand(), Demand::UpTo(4));
    assert_eq!(reader.feed(b"da"), Ok(Step::More));
    assert_eq!(reader.demand(), Demand::UpTo(2));
    assert_eq!(reader.feed(b"ta"), Ok(Step::More));
    assert_eq!(reader.phase(), Phase::BetweenEntries);
}

#[test]
fn odd_payload_is_followed_by_padding() {
    let mut reader = started(Variant::Common);
    let step = reader.feed(&record_header(b"foo.txt/", b"3")).unwrap();
    assert_eq!(step, Step::Entry(Header::new(b"foo.txt".to_vec(), 3)));
    assert_eq!(reader.phase(), Phase::StreamingEntry { remaining: 3, padded: true });
    assert_eq!(reader.feed(b"abc"), Ok(Step::More));
    assert_eq!(reader.phase(), Phase::SkippingPad);
    assert_eq!(reader.demand(), Demand::Exactly(1));
    assert_eq!(reader.feed(b"X"), Ok(Step::More));
    assert_eq!(reader.phase(), Phase::BetweenEntries);
}

#[test]
fn missing_last_padding_is_the_end() {
    let mut bytes = b"!<arch>\n".to_vec();
    bytes.extend_from_slice(&record_header(b"foo.txt/", b"3"));
    bytes.extend_from_slice(b"abc");
    let archive = read_archive(&bytes, Variant::Common, ByteOrder::Little).unwrap();
    assert_eq!(archive.entries().len(), 1);
    assert_eq!(archive.entries()[0].data(), b"abc");
}

#[test]
fn empty_entry_goes_straight_on() {
    let mut reader = started(Variant::Common);
    let step = reader.feed(&record_header(b"empty/", b"0")).unwrap();
    assert_eq!(step, Step::Entry(Header::new(b"empty".to_vec(), 0)));
    assert_eq!(reader.phase(), Phase::BetweenEntries);
}

#[test]
fn short_read_safety() {
    let mut reader = started(Variant::Common);
    let step = reader.feed(&record_header(b"big/", b"100")).unwrap();
    assert_eq!(step, Step::Entry(Header::new(b"big".to_vec(), 100)));
    assert_eq!(reader.demand(), Demand::UpTo(100));
    assert_eq!(reader.feed(&[7u8; 40]), Ok(Step::More));
    assert_eq!(reader.phase(), Phase::StreamingEntry { remaining: 60, padded: false });
    assert_eq!(reader.feed(b""), Ok(Step::End));
    assert_eq!(reader.phase(), Phase::Exhausted);
    assert_eq!(reader.feed(&[7u8; 60]), Ok(Step::End));

    let mut bytes = b"!<arch>\n".to_vec();
    bytes.extend_from_slice(&record_header(b"big/", b"100"));
    bytes.extend_from_slice(&[7u8; 40]);
    let archive = read_archive(&bytes, Variant::Common, ByteOrder::Little).unwrap();
    assert_eq!(archive.entries().len(), 1);
    assert_eq!(archive.entries()[0].header().size(), 100);
    assert_eq!(archive.entries()[0].data(), &[7u8; 40][..]);
}

#[test]
fn payload_is_clipped_at_its_size() {
    let mut reader = started(Variant::Common);
    reader.feed(&record_header(b"four/", b"4")).unwrap();
    let mut next = b"data".to_vec();
    next.extend_from_slice(&record_header(b"next/", b"0"));
    assert_eq!(reader.feed(&next), Ok(Step::More));
    assert_eq!(reader.phase(), Phase::BetweenEntries);
    assert_eq!(
        reader.feed(&next[4..]),
        Ok(Step::Entry(Header::new(b"next".to_vec(), 0)))
    );
}

#[test]
fn bsd_name_is_read_from_the_payload() {
    let mut reader = started(Variant::BSD);
    assert_eq!(reader.feed(&record_header(b"#1/23", b"28")), Ok(Step::More));
    assert_eq!(
        reader.phase(),
        Phase::ReadingName { len: 23, mtime: 0, uid: 0, gid: 0, mode: 0, size: 28 }
    );
    assert_eq!(reader.demand(), Demand::Exactly(23));
    let step = reader.feed(b"this is a long name.txt").unwrap();
    assert_eq!(step, Step::Entry(Header::new(b"this is a long name.txt".to_vec(), 5)));
    assert_eq!(reader.phase(), Phase::StreamingEntry { remaining: 5, padded: false });
}

#[test]
fn bsd_name_that_is_cut_off_is_a_truncated_header() {
    let mut reader = started(Variant::BSD);
    assert_eq!(reader.feed(&record_header(b"#1/23", b"28")), Ok(Step::More));
    assert_eq!(reader.feed(b"this is a long"), Err(ArError::TruncatedHeader));
}

#[test]
fn bsd_name_longer_than_the_size_is_malformed() {
    let mut reader = started(Variant::BSD);
    assert_eq!(reader.feed(&record_header(b"#1/23", b"22")), Err(ArError::MalformedField));
    let mut reader = started(Variant::BSD);
    assert_eq!(reader.feed(&record_header(b"#1/", b"22")), Err(ArError::MalformedField));
}

#[test]
fn gnu_name_table_is_kept_and_not_handed_out() {
    let mut reader = started(Variant::GNU);
    assert_eq!(reader.feed(&record_header(b"//", b"25")), Ok(Step::More));
    assert_eq!(
        reader.phase(),
        Phase::ReadingPseudo { kind: ar::name::PseudoEntry::NameTable, size: 25 }
    );
    assert_eq!(reader.feed(b"this is a long name.txt/\n"), Ok(Step::More));
    assert_eq!(reader.phase(), Phase::SkippingPad);
    assert_eq!(reader.name_table(), b"this is a long name.txt/\n");
    assert_eq!(reader.feed(b"\n"), Ok(Step::More));
    let step = reader.feed(&record_header(b"/0", b"2")).unwrap();
    assert_eq!(step, Step::Entry(Header::new(b"this is a long name.txt".to_vec(), 2)));
}

#[test]
fn gnu_reference_before_the_table_is_out_of_range() {
    let mut reader = started(Variant::GNU);
    assert_eq!(
        reader.feed(&record_header(b"/0", b"2")),
        Err(ArError::NameTableOffsetOutOfRange)
    );
    assert_eq!(reader.phase(), Phase::Failed);
}

#[test]
fn gnu_reference_beyond_the_table_is_out_of_range() {
    let mut reader = started(Variant::GNU);
    reader.feed(&record_header(b"//", b"24")).unwrap();
    reader.feed(b"this is a long name.t/\n\n").unwrap();
    assert_eq!(
        reader.feed(&record_header(b"/24", b"2")),
        Err(ArError::NameTableOffsetOutOfRange)
    );
}

#[test]
fn pseudo_entry_that_is_cut_off_is_a_truncated_header() {
    let mut reader = started(Variant::GNU);
    reader.feed(&record_header(b"//", b"25")).unwrap();
    assert_eq!(reader.feed(b"this is a long"), Err(ArError::TruncatedHeader));
}

#[test]
fn symbol_table() {
    let symbols = decode_gnu_symbols(&gnu_symbol_payload()).unwrap();
    assert_eq!(
        symbols,
        vec![Symbol::new(b"foo".to_vec(), 60), Symbol::new(b"bar".to_vec(), 188)]
    );
    assert_eq!(symbols[0].name(), b"foo");
    assert_eq!(symbols[0].offset(), 60);
    assert_eq!(symbols[1].name(), b"bar");
    assert_eq!(symbols[1].offset(), 188);
}

#[test]
fn gnu_symbol_table_is_kept_and_not_handed_out() {
    let mut bytes = b"!<arch>\n".to_vec();
    bytes.extend_from_slice(&record_header(b"/", b"20"));
    bytes.extend_from_slice(&gnu_symbol_payload());
    bytes.extend_from_slice(&record_header(b"foo.o/", b"3"));
    bytes.extend_from_slice(b"abc\n");
    let archive = read_archive(&bytes, Variant::GNU, ByteOrder::Little).unwrap();
    assert_eq!(archive.entries().len(), 1);
    assert_eq!(archive.entries()[0].header().identifier(), b"foo.o");
    assert_eq!(
        archive.symbols(),
        &[Symbol::new(b"foo".to_vec(), 60), Symbol::new(b"bar".to_vec(), 188)][..]
    );
}

#[test]
fn gnu_symbol_table_too_short_for_its_count() {
    assert_eq!(decode_gnu_symbols(b""), Err(ArError::MalformedField));
    assert_eq!(decode_gnu_symbols(&[0, 0, 0]), Err(ArError::MalformedField));
    assert_eq!(decode_gnu_symbols(&[0, 0, 0, 2, 0, 0, 0, 60]), Err(ArError::MalformedField));
    assert_eq!(decode_gnu_symbols(&[0, 0, 0, 0]), Ok(vec![]));
}

#[test]
fn gnu_symbol_names_may_run_out() {
    let mut payload = vec![0, 0, 0, 3, 0, 0, 0, 1, 0, 0, 1, 0, 0, 1, 0, 0];
    payload.extend_from_slice(b"foo\0ba");
    assert_eq!(
        decode_gnu_symbols(&payload),
        Ok(vec![
            Symbol::new(b"foo".to_vec(), 1),
            Symbol::new(b"ba".to_vec(), 256),
            Symbol::new(b"".to_vec(), 65536),
        ])
    );
}

#[test]
fn bsd_symbol_table_in_either_byte_order() {
    let mut little = vec![2, 0, 0, 0, 0, 0, 0, 0, 60, 0, 0, 0, 4, 0, 0, 0, 188, 0, 0, 0];
    little.extend_from_slice(b"foo\0bar\0");
    let mut big = vec![0, 0, 0, 2, 0, 0, 0, 0, 0, 0, 0, 60, 0, 0, 0, 4, 0, 0, 0, 188];
    big.extend_from_slice(b"foo\0bar\0");
    let expected = vec![Symbol::new(b"foo".to_vec(), 60), Symbol::new(b"bar".to_vec(), 188)];
    assert_eq!(decode_bsd_symbols(&little, ByteOrder::Little), Ok(expected.clone()));
    assert_eq!(decode_bsd_symbols(&big, ByteOrder::Big), Ok(expected));
    assert_eq!(decode_bsd_symbols(&little, ByteOrder::Big), Err(ArError::MalformedField));
}

#[test]
fn bsd_symbol_names_are_found_by_offset() {
    let mut payload = vec![2, 0, 0, 0, 4, 0, 0, 0, 9, 1, 0, 0, 0, 0, 0, 0, 7, 0, 0, 0];
    payload.extend_from_slice(b"foo\0bar");
    assert_eq!(
        decode_bsd_symbols(&payload, ByteOrder::Little),
        Ok(vec![Symbol::new(b"bar".to_vec(), 265), Symbol::new(b"foo".to_vec(), 7)])
    );
}

#[test]
fn bsd_symbol_table_that_is_malformed() {
    assert_eq!(decode_bsd_symbols(b"", ByteOrder::Little), Err(ArError::MalformedField));
    assert_eq!(
        decode_bsd_symbols(&[1, 0, 0, 0, 0, 0, 0, 0], ByteOrder::Little),
        Err(ArError::MalformedField)
    );
    let mut payload = vec![1, 0, 0, 0, 5, 0, 0, 0, 60, 0, 0, 0];
    payload.extend_from_slice(b"foo\0");
    assert_eq!(decode_bsd_symbols(&payload, ByteOrder::Little), Err(ArError::MalformedField));
    payload[4] = 4;
    assert_eq!(
        decode_bsd_symbols(&payload, ByteOrder::Little),
        Ok(vec![Symbol::new(b"".to_vec(), 60)])
    );
}

#[test]
fn bsd_symbol_table_is_kept_and_not_handed_out() {
    let mut table = vec![0, 0, 0, 1, 0, 0, 0, 0, 0, 0, 0, 68];
    table.extend_from_slice(b"main\0\0");
    for (variant, field) in [
        (Variant::BSD, &b"__.SYMDEF"[..]),
        (Variant::BSD, &b"__.SYMDEF SORTED"[..]),
        (Variant::GNU, &b"__.SYMDEF"[..]),
    ] {
        let mut bytes = b"!<arch>\n".to_vec();
        bytes.extend_from_slice(&record_header(field, b"18"));
        bytes.extend_from_slice(&table);
        bytes.extend_from_slice(&record_header(b"main.o/", b"0"));
        let archive = read_archive(&bytes, variant, ByteOrder::Big).unwrap();
        assert_eq!(archive.entries().len(), 1);
        assert_eq!(archive.entries()[0].header().identifier(), b"main.o");
        assert_eq!(archive.symbols(), &[Symbol::new(b"main".to_vec(), 68)][..]);
    }
}

#[test]
fn common_has_no_pseudo_entries() {
    let mut bytes = b"!<arch>\n".to_vec();
    bytes.extend_from_slice(&record_header(b"__.SYMDEF", b"2"));
    bytes.extend_from_slice(b"ab");
    bytes.extend_from_slice(&record_header(b"//", b"0"));
    let archive = read_archive(&bytes, Variant::Common, ByteOrder::Big).unwrap();
    assert_eq!(archive.entries().len(), 2);
    assert_eq!(archive.entries()[0].header().identifier(), b"__.SYMDEF");
    assert_eq!(archive.entries()[0].data(), b"ab");
    assert_eq!(archive.entries()[1].header().identifier(), b"/");
    assert_eq!(archive.symbols().len(), 0);
}

#[test]
fn malformed_symbol_table_fails_the_reader() {
    let mut reader = started(Variant::GNU);
    reader.feed(&record_header(b"/", b"4")).unwrap();
    assert_eq!(reader.feed(&[0, 0, 0, 9]), Err(ArError::MalformedField));
    assert_eq!(reader.phase(), Phase::Failed);
}
