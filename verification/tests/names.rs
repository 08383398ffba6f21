use ar::name::{lookup_name, NameRef, PseudoEntry};
use ar::{ArError, Variant};

#[test]
fn common_appends_a_terminator_to_a_short_name() {
    assert_eq!(Variant::Common.encode_identifier(b"foo.txt", 0), Ok(b"foo.txt/".to_vec()));
    assert_eq!(Variant::Common.encode_identifier(b"", 0), Ok(b"/".to_vec()));
    assert_eq!(
        Variant::Common.encode_identifier(b"fifteen bytes!!", 0),
        Ok(b"fifteen bytes!!/".to_vec())
    );
}

#[test]
fn common_writes_a_full_name_as_it_is() {
    assert_eq!(
        Variant::Common.encode_identifier(b"sixteen bytes!!!", 0),
        Ok(b"sixteen bytes!!!".to_vec())
    );
}

#[test]
fn common_refuses_a_long_name() {
    assert_eq!(
        Variant::Common.encode_identifier(b"seventeen bytes!!", 0),
        Err(ArError::UnsupportedLongName)
    );
}

#[test]
fn bsd_writes_a_short_name_without_spaces_inline() {
    assert_eq!(Variant::BSD.encode_identifier(b"foo.txt", 0), Ok(b"foo.txt/".to_vec()));
    assert_eq!(
        Variant::BSD.encode_identifier(b"sixteen_bytes!!!", 0),
        Ok(b"sixteen_bytes!!!".to_vec())
    );
}

#[test]
fn bsd_escapes_a_name_with_a_space_or_of_more_than_sixteen_bytes() {
    assert_eq!(Variant::BSD.encode_identifier(b"foo bar", 0), Ok(b"#1/7".to_vec()));
    assert_eq!(
        Variant::BSD.encode_identifier(b"this is a long name.txt", 0),
        Ok(b"#1/23".to_vec())
    );
    assert_eq!(Variant::BSD.encode_identifier(b"seventeen_bytes!!", 0), Ok(b"#1/17".to_vec()));
}

#[test]
fn gnu_writes_a_plain_name_of_up_to_fifteen_bytes_inline() {
    assert_eq!(Variant::GNU.encode_identifier(b"foo.txt", 9), Ok(b"foo.txt/".to_vec()));
    assert_eq!(
        Variant::GNU.encode_identifier(b"fifteen_bytes!!", 9),
        Ok(b"fifteen_bytes!!/".to_vec())
    );
}

#[test]
fn gnu_refers_to_the_table_for_any_other_name() {
    assert_eq!(Variant::GNU.encode_identifier(b"sixteen_bytes!!!", 9), Ok(b"/9".to_vec()));
    assert_eq!(Variant::GNU.encode_identifier(b"foo bar", 0), Ok(b"/0".to_vec()));
    assert_eq!(Variant::GNU.encode_identifier(b"dir/file", 1234), Ok(b"/1234".to_vec()));
    assert_eq!(
        Variant::GNU.encode_identifier(b"foo bar", 999_999_999_999_999),
        Ok(b"/999999999999999".to_vec())
    );
}

#[test]
fn gnu_refuses_an_offset_that_does_not_fit() {
    assert_eq!(
        Variant::GNU.encode_identifier(b"foo bar", 1_000_000_000_000_000),
        Err(ArError::NameTableOffsetOutOfRange)
    );
}

#[test]
fn common_decodes_by_dropping_one_terminator() {
    assert_eq!(
        Variant::Common.decode_identifier(b"foo.txt/"),
        Ok(NameRef::Inline(b"foo.txt".to_vec()))
    );
    assert_eq!(
        Variant::Common.decode_identifier(b"foo.txt"),
        Ok(NameRef::Inline(b"foo.txt".to_vec()))
    );
    assert_eq!(Variant::Common.decode_identifier(b"a//"), Ok(NameRef::Inline(b"a/".to_vec())));
    assert_eq!(Variant::Common.decode_identifier(b"#1/7"), Ok(NameRef::Inline(b"#1/7".to_vec())));
    assert_eq!(Variant::Common.decode_identifier(b"/12"), Ok(NameRef::Inline(b"/12".to_vec())));
    assert_eq!(Variant::Common.decode_identifier(b""), Ok(NameRef::Inline(b"".to_vec())));
}

#[test]
fn bsd_decodes_its_escape() {
    assert_eq!(Variant::BSD.decode_identifier(b"#1/23"), Ok(NameRef::Extended(23)));
    assert_eq!(Variant::BSD.decode_identifier(b"#1/0"), Ok(NameRef::Extended(0)));
    assert_eq!(
        Variant::BSD.decode_identifier(b"foo.txt/"),
        Ok(NameRef::Inline(b"foo.txt".to_vec()))
    );
    assert_eq!(Variant::BSD.decode_identifier(b"/12"), Ok(NameRef::Inline(b"/12".to_vec())));
}

#[test]
fn bsd_refuses_an_escape_without_a_number() {
    assert_eq!(Variant::BSD.decode_identifier(b"#1/"), Err(ArError::MalformedField));
    assert_eq!(Variant::BSD.decode_identifier(b"#1/2x"), Err(ArError::MalformedField));
    assert_eq!(Variant::BSD.decode_identifier(b"#1/12/"), Err(ArError::MalformedField));
}

#[test]
fn gnu_decodes_its_reference() {
    assert_eq!(Variant::GNU.decode_identifier(b"/0"), Ok(NameRef::TableOffset(0)));
    assert_eq!(Variant::GNU.decode_identifier(b"/1234"), Ok(NameRef::TableOffset(1234)));
    assert_eq!(
        Variant::GNU.decode_identifier(b"foo.txt/"),
        Ok(NameRef::Inline(b"foo.txt".to_vec()))
    );
    assert_eq!(Variant::GNU.decode_identifier(b"#1/7"), Ok(NameRef::Inline(b"#1/7".to_vec())));
}

#[test]
fn gnu_refuses_a_reference_without_a_number() {
    assert_eq!(Variant::GNU.decode_identifier(b"/"), Err(ArError::MalformedField));
    assert_eq!(Variant::GNU.decode_identifier(b"//"), Err(ArError::MalformedField));
    assert_eq!(Variant::GNU.decode_identifier(b"/abc"), Err(ArError::MalformedField));
}

#[test]
fn identifiers_round_trip() {
    let names: [&[u8]; 5] = [b"a", b"foo.txt", b"fifteen_bytes!!", b"x.y.z", b"UPPER.C"];
    for variant in [Variant::Common, Variant::BSD, Variant::GNU] {
        for name in names {
            let field = variant.encode_identifier(name, 0).unwrap();
            assert_eq!(variant.decode_identifier(&field), Ok(NameRef::Inline(name.to_vec())));
        }
    }
}

#[test]
fn pseudo_entries_of_each_variant() {
    assert_eq!(Variant::GNU.pseudo_entry(b"//"), Some(PseudoEntry::NameTable));
    assert_eq!(Variant::GNU.pseudo_entry(b"/"), Some(PseudoEntry::GnuSymbolTable));
    assert_eq!(Variant::GNU.pseudo_entry(b"__.SYMDEF"), Some(PseudoEntry::BsdSymbolTable));
    assert_eq!(Variant::GNU.pseudo_entry(b"__.SYMDEF SORTED"), Some(PseudoEntry::BsdSymbolTable));
    assert_eq!(Variant::BSD.pseudo_entry(b"__.SYMDEF"), Some(PseudoEntry::BsdSymbolTable));
    assert_eq!(Variant::BSD.pseudo_entry(b"__.SYMDEF SORTED"), Some(PseudoEntry::BsdSymbolTable));
    assert_eq!(Variant::BSD.pseudo_entry(b"//"), None);
    assert_eq!(Variant::BSD.pseudo_entry(b"/"), None);
    assert_eq!(Variant::Common.pseudo_entry(b"//"), None);
    assert_eq!(Variant::Common.pseudo_entry(b"/"), None);
    assert_eq!(Variant::Common.pseudo_entry(b"__.SYMDEF"), None);
    assert_eq!(Variant::GNU.pseudo_entry(b"__.SYMDEF/"), None);
    assert_eq!(Variant::GNU.pseudo_entry(b"__.SYMDEF SORTEd"), None);
    assert_eq!(Variant::GNU.pseudo_entry(b"foo.txt/"), None);
    assert_eq!(Variant::GNU.pseudo_entry(b"/0"), None);
}

#[test]
fn is_pseudo_entry_agrees() {
    assert!(Variant::GNU.is_pseudo_entry(b"//"));
    assert!(Variant::GNU.is_pseudo_entry(b"/"));
    assert!(Variant::BSD.is_pseudo_entry(b"__.SYMDEF"));
    assert!(!Variant::BSD.is_pseudo_entry(b"/"));
    assert!(!Variant::Common.is_pseudo_entry(b"__.SYMDEF SORTED"));
    assert!(!Variant::GNU.is_pseudo_entry(b"foo/"));
}

#[test]
fn lookup_finds_names_by_offset() {
    let table = b"this is a long name.txt/\ndir/sub/file.o/\n";
    assert_eq!(lookup_name(table, 0), Ok(b"this is a long name.txt".to_vec()));
    assert_eq!(lookup_name(table, 25), Ok(b"dir/sub/file.o".to_vec()));
    assert_eq!(lookup_name(table, 10), Ok(b"long name.txt".to_vec()));
}

#[test]
fn lookup_runs_to_the_end_of_an_open_table() {
    assert_eq!(lookup_name(b"no terminator", 3), Ok(b"terminator".to_vec()));
    assert_eq!(lookup_name(b"slash at end/", 0), Ok(b"slash at end/".to_vec()));
}

#[test]
fn lookup_refuses_an_offset_beyond_the_table() {
    let table = b"this is a long name.txt/\n";
    assert_eq!(lookup_name(table, 25), Err(ArError::NameTableOffsetOutOfRange));
    assert_eq!(lookup_name(table, u64::MAX), Err(ArError::NameTableOffsetOutOfRange));
    assert_eq!(lookup_name(b"", 0), Err(ArError::NameTableOffsetOutOfRange));
    assert_eq!(lookup_name(table, 24), Ok(b"\n".to_vec()));
}
