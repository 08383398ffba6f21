//! What holds of the codec as a whole: that a header, an entry and an
//! archive which were written are read back, that a name table gives back
//! the names it was built from, how long a record is, and what a reader
//! makes of bytes that are no archive or end too soon.

use crate::archive::{
    after_payload_of, archive_spec, payload_of, run, with_entries, ArchiveView, EntryView,
};
use crate::bytes::{has_byte, has_pair, pair_at};
use crate::codec::{read_header_spec, wire_header_spec, wire_size};
use crate::error::ArError;
use crate::header::{
    decode_record_spec, lemma_decode_record_of, numbers_fit, record_of, HeaderView, Variant,
    HEADER_LEN, IDENTIFIER_WIDTH,
};
use crate::name::{
    bsd_escape, bsd_inline, common_field, decode_identifier_spec, encode_identifier_spec,
    extension_of, gnu_inline, gnu_name_table_id, gnu_symbol_table_id, lookup_spec, name_end,
    pseudo_entry_spec, reference_to, representable, strip_terminator, symdef, symdef_sorted,
    table_entry, table_of, NameRefView, NEWLINE, SLASH,
};
use crate::numeric::{
    digits_of, fits_field, is_digit, lemma_digits_len, lemma_digits_of_are_digits,
    lemma_digits_value_of_digits, lemma_parse_field_of, parse_digits_spec, power, Radix, SPACE,
};
use crate::reader::{
    after_payload, begin_entry, chunk_of, fail, initial, step_spec, Phase, ReaderView, StepView,
};
use crate::symbols::ByteOrder;
use crate::writer::{entry_spec, magic, padding_of};
use vstd::prelude::*;

verus! {

/// A number that fits a decimal field of at most nineteen bytes is one that
/// a `u64` holds.
pub proof fn lemma_fitting_is_u64(n: nat, width: nat)
    requires
        1 <= width <= 19,
        fits_field(n, Radix::Decimal, width),
    ensures
        n <= u64::MAX,
    decreases 19 - width,
{
    if width < 19 {
        lemma_fitting_is_u64(n, width + 1);
    } else {
        lemma_digits_len(n, Radix::Decimal, 19);
        assert(power(Radix::Decimal, 19) == 10_000_000_000_000_000_000) by {
            reveal_with_fuel(power, 20);
        }
    }
}

/// The digits of a number read as that number.
pub proof fn lemma_parse_digits_of(n: nat)
    ensures
        parse_digits_spec(digits_of(n, Radix::Decimal), Radix::Decimal) == Some(n),
        digits_of(n, Radix::Decimal).last() != SPACE,
{
    lemma_digits_of_are_digits(n, Radix::Decimal);
    lemma_digits_value_of_digits(n, Radix::Decimal);
    let d = digits_of(n, Radix::Decimal);
    assert(is_digit(d[d.len() - 1], Radix::Decimal));
}

/// The identifier field of a representable name is at most sixteen bytes
/// long, does not end in a space, and reads as a reference to that name.
pub proof fn lemma_identifier_round_trip(variant: Variant, name: Seq<u8>, offset: u64)
    requires
        representable(variant, name),
        variant == Variant::GNU && !gnu_inline(name) ==> fits_field(
            offset as nat,
            Radix::Decimal,
            (IDENTIFIER_WIDTH - 1) as nat,
        ),
    ensures
        encode_identifier_spec(variant, name, offset) matches Ok(field) && {
            &&& field.len() <= IDENTIFIER_WIDTH
            &&& field.len() > 0
            &&& field.last() != SPACE
            &&& decode_identifier_spec(variant, field) == Ok::<NameRefView, ArError>(
                reference_to(variant, name, offset),
            )
        },
{
    let inline = match variant {
        Variant::Common => true,
        Variant::BSD => bsd_inline(name),
        Variant::GNU => gnu_inline(name),
    };
    if inline {
        let field = if variant == Variant::GNU {
            name.push(SLASH)
        } else {
            common_field(name)
        };
        if name.len() < IDENTIFIER_WIDTH {
            assert(field == name.push(SLASH));
            assert(field.drop_last() =~= name);
            assert(strip_terminator(field) == name);
            if variant == Variant::GNU {
                assert(field[0] == name[0]);
                assert(!has_byte(name, SLASH));
                assert(name[0] != SLASH);
            }
        } else if variant == Variant::BSD {
            assert(name[name.len() - 1] != SPACE);
        }
    } else if variant == Variant::BSD {
        let digits = digits_of(name.len(), Radix::Decimal);
        let field = bsd_escape() + digits;
        lemma_parse_digits_of(name.len());
        lemma_fitting_is_u64(name.len(), 13);
        assert(field.take(3) =~= bsd_escape());
        assert(field.skip(3) =~= digits);
        assert(field.last() == digits.last());
    } else {
        let digits = digits_of(offset as nat, Radix::Decimal);
        let field = seq![SLASH] + digits;
        lemma_parse_digits_of(offset as nat);
        assert(field.skip(1) =~= digits);
        assert(field.last() == digits.last());
    }
}

/// Round trip of a header. Where the dialect can represent the identifier of
/// `h` and the numbers of `h` fit their fields, `h` is written, and reading
/// what was written, whatever follows it, gives `h` back and the number of
/// bytes written. For a name that GNU keeps in its name table, `offset` must
/// fit the identifier field and be where `table` holds the name.
pub proof fn lemma_header_round_trip(
    variant: Variant,
    h: HeaderView,
    offset: u64,
    table: Seq<u8>,
    rest: Seq<u8>,
)
    requires
        representable(variant, h.identifier),
        numbers_fit(h, wire_size(variant, h)),
        variant == Variant::GNU && !gnu_inline(h.identifier) ==> {
            &&& fits_field(offset as nat, Radix::Decimal, (IDENTIFIER_WIDTH - 1) as nat)
            &&& lookup_spec(table, offset) == Ok::<Seq<u8>, ArError>(h.identifier)
        },
    ensures
        wire_header_spec(variant, h, offset) matches Ok(written) && read_header_spec(
            variant,
            written + rest,
            table,
        ) == Ok::<(HeaderView, nat), ArError>((h, written.len())),
{
    lemma_identifier_round_trip(variant, h.identifier, offset);
    let field = encode_identifier_spec(variant, h.identifier, offset)->Ok_0;
    let size = wire_size(variant, h);
    let extension = extension_of(variant, h.identifier);
    lemma_fitting_is_u64(size, 10);
    lemma_decode_record_of(field, h, size);
    let record = record_of(field, h, size);
    let written = record + extension;
    let bytes = written + rest;
    assert(bytes.take(HEADER_LEN as int) =~= record);
    if variant == Variant::BSD && !bsd_inline(h.identifier) {
        lemma_fitting_is_u64(h.identifier.len(), 13);
        assert(bytes.subrange(HEADER_LEN as int, HEADER_LEN + h.identifier.len()) =~= h.identifier);
    }
}

/// Name capacity. Common does not write a name of more than sixteen bytes.
/// BSD and GNU write it and read it back, where its length fits thirteen
/// digits; GNU reads it from its name table, which ends a name at a slash
/// that a newline follows.
pub proof fn lemma_long_name_capacity(h: HeaderView, offset: u64, table: Seq<u8>, rest: Seq<u8>)
    requires
        h.identifier.len() > IDENTIFIER_WIDTH,
        fits_field(h.identifier.len(), Radix::Decimal, (IDENTIFIER_WIDTH - 3) as nat),
        !has_pair(h.identifier, SLASH, NEWLINE),
        numbers_fit(h, wire_size(Variant::BSD, h)),
        fits_field(offset as nat, Radix::Decimal, (IDENTIFIER_WIDTH - 1) as nat),
        lookup_spec(table, offset) == Ok::<Seq<u8>, ArError>(h.identifier),
    ensures
        wire_header_spec(Variant::Common, h, offset) == Err::<Seq<u8>, ArError>(
            ArError::UnsupportedLongName,
        ),
        wire_header_spec(Variant::BSD, h, offset) matches Ok(written) && read_header_spec(
            Variant::BSD,
            written + rest,
            table,
        ) == Ok::<(HeaderView, nat), ArError>((h, written.len())),
        wire_header_spec(Variant::GNU, h, offset) matches Ok(written) && read_header_spec(
            Variant::GNU,
            written + rest,
            table,
        ) == Ok::<(HeaderView, nat), ArError>((h, written.len())),
{
    lemma_header_round_trip(Variant::BSD, h, offset, table, rest);
    lemma_fits_smaller(h.size as nat, wire_size(Variant::BSD, h));
    lemma_header_round_trip(Variant::GNU, h, offset, table, rest);
}

/// Where a number fits the size field, so does every smaller one.
pub proof fn lemma_fits_smaller(smaller: nat, larger: nat)
    requires
        smaller <= larger,
        fits_field(larger, Radix::Decimal, 10),
    ensures
        fits_field(smaller, Radix::Decimal, 10),
{
    lemma_digits_len(smaller, Radix::Decimal, 10);
    lemma_digits_len(larger, Radix::Decimal, 10);
}

/// The sixty bytes of a header are sixty bytes.
pub proof fn lemma_record_len(field: Seq<u8>, h: HeaderView, size: nat)
    requires
        field.len() <= IDENTIFIER_WIDTH,
        numbers_fit(h, size),
    ensures
        record_of(field, h, size).len() == HEADER_LEN,
{
    lemma_parse_field_of(h.mtime as nat, Radix::Decimal, 12);
    lemma_parse_field_of(h.uid as nat, Radix::Decimal, 6);
    lemma_parse_field_of(h.gid as nat, Radix::Decimal, 6);
    lemma_parse_field_of(h.mode as nat, Radix::Octal, 8);
    lemma_parse_field_of(size, Radix::Decimal, 10);
}

/// Where a header is written, the number in its size field is one that a
/// `u64` holds, and what is written is the sixty bytes and the extension.
pub proof fn lemma_written_size_is_u64(variant: Variant, h: HeaderView, offset: u64)
    requires
        wire_header_spec(variant, h, offset) is Ok,
    ensures
        wire_size(variant, h) <= u64::MAX,
        wire_header_spec(variant, h, offset)->Ok_0.len() == HEADER_LEN + extension_of(
            variant,
            h.identifier,
        ).len(),
{
    let field = encode_identifier_spec(variant, h.identifier, offset)->Ok_0;
    lemma_fitting_is_u64(wire_size(variant, h), 10);
    lemma_record_len(field, h, wire_size(variant, h));
}

/// Padding. The record of an entry is the sixty bytes of its header, the
/// payload as the archive holds it (for a name that BSD escapes, the name
/// and then the content) and, where that payload is of odd length, one
/// newline.
pub proof fn lemma_record_padding(variant: Variant, h: HeaderView, offset: u64, data: Seq<u8>)
    requires
        entry_spec(variant, h, offset, data) is Ok,
    ensures
        ({
            let record = entry_spec(variant, h, offset, data)->Ok_0;
            let payload = extension_of(variant, h.identifier) + data;
            &&& record.len() == HEADER_LEN + payload.len() + payload.len() % 2
            &&& record.subrange(HEADER_LEN as int, HEADER_LEN + payload.len()) == payload
            &&& payload.len() % 2 == 1 ==> record.last() == NEWLINE
        }),
{
    lemma_written_size_is_u64(variant, h, offset);
    let record = entry_spec(variant, h, offset, data)->Ok_0;
    let payload = extension_of(variant, h.identifier) + data;
    assert(record.subrange(HEADER_LEN as int, HEADER_LEN + payload.len()) =~= payload);
}

/// Malformed magic. Where the first eight bytes of what is fed to a new
/// reader, or all of it where it is shorter, are not the magic bytes, the
/// reader fails with `InvalidMagic`, and the archive has no entries.
pub proof fn lemma_invalid_magic(variant: Variant, order: ByteOrder, input: Seq<u8>)
    requires
        chunk_of(Phase::AtMagic, input) != magic(),
    ensures
        step_spec(initial(variant, order), input) == fail(
            initial(variant, order),
            ArError::InvalidMagic,
        ),
        archive_spec(input, variant, order) == Err::<ArchiveView, ArError>(ArError::InvalidMagic),
{
    reveal(step_spec);
}

/// Short read safety. Inside the payload of an entry a reader takes no more
/// bytes than are left of the payload, however many it is offered. Bytes
/// short of the payload leave it inside the payload, that much nearer its
/// end; no bytes at all are the end of the archive.
pub proof fn lemma_payload_is_clipped(r: ReaderView, input: Seq<u8>)
    requires
        r.phase is StreamingEntry,
    ensures
        ({
            let remaining = r.phase->remaining;
            let padded = r.phase->padded;
            let taken = chunk_of(r.phase, input);
            let after = step_spec(r, input);
            &&& taken.len() <= remaining
            &&& taken == input.take(taken.len() as int)
            &&& after.0 == ReaderView { phase: after.0.phase, ..r }
            &&& input.len() == 0 ==> after.0.phase == Phase::Exhausted && after.1
                == Ok::<StepView, ArError>(StepView::End)
            &&& 0 < taken.len() < remaining ==> after.0.phase == (Phase::StreamingEntry {
                remaining: (remaining - taken.len()) as u64,
                padded,
            }) && after.1 == Ok::<StepView, ArError>(StepView::More)
            &&& 0 < taken.len() == remaining ==> after.0.phase == (if padded {
                Phase::SkippingPad
            } else {
                Phase::BetweenEntries
            }) && after.1 == Ok::<StepView, ArError>(StepView::More)
        }),
{
    reveal(step_spec);
    assert(input.take(input.len() as int) =~= input);
}

/// The identifier field of a representable name announces no pseudo-entry.
pub proof fn lemma_field_is_no_pseudo_entry(variant: Variant, name: Seq<u8>, offset: u64)
    requires
        representable(variant, name),
        encode_identifier_spec(variant, name, offset) is Ok,
    ensures
        pseudo_entry_spec(variant, encode_identifier_spec(variant, name, offset)->Ok_0) is None,
{
    let field = encode_identifier_spec(variant, name, offset)->Ok_0;
    let sorted = symdef_sorted();
    assert(symdef().len() == 9 && symdef()[8] == 0x46 && symdef()[0] == 0x5F);
    assert(sorted.len() == 16 && sorted[9] == SPACE && sorted[15] == 0x44 && sorted[0] == 0x5F);
    assert(gnu_name_table_id().len() == 2 && gnu_name_table_id()[1] == SLASH);
    assert(gnu_symbol_table_id().len() == 1);
    match variant {
        Variant::Common => {},
        Variant::BSD => {
            if bsd_inline(name) {
                if name.len() < IDENTIFIER_WIDTH {
                    assert(field.last() == SLASH);
                } else {
                    assert(field == name);
                    assert(name[9] != SPACE);
                }
            } else {
                assert(field[0] == bsd_escape()[0]);
            }
        },
        Variant::GNU => {
            if gnu_inline(name) {
                assert(field.last() == SLASH);
                assert(field.len() == name.len() + 1);
                if field.len() == 2 {
                    assert(field[0] == name[0]);
                    assert(name[0] != SLASH);
                }
            } else {
                let digits = digits_of(offset as nat, Radix::Decimal);
                lemma_digits_of_are_digits(offset as nat, Radix::Decimal);
                assert(field[0] == SLASH);
                assert(field[1] == digits[0]);
                assert(is_digit(digits[0], Radix::Decimal));
            }
        },
    }
}

/// Before padding a reader takes one byte, whatever it is, and stands
/// between entries.
pub proof fn lemma_padding_is_dropped(r: ReaderView, input: Seq<u8>)
    requires
        r.phase == Phase::SkippingPad,
        input.len() > 0,
    ensures
        chunk_of(r.phase, input).len() == 1,
        step_spec(r, input) == (
            ReaderView { phase: Phase::BetweenEntries, ..r },
            Ok::<StepView, ArError>(StepView::More),
        ),
{
    reveal(step_spec);
}

/// After the header of an entry the reader takes the payload and the
/// padding, and stands between entries again.
proof fn lemma_payload_is_read(
    r: ReaderView,
    before: ReaderView,
    h: HeaderView,
    size: u64,
    data: Seq<u8>,
    rest: Seq<u8>,
)
    requires
        r.phase == Phase::BetweenEntries,
        before == begin_entry(r, h, size).0,
        data.len() == h.size,
    ensures
        ({
            let left = data + padding_of(size as nat) + rest;
            let payload = payload_of(before, h, left);
            &&& payload == data
            &&& run(after_payload_of(before, h, left), left.skip(payload.len() as int)) == run(
                r,
                rest,
            )
        }),
{
    let pad = padding_of(size as nat);
    let left = data + pad + rest;
    let payload = payload_of(before, h, left);
    let after = after_payload_of(before, h, left);
    if h.size > 0 {
        lemma_payload_is_clipped(before, left);
        assert(chunk_of(before.phase, left) =~= data);
        assert(after.phase == after_payload(size));
    } else {
        assert(data =~= Seq::<u8>::empty());
    }
    assert(payload == data);
    assert(after == ReaderView { phase: after_payload(size), ..r });
    let tail = left.skip(payload.len() as int);
    assert(tail =~= pad + rest);
    if size % 2 == 1 {
        lemma_padding_is_dropped(after, tail);
        assert(tail.skip(1) =~= rest);
        assert(ReaderView { phase: Phase::BetweenEntries, ..after } == r);
        assert(run(after, tail) == run(r, rest));
    } else {
        assert(tail =~= rest);
        assert(after == r);
    }
}

/// The reader `r` before the name of `h`, which BSD put in front of the
/// payload.
pub open spec fn before_name(r: ReaderView, h: HeaderView) -> ReaderView {
    ReaderView {
        phase: Phase::ReadingName {
            len: h.identifier.len() as u64,
            mtime: h.mtime,
            uid: h.uid,
            gid: h.gid,
            mode: h.mode,
            size: wire_size(Variant::BSD, h) as u64,
        },
        ..r
    }
}

/// A reader that stands between entries takes the sixty bytes of a written
/// header, and hands out the entry or, where BSD escaped the name, goes on
/// to read the name.
proof fn lemma_header_is_read(r: ReaderView, h: HeaderView, offset: u64, bytes: Seq<u8>)
    requires
        r.phase == Phase::BetweenEntries,
        representable(r.variant, h.identifier),
        wire_header_spec(r.variant, h, offset) is Ok,
        r.variant == Variant::GNU && !gnu_inline(h.identifier) ==> {
            &&& fits_field(offset as nat, Radix::Decimal, (IDENTIFIER_WIDTH - 1) as nat)
            &&& lookup_spec(r.table, offset) == Ok::<Seq<u8>, ArError>(h.identifier)
        },
        bytes.len() >= HEADER_LEN,
        bytes.take(HEADER_LEN as int) == record_of(
            encode_identifier_spec(r.variant, h.identifier, offset)->Ok_0,
            h,
            wire_size(r.variant, h),
        ),
    ensures
        chunk_of(r.phase, bytes).len() == HEADER_LEN,
        wire_size(r.variant, h) <= u64::MAX,
        step_spec(r, bytes) == if r.variant == Variant::BSD && !bsd_inline(h.identifier) {
            (before_name(r, h), Ok::<StepView, ArError>(StepView::More))
        } else {
            begin_entry(r, h, wire_size(r.variant, h) as u64)
        },
{
    let variant = r.variant;
    lemma_identifier_round_trip(variant, h.identifier, offset);
    lemma_field_is_no_pseudo_entry(variant, h.identifier, offset);
    lemma_written_size_is_u64(variant, h, offset);
    let field = encode_identifier_spec(variant, h.identifier, offset)->Ok_0;
    let size = wire_size(variant, h);
    lemma_decode_record_of(field, h, size);
    let record = record_of(field, h, size);
    let raw = HeaderView { identifier: field, size: size as u64, ..h };
    assert(chunk_of(r.phase, bytes) =~= record);
    assert(decode_record_spec(record) == Ok::<HeaderView, ArError>(raw));
    assert(pseudo_entry_spec(variant, raw.identifier) is None);
    assert(decode_identifier_spec(variant, raw.identifier) == Ok::<NameRefView, ArError>(
        reference_to(variant, h.identifier, offset),
    ));
    if variant == Variant::BSD && !bsd_inline(h.identifier) {
        lemma_fitting_is_u64(h.identifier.len(), 13);
        if h.identifier.len() == 0 {
            assert(bsd_inline(h.identifier));
        }
        assert(step_spec(r, bytes) == (
            before_name(r, h),
            Ok::<StepView, ArError>(StepView::More),
        )) by {
            reveal(step_spec);
        }
    } else {
        assert(extension_of(variant, h.identifier) =~= Seq::<u8>::empty());
        assert(HeaderView { identifier: h.identifier, ..raw } == h);
        assert(step_spec(r, bytes) == begin_entry(r, h, size as u64)) by {
            reveal(step_spec);
        }
    }
}

/// A reader that stands before the name which BSD put in front of the
/// payload takes the name and hands out the entry.
proof fn lemma_name_is_read(r: ReaderView, h: HeaderView, bytes: Seq<u8>)
    requires
        !bsd_inline(h.identifier),
        wire_size(Variant::BSD, h) <= u64::MAX,
        bytes.len() >= h.identifier.len(),
        bytes.take(h.identifier.len() as int) == h.identifier,
    ensures
        chunk_of(before_name(r, h).phase, bytes) == h.identifier,
        step_spec(before_name(r, h), bytes) == begin_entry(
            r,
            h,
            wire_size(Variant::BSD, h) as u64,
        ),
{
    reveal(step_spec);
    let chunk = chunk_of(before_name(r, h).phase, bytes);
    assert(chunk =~= h.identifier);
    assert(bytes.take(bytes.len() as int) =~= bytes);
}

/// Round trip of an entry. A reader that stands between entries reads the
/// record of an entry with a representable name as that entry, header and
/// payload, and goes on with what follows the record as if the record had
/// not been there. For a name that GNU keeps in its name table, `offset`
/// must fit the identifier field and be where the reader's table holds the
/// name.
pub proof fn lemma_entry_is_read_back(
    r: ReaderView,
    h: HeaderView,
    offset: u64,
    data: Seq<u8>,
    rest: Seq<u8>,
)
    requires
        r.phase == Phase::BetweenEntries,
        representable(r.variant, h.identifier),
        entry_spec(r.variant, h, offset, data) is Ok,
        r.variant == Variant::GNU && !gnu_inline(h.identifier) ==> {
            &&& fits_field(offset as nat, Radix::Decimal, (IDENTIFIER_WIDTH - 1) as nat)
            &&& lookup_spec(r.table, offset) == Ok::<Seq<u8>, ArError>(h.identifier)
        },
    ensures
        run(r, entry_spec(r.variant, h, offset, data)->Ok_0 + rest) == with_entries(
            seq![EntryView { header: h, data }],
            run(r, rest),
        ),
{
    let variant = r.variant;
    lemma_written_size_is_u64(variant, h, offset);
    let field = encode_identifier_spec(variant, h.identifier, offset)->Ok_0;
    let size = wire_size(variant, h);
    let extension = extension_of(variant, h.identifier);
    let record = record_of(field, h, size);
    let left = data + padding_of(size) + rest;
    let bytes = record + extension + left;
    assert(entry_spec(variant, h, offset, data)->Ok_0 + rest =~= bytes);
    assert(bytes.take(HEADER_LEN as int) =~= record);
    lemma_header_is_read(r, h, offset, bytes);
    let named = bytes.skip(HEADER_LEN as int);
    assert(named =~= extension + left);
    let begun = begin_entry(r, h, size as u64);
    lemma_payload_is_read(r, begun.0, h, size as u64, data, rest);
    let read = with_entries(seq![EntryView { header: h, data }], run(r, rest));
    if variant == Variant::BSD && !bsd_inline(h.identifier) {
        assert(named.take(h.identifier.len() as int) =~= h.identifier);
        lemma_name_is_read(r, h, named);
        assert(named.skip(h.identifier.len() as int) =~= left);
        assert(run(before_name(r, h), named) == read);
        assert(run(r, bytes) == run(before_name(r, h), named));
    } else {
        assert(named =~= left);
        assert(run(r, bytes) == read);
    }
}

/// Whether a builder without a name table writes the entry `e` so that it
/// can be read back: the dialect represents the name, GNU writes it inline,
/// and the record can be written.
pub open spec fn writable(variant: Variant, e: EntryView) -> bool {
    &&& representable(variant, e.header.identifier)
    &&& variant == Variant::GNU ==> gnu_inline(e.header.identifier)
    &&& entry_spec(variant, e.header, 0, e.data) is Ok
}

/// The records of `entries`, one after the other, as a builder without a
/// name table writes them.
pub open spec fn records_of(variant: Variant, entries: Seq<EntryView>) -> Seq<u8>
    decreases entries.len(),
{
    if entries.len() == 0 {
        Seq::empty()
    } else {
        entry_spec(variant, entries[0].header, 0, entries[0].data)->Ok_0 + records_of(
            variant,
            entries.skip(1),
        )
    }
}

/// A reader that stands between entries reads records that end with the
/// archive as the entries they were written from, and is then exhausted.
pub proof fn lemma_records_are_read_back(r: ReaderView, entries: Seq<EntryView>)
    requires
        r.phase == Phase::BetweenEntries,
        forall|i: int| 0 <= i < entries.len() ==> writable(r.variant, #[trigger] entries[i]),
    ensures
        run(r, records_of(r.variant, entries)) == Ok::<(Seq<EntryView>, ReaderView), ArError>(
            (entries, ReaderView { phase: Phase::Exhausted, ..r }),
        ),
    decreases entries.len(),
{
    let end = ReaderView { phase: Phase::Exhausted, ..r };
    if entries.len() == 0 {
        let nothing = Seq::<u8>::empty();
        assert(step_spec(r, nothing) == (end, Ok::<StepView, ArError>(StepView::End))) by {
            reveal(step_spec);
        }
        assert(nothing.skip(0) =~= nothing);
        assert(run(end, nothing) == Ok::<(Seq<EntryView>, ReaderView), ArError>(
            (Seq::empty(), end),
        ));
        assert(entries =~= Seq::<EntryView>::empty());
    } else {
        let first = entries[0];
        let others = entries.skip(1);
        assert(writable(r.variant, first));
        assert forall|i: int| 0 <= i < others.len() implies writable(
            r.variant,
            #[trigger] others[i],
        ) by {
            assert(others[i] == entries[i + 1]);
        }
        lemma_records_are_read_back(r, others);
        lemma_entry_is_read_back(r, first.header, 0, first.data, records_of(r.variant, others));
        assert(seq![first] + others =~= entries);
        assert(seq![EntryView { header: first.header, data: first.data }] == seq![first]);
    }
}

/// Round trip of an archive. The magic bytes and the records of entries
/// that a builder without a name table can write are read as those entries,
/// with no symbols.
pub proof fn lemma_archive_round_trip(variant: Variant, order: ByteOrder, entries: Seq<EntryView>)
    requires
        forall|i: int| 0 <= i < entries.len() ==> writable(variant, #[trigger] entries[i]),
    ensures
        archive_spec(magic() + records_of(variant, entries), variant, order) == Ok::<
            ArchiveView,
            ArError,
        >(ArchiveView { entries, symbols: Seq::empty() }),
{
    let start = initial(variant, order);
    let between = ReaderView { phase: Phase::BetweenEntries, ..start };
    let records = records_of(variant, entries);
    let bytes = magic() + records;
    assert(chunk_of(start.phase, bytes) =~= magic());
    assert(step_spec(start, bytes) == (between, Ok::<StepView, ArError>(StepView::More))) by {
        reveal(step_spec);
    }
    assert(bytes.skip(8) =~= records);
    lemma_records_are_read_back(between, entries);
    assert(run(start, bytes) == run(between, records));
}

/// The table of two lists of identifiers, one after the other, is the table
/// of the first and then that of the second.
pub proof fn lemma_table_of_concat(a: Seq<Seq<u8>>, b: Seq<Seq<u8>>)
    ensures
        table_of(a + b) == table_of(a) + table_of(b),
    decreases b.len(),
{
    if b.len() == 0 {
        assert(a + b =~= a);
        assert(table_of(a) + table_of(b) =~= table_of(a));
    } else {
        lemma_table_of_concat(a, b.drop_last());
        assert((a + b).drop_last() =~= a + b.drop_last());
        assert((a + b).last() == b.last());
        if !gnu_inline(b.last()) {
            assert(table_of(a) + table_of(b.drop_last()) + table_entry(b.last()) =~= table_of(a)
                + (table_of(b.drop_last()) + table_entry(b.last())));
        }
    }
}

/// Within the entry of `name`, which begins at `start` of `table`, every
/// position up to the end of the name is part of it.
proof fn lemma_name_end_in_entry(table: Seq<u8>, start: int, name: Seq<u8>, k: int)
    requires
        0 <= start,
        start + name.len() + 2 <= table.len(),
        table.subrange(start, start + name.len() + 2) == table_entry(name),
        !has_pair(name, SLASH, NEWLINE),
        0 <= k <= name.len(),
    ensures
        name_end(table, start + k) == start + name.len(),
    decreases name.len() - k,
{
    let entry = table_entry(name);
    assert(forall|i: int| 0 <= i < entry.len() ==> table[start + i] == #[trigger] entry[i]) by {
        assert forall|i: int| 0 <= i < entry.len() implies table[start + i] == #[trigger] entry[i] by {
            assert(table.subrange(start, start + name.len() + 2)[i] == table[start + i]);
        }
    }
    let len = name.len() as int;
    assert(entry[len] == SLASH);
    assert(entry[len + 1] == NEWLINE);
    if k == name.len() {
        assert(pair_at(table, start + k, SLASH, NEWLINE));
    } else {
        assert(entry[k] == name[k]);
        if k + 1 < name.len() {
            assert(entry[k + 1] == name[k + 1]);
            assert(!pair_at(name, k, SLASH, NEWLINE));
        }
        assert(!pair_at(table, start + k, SLASH, NEWLINE));
        lemma_name_end_in_entry(table, start, name, k + 1);
    }
}

/// The name table gives back the names it was built from: the identifier at
/// `index`, where GNU keeps it in the table and it holds no slash that a
/// newline follows, is found at the offset that is the length of the table
/// of the identifiers before it.
pub proof fn lemma_table_lookup(ids: Seq<Seq<u8>>, index: int)
    requires
        0 <= index < ids.len(),
        !gnu_inline(ids[index]),
        !has_pair(ids[index], SLASH, NEWLINE),
        table_of(ids.take(index)).len() <= u64::MAX,
    ensures
        lookup_spec(table_of(ids), table_of(ids.take(index)).len() as u64) == Ok::<
            Seq<u8>,
            ArError,
        >(ids[index]),
{
    let before = ids.take(index);
    let one = seq![ids[index]];
    let after = ids.skip(index + 1);
    let name = ids[index];
    assert(ids =~= before + one + after);
    lemma_table_of_concat(before + one, after);
    lemma_table_of_concat(before, one);
    assert(one.drop_last() =~= Seq::<Seq<u8>>::empty());
    assert(table_of(one) =~= table_entry(name)) by {
        reveal_with_fuel(table_of, 2);
    }
    let table = table_of(ids);
    let start = table_of(before).len() as int;
    assert(table == table_of(before) + table_entry(name) + table_of(after));
    assert(table.subrange(start, start + name.len() + 2) =~= table_entry(name));
    lemma_name_end_in_entry(table, start, name, 0);
    assert(table.subrange(start, start + name.len()) =~= name);
}

} // verus!
