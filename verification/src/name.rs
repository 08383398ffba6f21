//! How each dialect fits a file name into the sixteen-byte identifier field,
//! or gets round it.
//!
//! * **Common** writes the name followed by a `/` where the name is shorter
//!   than the field, and the name alone where it fills the field. Longer
//!   names cannot be written.
//! * **BSD** writes a name of at most sixteen bytes without spaces as Common
//!   does. Any other name is written as `#1/<N>`, `N` being its length, and
//!   its bytes are put in front of the payload.
//! * **GNU** writes a name of at most fifteen bytes without spaces or
//!   slashes followed by a `/`. Any other name is written as `/<offset>`,
//!   the offset being that of the name in the archive's name table.

use crate::bytes::{
    append_bytes, contains_byte, copy_range, has_byte, has_pair, has_prefix, pair_at,
    same_bytes,
};
use crate::error::ArError;
use crate::header::{Variant, IDENTIFIER_WIDTH};
use crate::numeric::{
    digits_of, fits_field, format_number, parse_digits, parse_digits_spec, within_u64, Radix,
    SPACE,
};
use vstd::prelude::*;
use vstd::slice::slice_subrange;

verus! {

/// The byte that ends an inline name and begins a GNU reference.
pub const SLASH: u8 = 0x2F;

/// The byte that follows the slash after each name of the name table, and
/// that pads a payload of odd length.
pub const NEWLINE: u8 = 0x0A;

/// The first byte of the BSD escape, `#`.
pub const HASH: u8 = 0x23;

/// The second byte of the BSD escape, `1`.
pub const DIGIT_ONE: u8 = 0x31;

/// The longest name that GNU writes inline.
pub const GNU_INLINE_MAX: usize = 15;

/// The escape `#1/` that begins a BSD long-name identifier.
pub open spec fn bsd_escape() -> Seq<u8> {
    seq![HASH, DIGIT_ONE, SLASH]
}

/// The identifier `__.SYMDEF` of a BSD symbol table.
pub open spec fn symdef() -> Seq<u8> {
    seq![0x5Fu8, 0x5F, 0x2E, 0x53, 0x59, 0x4D, 0x44, 0x45, 0x46]
}

/// The identifier `__.SYMDEF SORTED` of a sorted BSD symbol table.
pub open spec fn symdef_sorted() -> Seq<u8> {
    symdef() + seq![0x20u8, 0x53, 0x4F, 0x52, 0x54, 0x45, 0x44]
}

/// The identifier `//` of the GNU name table.
pub open spec fn gnu_name_table_id() -> Seq<u8> {
    seq![SLASH, SLASH]
}

/// The identifier `/` of the GNU symbol table.
pub open spec fn gnu_symbol_table_id() -> Seq<u8> {
    seq![SLASH]
}

/// The records that an archive holds for itself and that a reader does not
/// hand out.
#[derive(Clone, Copy, Debug, PartialEq, Eq, Structural)]
pub enum PseudoEntry {
    /// The GNU table of long names, `//`.
    NameTable,
    /// The GNU symbol table, `/`.
    GnuSymbolTable,
    /// The BSD symbol table, `__.SYMDEF` or `__.SYMDEF SORTED`.
    BsdSymbolTable,
}

/// What an identifier field says about where the name is.
#[derive(Debug, PartialEq, Eq)]
pub enum NameRef {
    /// The name itself.
    Inline(Vec<u8>),
    /// The name is the given number of bytes in front of the payload.
    Extended(u64),
    /// The name begins at the given offset of the name table.
    TableOffset(u64),
}

/// A `NameRef` as mathematical values.
pub enum NameRefView {
    /// The name itself.
    Inline(Seq<u8>),
    /// The name is the given number of bytes in front of the payload.
    Extended(u64),
    /// The name begins at the given offset of the name table.
    TableOffset(u64),
}

impl View for NameRef {
    type V = NameRefView;

    open spec fn view(&self) -> NameRefView {
        match self {
            NameRef::Inline(name) => NameRefView::Inline(name@),
            NameRef::Extended(len) => NameRefView::Extended(*len),
            NameRef::TableOffset(offset) => NameRefView::TableOffset(*offset),
        }
    }
}

/// Whether `r` is the reference that `s` describes, or the same error.
pub open spec fn same_name_ref(r: Result<NameRef, ArError>, s: Result<NameRefView, ArError>) -> bool {
    match r {
        Ok(n) => s == Ok::<NameRefView, ArError>(n@),
        Err(e) => s == Err::<NameRefView, ArError>(e),
    }
}

/// The identifier field that Common writes for a name of at most sixteen
/// bytes: the name and a `/` where both fit, else the name.
pub open spec fn common_field(name: Seq<u8>) -> Seq<u8> {
    if name.len() < IDENTIFIER_WIDTH {
        name.push(SLASH)
    } else {
        name
    }
}

/// An identifier field without the `/` that may end it.
pub open spec fn strip_terminator(field: Seq<u8>) -> Seq<u8> {
    if field.len() > 0 && field.last() == SLASH {
        field.drop_last()
    } else {
        field
    }
}

/// Whether BSD writes `name` into the identifier field itself.
pub open spec fn bsd_inline(name: Seq<u8>) -> bool {
    name.len() <= IDENTIFIER_WIDTH && !has_byte(name, SPACE)
}

/// Whether GNU writes `name` into the identifier field itself.
pub open spec fn gnu_inline(name: Seq<u8>) -> bool {
    name.len() <= GNU_INLINE_MAX && !has_byte(name, SPACE) && !has_byte(name, SLASH)
}

/// The bytes that a dialect puts in front of the payload for `name`: the
/// name where BSD escapes it, nothing otherwise.
pub open spec fn extension_of(variant: Variant, name: Seq<u8>) -> Seq<u8> {
    if variant == Variant::BSD && !bsd_inline(name) {
        name
    } else {
        Seq::empty()
    }
}

/// The identifier field that a dialect writes for `name`. `offset` is where
/// the name stands in the name table; only GNU reads it, and only for a name
/// that it does not write inline.
///
/// Common fails with `UnsupportedLongName` on a name of more than sixteen
/// bytes. BSD fails with it on a name whose length has more than thirteen
/// digits. GNU fails with `NameTableOffsetOutOfRange` on an offset of more
/// than fifteen digits.
pub open spec fn encode_identifier_spec(variant: Variant, name: Seq<u8>, offset: u64) -> Result<
    Seq<u8>,
    ArError,
> {
    match variant {
        Variant::Common => if name.len() > IDENTIFIER_WIDTH {
            Err(ArError::UnsupportedLongName)
        } else {
            Ok(common_field(name))
        },
        Variant::BSD => if bsd_inline(name) {
            Ok(common_field(name))
        } else if bsd_escape().len() + digits_of(name.len(), Radix::Decimal).len()
            > IDENTIFIER_WIDTH {
            Err(ArError::UnsupportedLongName)
        } else {
            Ok(bsd_escape() + digits_of(name.len(), Radix::Decimal))
        },
        Variant::GNU => if gnu_inline(name) {
            Ok(name.push(SLASH))
        } else if 1 + digits_of(offset as nat, Radix::Decimal).len() > IDENTIFIER_WIDTH {
            Err(ArError::NameTableOffsetOutOfRange)
        } else {
            Ok(seq![SLASH] + digits_of(offset as nat, Radix::Decimal))
        },
    }
}

/// What a dialect reads from an identifier field, given without its trailing
/// spaces. A BSD field that begins with `#1/`, and a GNU field that begins
/// with `/`, must go on with a decimal number and nothing else; otherwise
/// decoding fails with `MalformedField`. Any other field is the name, less
/// one `/` at its end.
pub open spec fn decode_identifier_spec(variant: Variant, field: Seq<u8>) -> Result<
    NameRefView,
    ArError,
> {
    match variant {
        Variant::Common => Ok(NameRefView::Inline(strip_terminator(field))),
        Variant::BSD => if has_prefix(field, bsd_escape()) {
            match within_u64(parse_digits_spec(field.skip(3), Radix::Decimal)) {
                Some(len) => Ok(NameRefView::Extended(len)),
                None => Err(ArError::MalformedField),
            }
        } else {
            Ok(NameRefView::Inline(strip_terminator(field)))
        },
        Variant::GNU => if field.len() > 0 && field[0] == SLASH {
            match within_u64(parse_digits_spec(field.skip(1), Radix::Decimal)) {
                Some(offset) => Ok(NameRefView::TableOffset(offset)),
                None => Err(ArError::MalformedField),
            }
        } else {
            Ok(NameRefView::Inline(strip_terminator(field)))
        },
    }
}

/// Which pseudo-entry an identifier field, given without its trailing
/// spaces, announces in a dialect, if any. Common has none. BSD has its
/// symbol table. GNU has its name table and its symbol table, and takes the
/// BSD symbol table's names too.
pub open spec fn pseudo_entry_spec(variant: Variant, field: Seq<u8>) -> Option<PseudoEntry> {
    if variant == Variant::Common {
        None
    } else if field == symdef() || field == symdef_sorted() {
        Some(PseudoEntry::BsdSymbolTable)
    } else if variant == Variant::GNU && field == gnu_name_table_id() {
        Some(PseudoEntry::NameTable)
    } else if variant == Variant::GNU && field == gnu_symbol_table_id() {
        Some(PseudoEntry::GnuSymbolTable)
    } else {
        None
    }
}

/// The names that a dialect can write and read back. Common holds at most
/// sixteen bytes, and a name that fills the field may end in neither a space
/// nor a slash. BSD cannot tell a short name that begins with `#1/` from its
/// escape, nor a slash that ends a name of sixteen bytes from a terminator;
/// the length of a name that it escapes must fit thirteen digits. GNU cannot
/// tell the empty name from its symbol table, and a name in its table ends
/// where a slash and a newline first occur.
pub open spec fn representable(variant: Variant, name: Seq<u8>) -> bool {
    match variant {
        Variant::Common => name.len() <= IDENTIFIER_WIDTH && (name.len() == IDENTIFIER_WIDTH
            ==> name.last() != SPACE && name.last() != SLASH),
        Variant::BSD => if bsd_inline(name) {
            !has_prefix(common_field(name), bsd_escape()) && (name.len() == IDENTIFIER_WIDTH
                ==> name.last() != SLASH)
        } else {
            fits_field(name.len(), Radix::Decimal, (IDENTIFIER_WIDTH - 3) as nat)
        },
        Variant::GNU => if gnu_inline(name) {
            name.len() > 0
        } else {
            !has_pair(name, SLASH, NEWLINE)
        },
    }
}

/// What reading the identifier field of a representable name gives.
pub open spec fn reference_to(variant: Variant, name: Seq<u8>, offset: u64) -> NameRefView {
    match variant {
        Variant::Common => NameRefView::Inline(name),
        Variant::BSD => if bsd_inline(name) {
            NameRefView::Inline(name)
        } else {
            NameRefView::Extended(name.len() as u64)
        },
        Variant::GNU => if gnu_inline(name) {
            NameRefView::Inline(name)
        } else {
            NameRefView::TableOffset(offset)
        },
    }
}

/// The name-table entry of `name`: the name, a slash and a newline.
pub open spec fn table_entry(name: Seq<u8>) -> Seq<u8> {
    name + seq![SLASH, NEWLINE]
}

/// The payload of the name table for the identifiers `ids`: the entries of
/// those that GNU does not write inline, in the order of `ids`.
pub open spec fn table_of(ids: Seq<Seq<u8>>) -> Seq<u8>
    decreases ids.len(),
{
    if ids.len() == 0 {
        Seq::empty()
    } else if gnu_inline(ids.last()) {
        table_of(ids.drop_last())
    } else {
        table_of(ids.drop_last()) + table_entry(ids.last())
    }
}

/// Where the name that begins at `from` ends: at the first slash that a
/// newline follows, or at the end of the table where there is none.
pub open spec fn name_end(table: Seq<u8>, from: int) -> int
    decreases table.len() - from,
{
    if from >= table.len() {
        table.len() as int
    } else if pair_at(table, from, SLASH, NEWLINE) {
        from
    } else {
        name_end(table, from + 1)
    }
}

/// The name that begins at `offset` of the name table. An offset at or
/// beyond the end of the table is out of range.
pub open spec fn lookup_spec(table: Seq<u8>, offset: u64) -> Result<Seq<u8>, ArError> {
    if offset >= table.len() {
        Err(ArError::NameTableOffsetOutOfRange)
    } else {
        Ok(table.subrange(offset as int, name_end(table, offset as int)))
    }
}

/// Whether `field` begins with the BSD escape.
fn has_bsd_escape(field: &[u8]) -> (yes: bool)
    ensures
        yes == has_prefix(field@, bsd_escape()),
{
    if field.len() < 3 {
        return false;
    }
    let yes = field[0] == HASH && field[1] == DIGIT_ONE && field[2] == SLASH;
    proof {
        let head = field@.take(3);
        if yes {
            assert(head =~= bsd_escape());
        } else {
            assert(head[0] == field@[0] && head[1] == field@[1] && head[2] == field@[2]);
        }
    }
    yes
}

/// Whether `field` is `__.SYMDEF`.
fn is_symdef(field: &[u8]) -> (yes: bool)
    ensures
        yes == (field@ == symdef()),
{
    if field.len() != 9 {
        return false;
    }
    let yes = field[0] == 0x5F && field[1] == 0x5F && field[2] == 0x2E && field[3] == 0x53
        && field[4] == 0x59 && field[5] == 0x4D && field[6] == 0x44 && field[7] == 0x45
        && field[8] == 0x46;
    proof {
        if yes {
            assert(field@ =~= symdef());
        }
    }
    yes
}

/// Whether `field` is `__.SYMDEF SORTED`.
fn is_symdef_sorted(field: &[u8]) -> (yes: bool)
    ensures
        yes == (field@ == symdef_sorted()),
{
    if field.len() != 16 {
        return false;
    }
    let head = slice_subrange(field, 0, 9);
    let first = is_symdef(head);
    let rest = field[9] == 0x20 && field[10] == 0x53 && field[11] == 0x4F && field[12] == 0x52
        && field[13] == 0x54 && field[14] == 0x45 && field[15] == 0x44;
    proof {
        let sorted = symdef_sorted();
        assert(sorted.len() == 16);
        if first && rest {
            assert forall|i: int| 0 <= i < 16 implies field@[i] == sorted[i] by {
                if i < 9 {
                    assert(field@[i] == head@[i]);
                }
            }
            assert(field@ =~= sorted);
        } else if field@ == sorted {
            assert(head@ =~= symdef());
        }
    }
    first && rest
}

impl Variant {
    /// Writes the identifier field for `name`: see `encode_identifier_spec`.
    pub fn encode_identifier(self, name: &[u8], offset: u64) -> (r: Result<Vec<u8>, ArError>)
        ensures
            same_bytes(r, encode_identifier_spec(self, name@, offset)),
    {
        let inline = match self {
            Variant::Common => {
                if name.len() > IDENTIFIER_WIDTH {
                    return Err(ArError::UnsupportedLongName);
                }
                true
            },
            Variant::BSD => name.len() <= IDENTIFIER_WIDTH && !contains_byte(name, SPACE),
            Variant::GNU => name.len() <= GNU_INLINE_MAX && !contains_byte(name, SPACE)
                && !contains_byte(name, SLASH),
        };
        let mut field: Vec<u8> = Vec::new();
        if inline {
            append_bytes(&mut field, name);
            if name.len() < IDENTIFIER_WIDTH {
                field.push(SLASH);
            }
            assert(field@ =~= common_field(name@));
            Ok(field)
        } else if self == Variant::BSD {
            let digits = format_number(name.len() as u64, Radix::Decimal);
            if digits.len() > IDENTIFIER_WIDTH - 3 {
                return Err(ArError::UnsupportedLongName);
            }
            field.push(HASH);
            field.push(DIGIT_ONE);
            field.push(SLASH);
            append_bytes(&mut field, digits.as_slice());
            assert(field@ =~= bsd_escape() + digits@);
            Ok(field)
        } else {
            let digits = format_number(offset, Radix::Decimal);
            if digits.len() > IDENTIFIER_WIDTH - 1 {
                return Err(ArError::NameTableOffsetOutOfRange);
            }
            field.push(SLASH);
            append_bytes(&mut field, digits.as_slice());
            assert(field@ =~= seq![SLASH] + digits@);
            Ok(field)
        }
    }

    /// Reads an identifier field, given without its trailing spaces: see
    /// `decode_identifier_spec`.
    pub fn decode_identifier(self, field: &[u8]) -> (r: Result<NameRef, ArError>)
        ensures
            same_name_ref(r, decode_identifier_spec(self, field@)),
    {
        let digits_from: usize = match self {
            Variant::Common => 0,
            Variant::BSD => if has_bsd_escape(field) {
                3
            } else {
                0
            },
            Variant::GNU => if field.len() > 0 && field[0] == SLASH {
                1
            } else {
                0
            },
        };
        if digits_from > 0 {
            let digits = slice_subrange(field, digits_from, field.len());
            assert(digits@ =~= field@.skip(digits_from as int));
            match parse_digits(digits, Radix::Decimal) {
                Some(n) => if self == Variant::BSD {
                    Ok(NameRef::Extended(n))
                } else {
                    Ok(NameRef::TableOffset(n))
                },
                None => Err(ArError::MalformedField),
            }
        } else {
            let len: usize = if field.len() > 0 && field[field.len() - 1] == SLASH {
                field.len() - 1
            } else {
                field.len()
            };
            let name = copy_range(field, 0, len);
            assert(name@ =~= strip_terminator(field@));
            Ok(NameRef::Inline(name))
        }
    }

    /// Which pseudo-entry an identifier field, given without its trailing
    /// spaces, announces: see `pseudo_entry_spec`.
    pub fn pseudo_entry(self, field: &[u8]) -> (r: Option<PseudoEntry>)
        ensures
            r == pseudo_entry_spec(self, field@),
    {
        if self == Variant::Common {
            return None;
        }
        if is_symdef(field) || is_symdef_sorted(field) {
            return Some(PseudoEntry::BsdSymbolTable);
        }
        if self == Variant::GNU && field.len() == 2 && field[0] == SLASH && field[1] == SLASH {
            assert(field@ =~= gnu_name_table_id());
            return Some(PseudoEntry::NameTable);
        }
        if self == Variant::GNU && field.len() == 1 && field[0] == SLASH {
            assert(field@ =~= gnu_symbol_table_id());
            return Some(PseudoEntry::GnuSymbolTable);
        }
        None
    }

    /// Whether an identifier field, given without its trailing spaces,
    /// announces a pseudo-entry.
    pub fn is_pseudo_entry(self, field: &[u8]) -> (yes: bool)
        ensures
            yes == pseudo_entry_spec(self, field@).is_some(),
    {
        self.pseudo_entry(field).is_some()
    }
}

/// The name that begins at `offset` of the name table `table`, or
/// `NameTableOffsetOutOfRange` where the table does not reach that far.
pub fn lookup_name(table: &[u8], offset: u64) -> (r: Result<Vec<u8>, ArError>)
    ensures
        same_bytes(r, lookup_spec(table@, offset)),
{
    if offset >= table.len() as u64 {
        return Err(ArError::NameTableOffsetOutOfRange);
    }
    let start: usize = offset as usize;
    let mut end: usize = start;
    while end < table.len() && !(end + 1 < table.len() && table[end] == SLASH && table[end + 1]
        == NEWLINE)
        invariant
            start <= end <= table@.len(),
            name_end(table@, start as int) == name_end(table@, end as int),
        decreases table@.len() - end,
    {
        end = end + 1;
    }
    Ok(copy_range(table, start, end))
}

} // verus!
